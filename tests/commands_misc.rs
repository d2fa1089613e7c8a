use mcmod::commands::{
    eula_accepted, eula_answer_agrees, eula_auto_agree, parse_yes_no, InitCommand, RunCommand,
};
use mcmod::eclipse::{classpath_change, ProjectNameRewriter};
use mcmod::error::ErrorKind;
use mcmod::project::{extend_group, next_group_segment, GroupEntry, Project};

#[test]
fn run_plans() {
    let r = RunCommand { command: "client".to_string(), sync: false };
    let p = r.plan();
    assert_eq!(p.task, "runClient");
    assert!(!p.needs_eula);
    assert!(r.sync_command().incremental);
    let p = RunCommand { command: "server2".to_string(), sync: true }.plan();
    assert_eq!(p.task, "runServer2");
    assert!(p.needs_eula);
    let p = RunCommand { command: "build".to_string(), sync: true }.plan();
    assert_eq!(p.task, "build");
    assert!(!p.needs_eula);
}

#[test]
fn eula_checks() {
    assert!(eula_accepted("#comment\n  eula=true \n"));
    assert!(!eula_accepted("eula=false\n"));
    assert!(eula_auto_agree("1"));
    assert!(eula_auto_agree("true"));
    assert!(!eula_auto_agree("yes"));
    assert!(eula_answer_agrees(" Y\n"));
    assert!(!eula_answer_agrees("n"));
}

#[test]
fn yes_no_answers() {
    assert_eq!(parse_yes_no("yes\n").unwrap(), true);
    assert_eq!(parse_yes_no(" N ").unwrap(), false);
    assert_eq!(parse_yes_no("maybe").unwrap_err().kind, ErrorKind::InvalidInput);
}

#[test]
fn init_template_choice() {
    let known = vec!["gtnh-1.7.10".to_string(), "ntmc-1.7.10".to_string()];
    let c = InitCommand { template: Some("ntmc-1.7.10".to_string()) };
    assert_eq!(c.choose_template(&known).unwrap(), "ntmc-1.7.10");
    let c = InitCommand { template: Some("x".to_string()) };
    assert_eq!(c.choose_template(&known).unwrap_err().kind, ErrorKind::Other);
    let c = InitCommand { template: None };
    assert!(c.choose_template(&known).is_err());
    assert_eq!(
        InitCommand::instantiate_manifest("template: INIT_TEMPLATE\nx: INIT_TEMPLATE", "gtnh-1.7.10"),
        "template: gtnh-1.7.10\nx: gtnh-1.7.10"
    );
}

#[test]
fn project_paths() {
    let p = Project::new_root("/home/u/mymod".to_string());
    assert_eq!(p.target_root(), "/home/u/mymod/target");
    assert_eq!(p.source_root(), "/home/u/mymod/src");
    assert_eq!(p.assets_root(), "/home/u/mymod/assets");
    assert_eq!(p.template_marker_path(), "/home/u/mymod/target/.mcmod-template");
    assert_eq!(p.setup_marker_path(), "/home/u/mymod/target/.mcmod-setup");
    assert_eq!(p.build_description_path(), "/home/u/mymod/build.ninja");
    assert_eq!(p.manifest_path(), "/home/u/mymod/mcmod.yaml");
    assert_eq!(p.name(), Some("mymod".to_string()));
}

#[test]
fn source_group_steps() {
    let one_dir = vec![GroupEntry { name: Some("com".to_string()), is_dir: true }];
    assert_eq!(next_group_segment(&one_dir).unwrap(), Some("com".to_string()));
    let one_file = vec![GroupEntry { name: Some("A.java".to_string()), is_dir: false }];
    assert_eq!(next_group_segment(&one_file).unwrap(), None);
    let two = vec![
        GroupEntry { name: Some("a".to_string()), is_dir: true },
        GroupEntry { name: Some("b".to_string()), is_dir: true },
    ];
    assert_eq!(next_group_segment(&two).unwrap(), None);
    let bad = vec![GroupEntry { name: None, is_dir: true }];
    assert_eq!(next_group_segment(&bad).unwrap_err().kind, ErrorKind::InvalidData);
    let mut g = String::new();
    extend_group(&mut g, "com");
    extend_group(&mut g, "example");
    assert_eq!(g, "com.example");
}

#[test]
fn classpath_changes() {
    let c = classpath_change("src/main/java", true);
    assert_eq!(c.path, Some("src".to_string()));
    assert_eq!(c.output, None);
    let c = classpath_change("src/main/resources", false);
    assert_eq!(c.path, Some("target/src/main/resources".to_string()));
    assert_eq!(c.output, Some("bin/assets".to_string()));
    let c = classpath_change("src/main/resources", true);
    assert_eq!(c.path, Some("assets".to_string()));
    let c = classpath_change("lib/x.jar", true);
    assert!(c.path.is_none() && c.output.is_none());
}

#[test]
fn project_name_is_first_top_level_name_text() {
    let mut r = ProjectNameRewriter::new();
    r.on_start(false); // projectDescription
    r.on_start(true); // name
    assert!(r.on_text());
    r.on_end();
    r.on_start(true); // every top-level name is the project's
    assert!(r.on_text());
    r.on_end();
    r.on_start(false); // buildSpec
    r.on_start(true); // nested name
    assert!(!r.on_text());
}
