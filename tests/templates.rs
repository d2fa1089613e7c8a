use mcmod::error::ErrorKind;
use mcmod::manifest::{CopySpec, Mcmod, Template};
use mcmod::properties::PropertyMap;
use mcmod::template::{Gtnh1710Handler, Ntmc1710Handler};

fn manifest(template: Template) -> Mcmod {
    Mcmod {
        template,
        name: "My Mod".to_string(),
        modid: "mymod".to_string(),
        description: "desc".to_string(),
        url: String::new(),
        update_url: String::new(),
        authors: Vec::new(),
        credits: String::new(),
        logo: String::new(),
        screenshots: Vec::new(),
        version: String::new(),
        artifact_version: String::new(),
        group: "com.example.mymod".to_string(),
        archives_base_name: "my-mod".to_string(),
        api: String::new(),
        coremod: String::new(),
        access_transformers: vec!["a_at.cfg".to_string(), "b_at.cfg".to_string()],
        mixins: String::new(),
        libs: Vec::new(),
        mods: Vec::new(),
        gradle_overrides: PropertyMap::new(),
        copy_paths: vec![CopySpec::Simple("src".to_string())],
    }
}

fn pairs(m: &PropertyMap) -> Vec<(String, String)> {
    m.entries()
}

fn get(m: &PropertyMap, k: &str) -> String {
    m.get(k).unwrap()
}

#[test]
fn gtnh_properties_without_mixins() {
    let m = manifest(Template::Gtnh1710);
    let p = Gtnh1710Handler.make_gradle_properties(&m).unwrap();
    let keys: Vec<String> = pairs(&p).into_iter().map(|(k, _)| k).collect();
    assert_eq!(
        keys,
        vec![
            "accessTransformersFile",
            "apiPackage",
            "coreModClass",
            "customArchiveBaseName",
            "disableSpotless",
            "generateGradleTokenClass",
            "mixinPlugin",
            "mixinsPackage",
            "modGroup",
            "modId",
            "modName",
            "usesMixins"
        ]
    );
    assert_eq!(get(&p, "accessTransformersFile"), "a_at.cfg b_at.cfg");
    assert_eq!(get(&p, "generateGradleTokenClass"), "com.example.mymod.Tags_GENERATED");
    assert_eq!(get(&p, "usesMixins"), "false");
    assert_eq!(get(&p, "apiPackage"), "");
    assert_eq!(get(&p, "disableSpotless"), "true");
}

#[test]
fn gtnh_properties_with_mixins_and_coremod() {
    let mut m = manifest(Template::Gtnh1710);
    m.mixins = "com.example.mymod.mixin".to_string();
    m.coremod = "com.example.mymod.core.Plugin".to_string();
    m.api = "com.example.mymod.api".to_string();
    let p = Template::Gtnh1710.make_gradle_properties(&m).unwrap();
    assert_eq!(get(&p, "usesMixins"), "true");
    assert_eq!(get(&p, "mixinsPackage"), "mixin");
    assert_eq!(get(&p, "coreModClass"), "core.Plugin");
    assert_eq!(get(&p, "mixinPlugin"), "core.Plugin");
    assert_eq!(get(&p, "apiPackage"), "api");
}

#[test]
fn gtnh_rejects_versions_and_foreign_packages() {
    let mut m = manifest(Template::Gtnh1710);
    m.version = "1.0".to_string();
    assert_eq!(Gtnh1710Handler.make_gradle_properties(&m).unwrap_err().kind, ErrorKind::Other);
    let mut m = manifest(Template::Gtnh1710);
    m.api = "org.other.api".to_string();
    assert!(Gtnh1710Handler.make_gradle_properties(&m).is_err());
    let mut m = manifest(Template::Gtnh1710);
    m.mixins = "com.example.mymod.mixin".to_string();
    assert!(Gtnh1710Handler.make_gradle_properties(&m).is_err());
}

#[test]
fn ntmc_properties() {
    let mut m = manifest(Template::Ntmc1710);
    m.version = "1.2".to_string();
    m.artifact_version = "1.2.0".to_string();
    m.api = "com.example.mymod.api".to_string();
    let p = Ntmc1710Handler.make_gradle_properties(&m).unwrap();
    assert_eq!(p.len(), 10);
    assert_eq!(get(&p, "modApiPattern"), "com/example/mymod/api/**");
    assert_eq!(get(&p, "modGroupInternal"), "com/example/mymod");
    assert_eq!(get(&p, "modVersion"), "1.2");
    assert_eq!(get(&p, "modArtifactVersion"), "1.2.0");
    assert_eq!(get(&p, "modAccessTransformer"), "a_at.cfg b_at.cfg");
    m.api = "com/x/".to_string();
    let p = Ntmc1710Handler.make_gradle_properties(&m).unwrap();
    assert_eq!(get(&p, "modApiPattern"), "com/x/**");
}

#[test]
fn ntmc_rejects_mixins() {
    let mut m = manifest(Template::Ntmc1710);
    m.mixins = "x".to_string();
    assert_eq!(Ntmc1710Handler.make_gradle_properties(&m).unwrap_err().kind, ErrorKind::Other);
}

#[test]
fn java_versions() {
    assert_eq!(Gtnh1710Handler.java_version(&vec!["runClient17".to_string()]), 17);
    assert_eq!(Gtnh1710Handler.java_version(&vec!["runClient".to_string()]), 8);
    assert_eq!(Gtnh1710Handler.java_version(&Vec::new()), 8);
    assert_eq!(Ntmc1710Handler.java_version(&vec!["x17".to_string()]), 8);
    assert_eq!(Gtnh1710Handler.mcmod_version_key(), "modVersion");
    assert_eq!(Ntmc1710Handler.mc_version(), "1.7.10");
}

#[test]
fn template_names_and_dirs() {
    assert_eq!(Template::Gtnh1710.to_string(), "gtnh-1.7.10");
    assert_eq!(Template::from_name("ntmc-1.7.10"), Some(Template::Ntmc1710));
    assert_eq!(Template::from_name("other"), None);
    assert_eq!(Template::Ntmc1710.libs_dir("/p/target"), "/p/target/libs");
    assert_eq!(Template::Ntmc1710.run_dir("/p/target"), "/p/target/run");
    assert_eq!(Template::Gtnh1710.output_dir("/p/target"), "/p/target/build/libs");
}

#[test]
fn manifest_defaults() {
    let mut m = manifest(Template::Ntmc1710);
    m.url = "https://x".to_string();
    m.version = "3".to_string();
    m.group = String::new();
    m.archives_base_name = String::new();
    assert!(m.needs_source_group());
    m.apply_defaults("com.found");
    assert_eq!(m.update_url, "https://x");
    assert_eq!(m.artifact_version, "3");
    assert_eq!(m.group, "com.found");
    assert_eq!(m.archives_base_name, "My-Mod");
    assert!(!m.needs_source_group());
}
