use fae::registry::Registry;
use fae::registry::ScriptDef;

fn plain_def(run: &str) -> ScriptDef {
    ScriptDef {
        uses: Vec::new(),
        run: Some(run.to_string()),
        show_stdout: true,
        show_stderr: true,
        cacheable: true,
    }
}

#[test]
fn config_file_definition_wins() {
    let mut manifest = Registry::new();
    manifest.insert("build".to_string(), plain_def("manifest-build"));
    let mut config = Registry::new();
    config.insert("build".to_string(), plain_def("config-build"));
    manifest.extend(config);
    let found = manifest.lookup(&"build".to_string()).expect("build must resolve");
    assert_eq!(found.run.as_deref(), Some("config-build"));
}

#[test]
fn merge_keeps_unshadowed_entries() {
    let mut base = Registry::new();
    base.insert("a".to_string(), plain_def("run-a"));
    let mut overlay = Registry::new();
    overlay.insert("b".to_string(), plain_def("run-b"));
    base.extend(overlay);
    assert_eq!(base.lookup(&"a".to_string()).unwrap().run.as_deref(), Some("run-a"));
    assert_eq!(base.lookup(&"b".to_string()).unwrap().run.as_deref(), Some("run-b"));
}

#[test]
fn lookup_absent_name_is_none() {
    let registry = Registry::new();
    assert!(registry.lookup(&"missing".to_string()).is_none());
}

#[test]
fn later_insert_shadows_earlier() {
    let mut registry = Registry::new();
    registry.insert("x".to_string(), plain_def("first"));
    registry.insert("x".to_string(), plain_def("second"));
    assert_eq!(registry.lookup(&"x".to_string()).unwrap().run.as_deref(), Some("second"));
}
