use bitchy::error::BitchYError;
use bitchy::plugin::manager::{PluginInfo, PluginManager};

fn info(name: &str) -> PluginInfo {
    PluginInfo {
        name: name.to_string(),
        version: "1.0".to_string(),
        description: format!("the {name} plugin"),
        path: format!("/p/{name}.so"),
    }
}

#[test]
fn create_plugin_manager() {
    let pm = PluginManager::new("/tmp/plugins".to_string());
    assert!(pm.list().is_empty());
    assert_eq!(pm.plugin_dir(), "/tmp/plugins");
    assert_eq!(pm.count(), 0);
}

#[test]
fn list_empty_plugins() {
    let pm = PluginManager::new("/tmp/plugins".to_string());
    assert!(pm.list().is_empty());
}

#[test]
fn plugin_directory_accessor() {
    let pm = PluginManager::new("/opt/bitchy/plugins".to_string());
    assert_eq!(pm.plugin_dir(), "/opt/bitchy/plugins");
}

#[test]
fn is_loaded_returns_false_for_unknown_plugin() {
    let pm = PluginManager::new("/tmp/plugins".to_string());
    assert!(!pm.is_loaded("nonexistent"));
}

#[test]
fn unload_nonexistent_plugin_returns_error() {
    let mut pm = PluginManager::new("/tmp/plugins".to_string());
    let result = pm.unload("nothing");
    assert!(result.is_err());
    assert!(matches!(result, Err(BitchYError::Plugin(ref t)) if t == "Plugin 'nothing' is not loaded"));
}

#[test]
fn count_returns_zero_initially() {
    let pm = PluginManager::new("/tmp/plugins".to_string());
    assert_eq!(pm.count(), 0);
}

#[test]
fn plugin_dir_matches_constructor() {
    let pm = PluginManager::new("/home/user/.bitchy/plugins".to_string());
    assert_eq!(pm.plugin_dir(), "/home/user/.bitchy/plugins");
}

#[test]
fn loaded_plugins_are_listed_once() {
    let mut pm = PluginManager::new("/p".to_string());
    assert!(pm.may_load("hello").is_ok());
    pm.register(info("hello"));
    pm.register(info("greet"));
    assert!(pm.is_loaded("hello"));
    assert_eq!(pm.count(), 2);
    assert_eq!(
        pm.list(),
        vec![
            ("hello", "1.0", "the hello plugin", "/p/hello.so"),
            ("greet", "1.0", "the greet plugin", "/p/greet.so"),
        ]
    );
    assert!(matches!(pm.may_load("hello"), Err(BitchYError::Plugin(ref t)) if t == "Plugin 'hello' is already loaded"));
}

#[test]
fn unloading_gives_back_the_plugin() {
    let mut pm = PluginManager::new("/p".to_string());
    pm.register(info("hello"));
    let p = pm.unload("hello").unwrap();
    assert_eq!(p.name, "hello");
    assert_eq!(p.path, "/p/hello.so");
    assert!(!pm.is_loaded("hello"));
    assert_eq!(pm.count(), 0);
    assert!(pm.may_load("hello").is_ok());
}
