use bitchy::scripting::engine::{ScriptEngine, ScriptResult};
#[test]
fn add_and_retrieve_alias() {
    let mut engine = ScriptEngine::new();
    engine.add_alias("j", "/join $*");
    let aliases = engine.list_aliases();
    assert_eq!(aliases.len(), 1);
    assert_eq!(aliases[0].name, "j");
    assert_eq!(aliases[0].expansion, "/join $*");
}

#[test]
fn alias_lookup_is_case_insensitive() {
    let mut engine = ScriptEngine::new();
    engine.add_alias("Hello", "/say hi");
    let result = engine.process("/hello", None);
    assert_eq!(result, ScriptResult::RawCommand("SAY hi".into()));
}

#[test]
fn remove_alias() {
    let mut engine = ScriptEngine::new();
    engine.add_alias("j", "/join $*");
    assert!(engine.remove_alias("j"));
    assert!(engine.list_aliases().is_empty());
}

#[test]
fn remove_nonexistent_alias() {
    let mut engine = ScriptEngine::new();
    assert!(!engine.remove_alias("nope"));
}

#[test]
fn variable_expansion() {
    let mut engine = ScriptEngine::new();
    engine.set_var("nick", "BitchY");
    engine.set_var("channel", "#rust");
    let result = engine.process("Hello $nick in $channel", None);
    assert_eq!(
        result,
        ScriptResult::Message("Hello BitchY in #rust".into())
    );
}

#[test]
fn get_variable() {
    let mut engine = ScriptEngine::new();
    engine.set_var("foo", "bar");
    assert_eq!(engine.get_var("foo"), Some("bar"));
    assert_eq!(engine.get_var("missing"), None);
}

#[test]
fn unknown_variable_preserved() {
    let engine = ScriptEngine::new();
    let result = engine.process("Hello $unknown", None);
    assert_eq!(result, ScriptResult::Message("Hello $unknown".into()));
}

#[test]
fn process_alias_expansion() {
    let mut engine = ScriptEngine::new();
    engine.add_alias("j", "/join $*");
    let result = engine.process("/j #rust", None);
    assert_eq!(result, ScriptResult::RawCommand("JOIN #rust".into()));
}

#[test]
fn process_alias_with_target() {
    let mut engine = ScriptEngine::new();
    engine.add_alias("k", "/kick $target $*");
    let result = engine.process("/k baduser", Some("#channel"));
    assert_eq!(
        result,
        ScriptResult::RawCommand("KICK #channel baduser".into())
    );
}

#[test]
fn process_regular_message() {
    let engine = ScriptEngine::new();
    let result = engine.process("hello world", None);
    assert_eq!(result, ScriptResult::Message("hello world".into()));
}

#[test]
fn process_raw_command() {
    let engine = ScriptEngine::new();
    let result = engine.process("/join #rust", None);
    assert_eq!(result, ScriptResult::RawCommand("JOIN #rust".into()));
}

#[test]
fn process_command_no_args() {
    let engine = ScriptEngine::new();
    let result = engine.process("/quit", None);
    assert_eq!(result, ScriptResult::RawCommand("QUIT".into()));
}

#[test]
fn process_empty_input() {
    let engine = ScriptEngine::new();
    let result = engine.process("", None);
    assert_eq!(result, ScriptResult::Nothing);
}

#[test]
fn multiple_command_expansion_via_semicolons() {
    let engine = ScriptEngine::new();
    let result = engine.process("/join #a; /join #b", None);
    assert_eq!(
        result,
        ScriptResult::Multiple(vec![
            ScriptResult::RawCommand("JOIN #a".into()),
            ScriptResult::RawCommand("JOIN #b".into()),
        ])
    );
}

#[test]
fn nested_variable_expansion_in_alias() {
    let mut engine = ScriptEngine::new();
    engine.set_var("chan", "#rust");
    engine.add_alias("jc", "/join $chan");
    let result = engine.process("/jc", None);
    assert_eq!(result, ScriptResult::RawCommand("JOIN #rust".into()));
}

#[test]
fn register_defaults_creates_aliases() {
    let mut engine = ScriptEngine::new();
    engine.register_defaults();
    let aliases = engine.list_aliases();
    assert!(aliases.len() >= 7);
    let names: Vec<&str> = aliases.iter().map(|a| a.name.as_str()).collect();
    assert!(names.contains(&"j"));
    assert!(names.contains(&"l"));
    assert!(names.contains(&"m"));
    assert!(names.contains(&"q"));
}

#[test]
fn positional_arg_expansion() {
    let mut engine = ScriptEngine::new();
    engine.add_alias("wii", "/whois $0 $0");
    let result = engine.process("/wii someone", None);
    assert_eq!(
        result,
        ScriptResult::RawCommand("WHOIS someone someone".into())
    );
}

#[test]
fn default_trait() {
    let engine = ScriptEngine::default();
    assert!(engine.list_aliases().is_empty());
    assert_eq!(engine.get_var("anything"), None);
}

#[test]
fn variable_set_overwrite() {
    let mut engine = ScriptEngine::new();
    engine.set_var("key", "val1");
    assert_eq!(engine.get_var("key"), Some("val1"));
    engine.set_var("key", "val2");
    assert_eq!(engine.get_var("key"), Some("val2"));
}

#[test]
fn bounded_processing_matches_process() {
    let mut engine = ScriptEngine::new();
    engine.add_alias("j", "/join $*");
    let bounded = engine.process_bounded("/j #rust", Some("#rust"), 8);
    assert_eq!(bounded, Some(ScriptResult::RawCommand("JOIN #rust".into())));
    assert_eq!(engine.process("/j #rust", Some("#rust")), ScriptResult::RawCommand("JOIN #rust".into()));
}

#[test]
fn bounded_processing_stops_a_looping_alias() {
    let mut engine = ScriptEngine::new();
    engine.add_alias("again", "/again");
    assert_eq!(engine.process_bounded("/again", None, 64), None);
}

#[test]
fn bounded_processing_runs_out_of_depth() {
    let mut engine = ScriptEngine::new();
    engine.add_alias("j", "/join $*");
    assert_eq!(engine.process_bounded("/j #a", None, 1), None);
    assert_eq!(engine.process_bounded("hello", None, 0), None);
    assert_eq!(engine.process_bounded("hello", None, 1), Some(ScriptResult::Message("hello".into())));
}
