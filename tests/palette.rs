use code_terminal::palette::defaults::{cmd, file_commands, get_default_commands};
use code_terminal::palette::registry::{context_matches, CommandRegistry};
use code_terminal::palette::types::{CommandCategory, CommandSource, SearchOptions};
use code_terminal::store::KeyedStore;

fn registry_with_defaults() -> CommandRegistry {
    let mut r = CommandRegistry::new();
    assert!(r.register_many(get_default_commands()).is_ok());
    r
}

#[test]
fn defaults_are_all_registered() {
    let all = get_default_commands();
    assert_eq!(all.len(), 154);
    let r = registry_with_defaults();
    assert_eq!(r.count(), 154);
    assert_eq!(file_commands().len(), 15);
}

#[test]
fn register_refuses_duplicate_ids() {
    let mut r = CommandRegistry::new();
    assert!(r.register(cmd("a.b", "Ab", CommandCategory::File, None)).is_ok());
    let err = r.register(cmd("a.b", "Other", CommandCategory::Edit, None)).unwrap_err();
    assert_eq!(err, "Command 'a.b' already registered");
    assert_eq!(r.get("a.b").unwrap().label, "Ab");
}

#[test]
fn register_many_keeps_the_first() {
    let mut r = CommandRegistry::new();
    r.register_many(vec![
        cmd("x", "First", CommandCategory::File, None),
        cmd("x", "Second", CommandCategory::File, None),
    ])
    .unwrap();
    assert_eq!(r.count(), 1);
    assert_eq!(r.get("x").unwrap().label, "First");
}

#[test]
fn unregister_and_by_source() {
    let mut r = registry_with_defaults();
    assert_eq!(r.unregister("file.save"), Ok(true));
    assert_eq!(r.unregister("file.save"), Ok(false));
    let mut plugin = cmd("p.one", "Plugin One", CommandCategory::Custom, None);
    plugin.source = CommandSource::Plugin;
    r.register(plugin).unwrap();
    assert_eq!(r.unregister_by_source(CommandSource::Plugin), Ok(1));
    assert_eq!(r.unregister_by_source(CommandSource::Builtin), Ok(153));
    assert_eq!(r.count(), 0);
}

#[test]
fn set_enabled_and_update() {
    let mut r = registry_with_defaults();
    assert_eq!(r.set_enabled("file.save", false), Ok(true));
    assert!(!r.get("file.save").unwrap().enabled);
    assert_eq!(r.set_enabled("nope", false), Ok(false));
    assert_eq!(r.update("file.save", Some("Store".to_string()), Some("keep it".to_string())), Ok(true));
    let c = r.get("file.save").unwrap();
    assert_eq!(c.label, "Store");
    assert_eq!(c.description.as_deref(), Some("keep it"));
}

#[test]
fn by_category_and_all() {
    let r = registry_with_defaults();
    assert_eq!(r.get_all().len(), 154);
    let files = r.get_by_category(CommandCategory::File);
    assert_eq!(files.len(), 15);
    assert!(files.iter().all(|c| c.category == CommandCategory::File));
}

#[test]
fn search_ranks_and_limits() {
    let r = registry_with_defaults();
    let mut keys = KeyedStore::new();
    keys.insert("file.save".to_string(), "Ctrl+S".to_string());
    let results = r.search("save", SearchOptions::default(), &keys);
    assert!(!results.is_empty());
    for w in results.windows(2) {
        assert!(w[0].score >= w[1].score);
    }
    let save = results.iter().find(|x| x.command.command.id == "file.save").unwrap();
    assert_eq!(save.command.keybinding.as_deref(), Some("Ctrl+S"));
    let limited = r.search(
        "save",
        SearchOptions { limit: Some(2), ..SearchOptions::default() },
        &keys,
    );
    assert_eq!(limited.len(), 2);
    assert_eq!(limited[0].score, results[0].score);
}

#[test]
fn search_filters_disabled_and_category() {
    let mut r = registry_with_defaults();
    r.set_enabled("file.save", false).unwrap();
    let keys = KeyedStore::new();
    let results = r.search("save", SearchOptions::default(), &keys);
    assert!(results.iter().all(|x| x.command.command.id != "file.save"));
    let with_disabled = r.search(
        "save",
        SearchOptions { include_disabled: true, ..SearchOptions::default() },
        &keys,
    );
    assert!(with_disabled.iter().any(|x| x.command.command.id == "file.save"));
    let only_git = r.search(
        "",
        SearchOptions { category: Some(CommandCategory::Git), ..SearchOptions::default() },
        &keys,
    );
    assert_eq!(only_git.len(), 21);
}

#[test]
fn context_matching() {
    assert!(context_matches("editorFocus", "editorFocus sidebarVisible"));
    assert!(context_matches("*", "anything"));
    assert!(!context_matches("terminalFocus", "editorFocus"));
}

#[test]
fn category_labels() {
    assert_eq!(CommandCategory::Ai.label(), "AI");
    assert_eq!(CommandCategory::File.label(), "File");
}
