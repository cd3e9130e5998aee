use code_terminal::audio_cache::AudioCache;
use code_terminal::workspace::{add_recent_workspace, remove_recent_workspace, RecentWorkspace};
use code_terminal::keybindings::{format_keybinding, ChordPart};
use code_terminal::api_keys::ApiKeyStore;
use code_terminal::keybindings::{
    evaluate_when_clause, normalize_key_combo, normalize_platform_modifiers, Modifier,
};
use code_terminal::proxy_config::ProxyConfig;
use code_terminal::settings::{validate_editor_settings, EditorSettings};
use code_terminal::terminal::shell::Platform;
use code_terminal::workspace::default_panels_state;

#[test]
fn key_combo_is_canonical() {
    assert_eq!(
        normalize_key_combo(&[Modifier::Shift, Modifier::Ctrl], "P"),
        "ctrl+shift+p"
    );
    assert_eq!(normalize_key_combo(&[], "Enter"), "enter");
    assert_eq!(
        normalize_key_combo(&[Modifier::Meta, Modifier::Alt], "k"),
        "alt+meta+k"
    );
}

#[test]
fn platform_modifiers() {
    assert_eq!(
        normalize_platform_modifiers(Platform::MacOs, vec![Modifier::Ctrl, Modifier::Shift]),
        vec![Modifier::Meta, Modifier::Shift]
    );
    assert_eq!(
        normalize_platform_modifiers(Platform::Linux, vec![Modifier::Meta, Modifier::Alt]),
        vec![Modifier::Ctrl, Modifier::Alt]
    );
}

#[test]
fn when_clauses() {
    assert!(evaluate_when_clause("editorFocus", "editorFocus"));
    assert!(!evaluate_when_clause("!editorFocus", "editorFocus"));
    assert!(evaluate_when_clause("editorFocus && sidebarVisible", "editorFocus sidebarVisible"));
    assert!(!evaluate_when_clause("editorFocus && terminalFocus", "editorFocus"));
    assert!(evaluate_when_clause("editorFocus && !terminalFocus", "editorFocus"));
}

#[test]
fn api_key_store() {
    let mut s = ApiKeyStore::new();
    assert!(!s.has_key("openai"));
    s.set_key("openai", "sk-1".to_string());
    assert_eq!(s.get_key("openai"), Some("sk-1".to_string()));
    s.set_key("openai", "sk-2".to_string());
    assert_eq!(s.get_key("openai"), Some("sk-2".to_string()));
    s.remove_key("openai");
    assert_eq!(s.get_key("openai"), None);
}

#[test]
fn proxy_urls() {
    let direct = ProxyConfig { enabled: false, base_url: "https://p.example/api".to_string() };
    assert_eq!(direct.get_openai_url(), "https://api.openai.com/v1/chat/completions");
    assert_eq!(direct.get_openai_models_url(), "https://api.openai.com/v1/models");
    let proxied = ProxyConfig { enabled: true, base_url: "https://p.example/api".to_string() };
    assert_eq!(proxied.get_openai_url(), "https://p.example/api/openai/v1/chat/completions");
    assert_eq!(proxied.get_openai_models_url(), "https://p.example/api/openai/v1/models");
}

fn editor(delay: u32, blinking: &str, style: &str) -> EditorSettings {
    EditorSettings {
        word_wrap: false,
        auto_save: true,
        auto_save_delay: delay,
        format_on_save: false,
        bracket_pair_colorization: true,
        indent_guides: true,
        cursor_blinking: blinking.to_string(),
        cursor_style: style.to_string(),
    }
}

#[test]
fn editor_validation() {
    let ok = validate_editor_settings(&editor(1000, "blink", "line"));
    assert!(ok.valid);
    assert!(ok.errors.is_empty());
    let bad = validate_editor_settings(&editor(50, "wobble", "box"));
    assert!(!bad.valid);
    let paths: Vec<&str> = bad.errors.iter().map(|e| e.path.as_str()).collect();
    assert_eq!(paths, vec!["editor.autoSaveDelay", "editor.cursorBlinking", "editor.cursorStyle"]);
    assert_eq!(bad.errors[0].message, "Auto save delay must be between 100ms and 60000ms");
    let high = validate_editor_settings(&editor(60001, "solid", "underline-thin"));
    assert_eq!(high.errors.len(), 1);
}

#[test]
fn default_panels() {
    let p = default_panels_state();
    assert!(p.sidebar.visible);
    assert_eq!(p.sidebar.width, Some(256));
    assert!(!p.terminal.visible);
    assert_eq!(p.terminal.height, Some(300));
    assert_eq!(p.ai_panel.width, Some(400));
    assert_eq!(p.bottom_panel_tab, "problems");
}

#[test]
fn keybinding_display() {
    assert_eq!(
        format_keybinding(Platform::Linux, &[Modifier::Ctrl, Modifier::Shift], "P", None),
        "Ctrl+Shift+P"
    );
    assert_eq!(format_keybinding(Platform::Windows, &[Modifier::Meta], "E", None), "Win+E");
    assert_eq!(format_keybinding(Platform::MacOs, &[Modifier::Meta], "E", None), "\u{2318}+E");
    let chord = ChordPart { key: "O".to_string(), modifiers: vec![Modifier::Ctrl] };
    assert_eq!(
        format_keybinding(Platform::Linux, &[Modifier::Ctrl], "K", Some(&chord)),
        "Ctrl+K Ctrl+O"
    );
    assert_eq!(format_keybinding(Platform::Linux, &[], "F5", None), "F5");
}

fn recent(path: &str) -> RecentWorkspace {
    RecentWorkspace { path: path.to_string(), name: path.to_string(), last_opened: 1 }
}

#[test]
fn recent_workspaces_move_to_front() {
    let mut list = vec![recent("/a"), recent("/b"), recent("/c")];
    let mut last = None;
    add_recent_workspace(&mut list, &mut last, "/home/u/b", 99);
    assert_eq!(list[0].path, "/home/u/b");
    assert_eq!(list[0].name, "b");
    assert_eq!(list[0].last_opened, 99);
    assert_eq!(list.len(), 4);
    add_recent_workspace(&mut list, &mut last, "/a", 100);
    let paths: Vec<&str> = list.iter().map(|w| w.path.as_str()).collect();
    assert_eq!(paths, vec!["/a", "/home/u/b", "/b", "/c"]);
    assert_eq!(last.as_deref(), Some("/a"));
}

#[test]
fn recent_workspaces_are_capped() {
    let mut list: Vec<RecentWorkspace> = (0..10).map(|i| recent(&format!("/p{}", i))).collect();
    let mut last = None;
    add_recent_workspace(&mut list, &mut last, "/new", 5);
    assert_eq!(list.len(), 10);
    assert_eq!(list[0].path, "/new");
    assert_eq!(list[9].path, "/p8");
}

#[test]
fn removing_the_last_workspace() {
    let mut list = vec![recent("/a"), recent("/b")];
    let mut last = Some("/a".to_string());
    remove_recent_workspace(&mut list, &mut last, "/a");
    assert_eq!(list.len(), 1);
    assert_eq!(last.as_deref(), Some("/b"));
    remove_recent_workspace(&mut list, &mut last, "/zzz");
    assert_eq!(last.as_deref(), Some("/b"));
    remove_recent_workspace(&mut list, &mut last, "/b");
    assert!(list.is_empty());
    assert_eq!(last, None);
}

#[test]
fn audio_cache_expires_and_evicts() {
    let hour: u64 = 3_600_000;
    let mut c = AudioCache::new(2, 1);
    c.cache_audio("a".to_string(), vec![1, 2], 0);
    assert_eq!(c.get_cached_audio("a", hour - 1), Some(vec![1, 2]));
    assert_eq!(c.get_cached_audio("a", hour), None);
    assert_eq!(c.get_cached_audio("b", 0), None);
    c.cache_audio("b".to_string(), vec![3], hour / 2);
    assert_eq!(c.len(), 2);
    // Full: "a" has expired and goes, "b" is still fresh and stays.
    c.cache_audio("c".to_string(), vec![4], hour + 1);
    assert_eq!(c.len(), 2);
    assert_eq!(c.get_cached_audio("a", hour + 1), None);
    assert_eq!(c.get_cached_audio("b", hour + 1), Some(vec![3]));
    assert_eq!(c.get_cached_audio("c", hour + 1), Some(vec![4]));
}
