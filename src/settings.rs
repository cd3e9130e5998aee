use vstd::prelude::*;

use crate::store::KeyedStore;
use crate::text::str_eq;

verus! {

/// The editor's settings.
#[derive(Clone, Debug)]
pub struct EditorSettings {
    pub word_wrap: bool,
    pub auto_save: bool,
    /// Milliseconds between an edit and its automatic save.
    pub auto_save_delay: u32,
    pub format_on_save: bool,
    pub bracket_pair_colorization: bool,
    pub indent_guides: bool,
    pub cursor_blinking: String,
    pub cursor_style: String,
}

/// The settings of one project.
pub struct WorkspaceSettings {
    pub exclude_patterns: Vec<String>,
    pub search_exclude_patterns: Vec<String>,
    /// Language associations, keyed by file pattern.
    pub file_associations: KeyedStore<String>,
}

/// Where a setting came from.
#[derive(Clone, Copy, Debug, PartialEq, Eq, Structural)]
pub enum SettingsSource {
    User,
    Workspace,
    Default,
    FileWatch,
}

/// A setting that failed validation: where it is and what is wrong with it.
#[derive(Clone, Debug)]
pub struct ValidationError {
    pub path: String,
    pub message: String,
}

/// The outcome of validating settings: valid exactly when there are no errors.
#[derive(Clone, Debug)]
pub struct ValidationResult {
    pub valid: bool,
    pub errors: Vec<ValidationError>,
}

/// The delay lies outside 100 to 60000 milliseconds.
pub open spec fn bad_delay(d: u32) -> bool {
    d < 100 || d > 60000
}

pub open spec fn bad_blinking(b: Seq<char>) -> bool {
    !(b == "blink"@ || b == "smooth"@ || b == "phase"@ || b == "expand"@ || b == "solid"@)
}

pub open spec fn bad_style(s: Seq<char>) -> bool {
    !(s == "line"@ || s == "block"@ || s == "underline"@ || s == "line-thin"@ || s
        == "block-outline"@ || s == "underline-thin"@)
}

/// The paths of the editor settings that fail validation, in the order they are checked.
pub open spec fn editor_error_paths(s: EditorSettings) -> Seq<Seq<char>> {
    (if bad_delay(s.auto_save_delay) {
        seq!["editor.autoSaveDelay"@]
    } else {
        Seq::empty()
    }) + (if bad_blinking(s.cursor_blinking@) {
        seq!["editor.cursorBlinking"@]
    } else {
        Seq::empty()
    }) + (if bad_style(s.cursor_style@) {
        seq!["editor.cursorStyle"@]
    } else {
        Seq::empty()
    })
}

pub open spec fn error_paths(e: Seq<ValidationError>) -> Seq<Seq<char>> {
    e.map_values(|v: ValidationError| v.path@)
}

fn push_error(errors: &mut Vec<ValidationError>, path: &str, message: &str)
    ensures
        error_paths(final(errors)@) == error_paths(old(errors)@).push(path@),
{
    errors.push(ValidationError { path: path.to_owned(), message: message.to_owned() });
    proof {
        assert(error_paths(errors@) =~= error_paths(old(errors)@).push(path@));
    }
}

/// Checks the editor settings: the auto-save delay, the cursor's blinking and its style.
pub fn validate_editor_settings(settings: &EditorSettings) -> (r: ValidationResult)
    ensures
        error_paths(r.errors@) == editor_error_paths(*settings),
        r.valid == (r.errors@.len() == 0),
{
    let mut errors: Vec<ValidationError> = Vec::new();
    let ghost s = *settings;
    if settings.auto_save_delay < 100 || settings.auto_save_delay > 60000 {
        push_error(
            &mut errors,
            "editor.autoSaveDelay",
            "Auto save delay must be between 100ms and 60000ms",
        );
    }
    let ghost after_delay = error_paths(errors@);
    let b = settings.cursor_blinking.as_str();
    if !(str_eq(b, "blink") || str_eq(b, "smooth") || str_eq(b, "phase") || str_eq(b, "expand")
        || str_eq(b, "solid")) {
        push_error(
            &mut errors,
            "editor.cursorBlinking",
            "Cursor blinking must be one of: [\"blink\", \"smooth\", \"phase\", \"expand\", \"solid\"]",
        );
    }
    let ghost after_blink = error_paths(errors@);
    let c = settings.cursor_style.as_str();
    if !(str_eq(c, "line") || str_eq(c, "block") || str_eq(c, "underline") || str_eq(
        c,
        "line-thin",
    ) || str_eq(c, "block-outline") || str_eq(c, "underline-thin")) {
        push_error(
            &mut errors,
            "editor.cursorStyle",
            "Cursor style must be one of: [\"line\", \"block\", \"underline\", \"line-thin\", \"block-outline\", \"underline-thin\"]",
        );
    }
    proof {
        let e1: Seq<Seq<char>> = if bad_delay(s.auto_save_delay) {
            seq!["editor.autoSaveDelay"@]
        } else {
            Seq::empty()
        };
        let e2: Seq<Seq<char>> = if bad_blinking(s.cursor_blinking@) {
            seq!["editor.cursorBlinking"@]
        } else {
            Seq::empty()
        };
        let e3: Seq<Seq<char>> = if bad_style(s.cursor_style@) {
            seq!["editor.cursorStyle"@]
        } else {
            Seq::empty()
        };
        assert(after_delay =~= e1);
        assert(after_blink =~= e1 + e2);
        assert(error_paths(errors@) =~= e1 + e2 + e3);
    }
    let valid = errors.len() == 0;
    ValidationResult { valid, errors }
}

} // verus!
