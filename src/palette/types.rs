use vstd::prelude::*;

verus! {

/// The groups that commands are shown in.
#[derive(Clone, Copy, Debug, PartialEq, Eq, Hash, Structural)]
pub enum CommandCategory {
    File,
    Edit,
    Selection,
    View,
    Go,
    Run,
    Terminal,
    Git,
    Ai,
    Settings,
    Help,
    Custom,
}

/// The name shown for a category.
pub open spec fn category_label(c: CommandCategory) -> Seq<char> {
    match c {
        CommandCategory::File => "File"@,
        CommandCategory::Edit => "Edit"@,
        CommandCategory::Selection => "Selection"@,
        CommandCategory::View => "View"@,
        CommandCategory::Go => "Go"@,
        CommandCategory::Run => "Run"@,
        CommandCategory::Terminal => "Terminal"@,
        CommandCategory::Git => "Git"@,
        CommandCategory::Ai => "AI"@,
        CommandCategory::Settings => "Settings"@,
        CommandCategory::Help => "Help"@,
        CommandCategory::Custom => "Custom"@,
    }
}

impl CommandCategory {
    /// The name shown for this category.
    pub fn label(&self) -> (r: &'static str)
        ensures
            r@ == category_label(*self),
    {
        match self {
            CommandCategory::File => "File",
            CommandCategory::Edit => "Edit",
            CommandCategory::Selection => "Selection",
            CommandCategory::View => "View",
            CommandCategory::Go => "Go",
            CommandCategory::Run => "Run",
            CommandCategory::Terminal => "Terminal",
            CommandCategory::Git => "Git",
            CommandCategory::Ai => "AI",
            CommandCategory::Settings => "Settings",
            CommandCategory::Help => "Help",
            CommandCategory::Custom => "Custom",
        }
    }
}

/// Who registered a command.
#[derive(Clone, Copy, Debug, PartialEq, Eq, Structural)]
pub enum CommandSource {
    Builtin,
    Plugin,
    User,
}

/// A command of the palette.
#[derive(Clone, Debug)]
pub struct Command {
    /// Unique identifier, such as "file.save".
    pub id: String,
    /// The label shown in the palette.
    pub label: String,
    pub description: Option<String>,
    pub category: CommandCategory,
    pub source: CommandSource,
    /// The context in which the command is available.
    pub when: Option<String>,
    pub icon: Option<String>,
    pub enabled: bool,
}

pub open spec fn opt_string_view(s: Option<String>) -> Option<Seq<char>> {
    match s {
        Some(v) => Some(v@),
        None => None,
    }
}

/// Two commands that hold the same text and settings.
pub open spec fn same_command(a: Command, b: Command) -> bool {
    &&& a.id@ == b.id@
    &&& a.label@ == b.label@
    &&& opt_string_view(a.description) == opt_string_view(b.description)
    &&& a.category == b.category
    &&& a.source == b.source
    &&& opt_string_view(a.when) == opt_string_view(b.when)
    &&& opt_string_view(a.icon) == opt_string_view(b.icon)
    &&& a.enabled == b.enabled
}

pub fn copy_opt_string(s: &Option<String>) -> (r: Option<String>)
    ensures
        opt_string_view(r) == opt_string_view(*s),
{
    match s {
        Some(v) => Some(v.clone()),
        None => None,
    }
}

impl Command {
    /// A copy of this command.
    pub fn copy(&self) -> (r: Command)
        ensures
            same_command(r, *self),
    {
        Command {
            id: self.id.clone(),
            label: self.label.clone(),
            description: copy_opt_string(&self.description),
            category: self.category,
            source: self.source,
            when: copy_opt_string(&self.when),
            icon: copy_opt_string(&self.icon),
            enabled: self.enabled,
        }
    }
}

/// Where a command record leaves `enabled` out, it is enabled.
pub fn default_true() -> (r: bool)
    ensures
        r,
{
    true
}

/// A command with the keybinding shown beside it, such as "Ctrl+S".
#[derive(Clone, Debug)]
pub struct CommandWithKeybinding {
    pub command: Command,
    pub keybinding: Option<String>,
}

/// A command that matched a search, with its score and the positions to highlight.
#[derive(Clone, Debug)]
pub struct CommandSearchResult {
    pub command: CommandWithKeybinding,
    pub score: i32,
    pub matched_indices: Vec<usize>,
}

/// What a search is narrowed to.
#[derive(Clone, Debug)]
pub struct SearchOptions {
    pub category: Option<CommandCategory>,
    pub source: Option<CommandSource>,
    /// The largest number of results.
    pub limit: Option<usize>,
    pub include_disabled: bool,
    /// The current context, matched against each command's `when`.
    pub context: Option<String>,
}

impl Default for SearchOptions {
    fn default() -> (r: SearchOptions)
        ensures
            r.category is None,
            r.source is None,
            r.limit is None,
            !r.include_disabled,
            r.context is None,
    {
        SearchOptions {
            category: None,
            source: None,
            limit: None,
            include_disabled: false,
            context: None,
        }
    }
}

} // verus!
