//! The Codex TUI settings the preview reader follows: its syntax theme and
//! whether it colours with the theme.
use crate::cli::{parent_dir, parent_of};
use crate::text::{chars_of, push_str, string_of, trim, trim_chars};
use vstd::prelude::*;

verus! {

/// The `[tui]` table of a Codex `config.toml`, as far as it was read.
#[derive(Debug, Clone, PartialEq, Eq)]
pub struct CodexTuiToml {
    pub theme: Option<String>,
    pub status_line_use_colors: Option<bool>,
}

#[derive(Debug, Clone, PartialEq, Eq)]
pub struct CodexTuiSettings {
    pub theme: Option<String>,
    pub status_line_use_colors: bool,
}

#[derive(Debug, Clone, PartialEq, Eq)]
pub struct CodexSettings {
    pub codex_home: Option<String>,
    pub tui: CodexTuiSettings,
}

#[derive(Debug, Clone, PartialEq, Eq)]
pub struct CodexMarkdownRenderSettings {
    pub theme: Option<String>,
    pub use_theme_colors: bool,
}

pub open spec fn opt_view(o: Option<String>) -> Option<Seq<char>> {
    match o {
        Some(s) => Some(s@),
        None => None,
    }
}

/// `value` trimmed, unless that leaves nothing.
pub open spec fn non_empty_trimmed_of(value: Seq<char>) -> Option<Seq<char>> {
    if trim(value).len() == 0 {
        None
    } else {
        Some(trim(value))
    }
}

pub fn non_empty_trimmed(value: &str) -> (r: Option<String>)
    ensures
        opt_view(r) == non_empty_trimmed_of(value@),
{
    let v = chars_of(value);
    let t = trim_chars(v.as_slice());
    if t.len() == 0 {
        None
    } else {
        Some(string_of(t.as_slice()))
    }
}

/// `r` is what a `[tui]` table read as `tui` gives (the defaults for none).
pub open spec fn tui_settings_of(r: CodexTuiSettings, tui: Option<CodexTuiToml>) -> bool {
    match tui {
        Some(t) => opt_view(r.theme) == match t.theme {
            Some(th) => non_empty_trimmed_of(th@),
            None => None,
        } && r.status_line_use_colors == match t.status_line_use_colors {
            Some(b) => b,
            None => true,
        },
        None => r.theme is None && r.status_line_use_colors,
    }
}

impl Default for CodexTuiSettings {
    /// No theme, colours on: what Codex does without a `[tui]` table.
    fn default() -> (r: Self)
        ensures
            r.theme is None,
            r.status_line_use_colors,
    {
        CodexTuiSettings { theme: None, status_line_use_colors: true }
    }
}

impl CodexTuiSettings {
    /// The settings a `[tui]` table gives: the theme trimmed (a blank one is
    /// no theme), colours on unless switched off.
    pub fn from_toml(tui: &CodexTuiToml) -> (r: Self)
        ensures
            opt_view(r.theme) == match tui.theme {
                Some(t) => non_empty_trimmed_of(t@),
                None => None,
            },
            r.status_line_use_colors == match tui.status_line_use_colors {
                Some(b) => b,
                None => true,
            },
    {
        let theme = match &tui.theme {
            Some(t) => non_empty_trimmed(t.as_str()),
            None => None,
        };
        let colors = match tui.status_line_use_colors {
            Some(b) => b,
            None => true,
        };
        CodexTuiSettings { theme, status_line_use_colors: colors }
    }

    /// The settings of a config whose `[tui]` table was read as `tui`; a
    /// config that is missing, unreadable, or has no such table gives the
    /// defaults.
    pub fn from_config(tui: &Option<CodexTuiToml>) -> (r: Self)
        ensures
            tui_settings_of(r, *tui),
    {
        match tui {
            Some(t) => Self::from_toml(t),
            None => Self::default(),
        }
    }
}

impl CodexSettings {
    /// The settings read from the config file at `path`: its directory is
    /// the Codex home.
    pub fn from_config_path(path: &str, tui: &Option<CodexTuiToml>) -> (r: Self)
        ensures
            opt_view(r.codex_home) == parent_dir(path@),
            tui_settings_of(r.tui, *tui),
    {
        CodexSettings { codex_home: parent_of(path), tui: CodexTuiSettings::from_config(tui) }
    }

    /// The settings of a Codex home: its `config.toml` (whose `[tui]` table
    /// was read as `tui`), or the defaults when there is no home.
    pub fn from_codex_home(codex_home: Option<String>, tui: &Option<CodexTuiToml>) -> (r: Self)
        ensures
            opt_view(r.codex_home) == opt_view(codex_home),
            codex_home is None ==> tui_settings_of(r.tui, None),
            codex_home is Some ==> tui_settings_of(r.tui, *tui),
    {
        let t = match &codex_home {
            Some(_) => CodexTuiSettings::from_config(tui),
            None => CodexTuiSettings::default(),
        };
        CodexSettings { codex_home, tui: t }
    }

    /// What the markdown renderer takes from the TUI settings.
    pub fn markdown_render_settings(&self) -> (r: CodexMarkdownRenderSettings)
        ensures
            opt_view(r.theme) == opt_view(self.tui.theme),
            r.use_theme_colors == self.tui.status_line_use_colors,
    {
        CodexMarkdownRenderSettings {
            theme: match &self.tui.theme {
                Some(t) => Some(t.clone()),
                None => None,
            },
            use_theme_colors: self.tui.status_line_use_colors,
        }
    }
}

/// `<codex home>/config.toml`.
pub fn config_path(codex_home: &str) -> (r: String)
    ensures
        r@ == codex_home@ + "/config.toml"@,
{
    let mut v = chars_of(codex_home);
    push_str(&mut v, "/config.toml");
    string_of(v.as_slice())
}

} // verus!
