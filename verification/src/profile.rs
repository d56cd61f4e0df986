//! The effective profile: the global profile layered under the repo-local one.
use crate::text::{chars_of, push_str, string_of, trim_end};
use vstd::prelude::*;

verus! {

pub const GLOBAL_PROFILE_FILE: &'static str = "profile.md";

pub const GLOBAL_PROFILE_TEMPLATE: &'static str = "# Global Profile\n\n이 기기에서 모든 repo의 LEAF 작업에 적용할 내용만 적는다. 한 repo에만\n해당하는 내용은 그 repo의 .leaf/PROFILE.md에 둔다. 충돌하면 repo-local\nPROFILE이 이긴다.\n\n## User Language\n\n- 미정\n\n## Settled\n\n## Provisional\n";

pub const EFFECTIVE_HEADER: &'static str = "# Effective Profile\n\n충돌 시 local(.leaf/PROFILE.md)이 global보다 우선한다. PROFILE은\nleaf-soul을 부정하지 않는다.\n";

/// One profile file: where it should live and what it holds, if it exists.
#[derive(Debug, Clone)]
pub struct ProfileSource {
    pub path: String,
    pub content: Option<String>,
}

/// `PathBuf::from(base).join(name)` for a relative `name`: a `/` is put
/// between them unless `base` is empty or already ends with one.
pub open spec fn path_join(base: Seq<char>, name: Seq<char>) -> Seq<char> {
    if base.len() == 0 {
        name
    } else if base.last() == '/' {
        base + name
    } else {
        base + seq!['/'] + name
    }
}

pub fn join_path(base: &str, name: &str) -> (r: String)
    ensures
        r@ == path_join(base@, name@),
{
    let b = chars_of(base);
    let mut v: Vec<char> = Vec::new();
    push_str(&mut v, base);
    if b.len() > 0 && b[b.len() - 1] != '/' {
        v.push('/');
    }
    push_str(&mut v, name);
    assert(v@ =~= path_join(base@, name@));
    string_of(v.as_slice())
}

pub open spec fn non_empty(v: Option<String>) -> Option<Seq<char>> {
    match v {
        Some(s) => if s@.len() > 0 {
            Some(s@)
        } else {
            None
        },
        None => None,
    }
}

/// Where the global configuration lives: `$LEAF_CONFIG_DIR`, else
/// `$XDG_CONFIG_HOME/leaf`, else `$HOME/.config/leaf`; empty values count as
/// unset.
pub open spec fn config_dir_of(leaf: Option<String>, xdg: Option<String>, home: Option<String>) -> Option<Seq<char>> {
    match non_empty(leaf) {
        Some(d) => Some(d),
        None => match non_empty(xdg) {
            Some(x) => Some(path_join(x, "leaf"@)),
            None => match non_empty(home) {
                Some(h) => Some(path_join(path_join(h, ".config"@), "leaf"@)),
                None => None,
            },
        },
    }
}

pub fn config_dir_from(
    leaf_config_dir: Option<String>,
    xdg_config_home: Option<String>,
    home: Option<String>,
) -> (r: Option<String>)
    ensures
        match r {
            Some(d) => config_dir_of(leaf_config_dir, xdg_config_home, home) == Some(d@),
            None => config_dir_of(leaf_config_dir, xdg_config_home, home) is None,
        },
{
    if let Some(d) = &leaf_config_dir {
        if !d.as_str().is_empty() {
            return Some(d.clone());
        }
    }
    if let Some(x) = &xdg_config_home {
        if !x.as_str().is_empty() {
            return Some(join_path(x.as_str(), "leaf"));
        }
    }
    if let Some(h) = &home {
        if !h.as_str().is_empty() {
            let c = join_path(h.as_str(), ".config");
            return Some(join_path(c.as_str(), "leaf"));
        }
    }
    None
}

/// The global profile file inside a configuration directory.
pub fn global_profile_path(config_dir: &str) -> (r: String)
    ensures
        r@ == path_join(config_dir@, GLOBAL_PROFILE_FILE@),
{
    join_path(config_dir, GLOBAL_PROFILE_FILE)
}

/// One layer of the effective profile: a source marker, then the text.
pub open spec fn layer_text(name: Seq<char>, source: Option<ProfileSource>, absent: Seq<char>) -> Seq<char> {
    seq!['\n'] + match source {
        Some(s) => match s.content {
            Some(c) => "<!-- "@ + name + ": "@ + s.path@ + " -->\n"@ + trim_end(c@) + seq!['\n'],
            None => "<!-- "@ + name + ": "@ + s.path@ + " (missing; run `leaf init`) -->\n"@,
        },
        None => "<!-- "@ + name + ": "@ + absent + " -->\n"@,
    }
}

/// Appends one layer to `text`.
pub fn push_layer(text: &mut String, name: &str, source: Option<&ProfileSource>, absent: &str)
    ensures
        final(text)@ == old(text)@ + layer_text(
            name@,
            match source {
                Some(s) => Some(*s),
                None => None,
            },
            absent@,
        ),
{
    let mut v = chars_of(text.as_str());
    v.push('\n');
    match source {
        Some(s) => match &s.content {
            Some(c) => {
                push_str(&mut v, "<!-- ");
                push_str(&mut v, name);
                push_str(&mut v, ": ");
                push_str(&mut v, s.path.as_str());
                push_str(&mut v, " -->\n");
                let cc = chars_of(c.as_str());
                let t = crate::text::trim_end_chars(cc.as_slice());
                crate::text::append(&mut v, t.as_slice());
                v.push('\n');
            },
            None => {
                push_str(&mut v, "<!-- ");
                push_str(&mut v, name);
                push_str(&mut v, ": ");
                push_str(&mut v, s.path.as_str());
                push_str(&mut v, " (missing; run `leaf init`) -->\n");
            },
        },
        None => {
            push_str(&mut v, "<!-- ");
            push_str(&mut v, name);
            push_str(&mut v, ": ");
            push_str(&mut v, absent);
            push_str(&mut v, " -->\n");
        },
    }
    assert(v@ =~= old(text)@ + layer_text(
        name@,
        match source {
            Some(s) => Some(*s),
            None => None,
        },
        absent@,
    ));
    *text = string_of(v.as_slice());
}

pub open spec fn opt_source(s: Option<&ProfileSource>) -> Option<ProfileSource> {
    match s {
        Some(x) => Some(*x),
        None => None,
    }
}

/// The effective profile: a header, the global layer, then the local one.
pub fn render_effective(global: Option<&ProfileSource>, local: Option<&ProfileSource>) -> (r: String)
    ensures
        r@ == EFFECTIVE_HEADER@ + layer_text("global"@, opt_source(global), "(unavailable)"@)
            + layer_text("local"@, opt_source(local), "(not in a git repository)"@),
{
    let mut text = EFFECTIVE_HEADER.to_string();
    push_layer(&mut text, "global", global, "(unavailable)");
    push_layer(&mut text, "local", local, "(not in a git repository)");
    text
}

} // verus!
