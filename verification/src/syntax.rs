//! Code blocks and syntax themes: the language of an info string, the
//! built-in theme names, the warning for a theme that cannot be used, and the
//! colours of a highlighted span.
use crate::preview::{PreviewColor, PreviewStyle, PreviewTextStyle};
use crate::text::{append, chars_of, eq_chars, push_str, slice_vec, string_of, to_lowercase, trim, trim_chars, unicode_lower};
use vstd::prelude::*;

verus! {

pub open spec fn is_info_separator(c: char) -> bool {
    c == ',' || c == ' ' || c == '\t'
}

/// Index of the first separator of `s` at or after `i`, or its length.
pub open spec fn first_separator_from(s: Seq<char>, i: int) -> int
    decreases s.len() - i,
{
    if i < 0 || i >= s.len() {
        s.len() as int
    } else if is_info_separator(s[i]) {
        i
    } else {
        first_separator_from(s, i + 1)
    }
}

/// The language of a fenced code block: the info string up to the first
/// `,`, space or tab, when that is not empty.
pub open spec fn info_language(info: Seq<char>) -> Option<Seq<char>> {
    let k = first_separator_from(info, 0);
    if k > 0 {
        Some(info.take(k))
    } else {
        None
    }
}

pub fn language_from_info_string(info: &str) -> (r: Option<String>)
    ensures
        match r {
            Some(l) => info_language(info@) == Some(l@),
            None => info_language(info@) is None,
        },
{
    let v = chars_of(info);
    let mut k: usize = 0;
    while k < v.len() && !(v[k] == ',' || v[k] == ' ' || v[k] == '\t')
        invariant
            k <= v.len(),
            v@ == info@,
            first_separator_from(info@, 0) == first_separator_from(info@, k as int),
        decreases v.len() - k,
    {
        k = k + 1;
    }
    if k > 0 {
        let l = slice_vec(v.as_slice(), 0, k);
        Some(string_of(l.as_slice()))
    } else {
        None
    }
}

// ---------------------------------------------------------------------------
// Theme names
// ---------------------------------------------------------------------------
/// The built-in syntax themes, by their normalized names.
pub open spec fn builtin_theme_names() -> Seq<&'static str> {
    seq![
        "ansi",
        "base16",
        "base16-eighties-dark",
        "base16-mocha-dark",
        "base16-ocean-dark",
        "base16-ocean-light",
        "base16-256",
        "catppuccin-frappe",
        "catppuccin-latte",
        "catppuccin-macchiato",
        "catppuccin-mocha",
        "coldark-cold",
        "coldark-dark",
        "dark-neon",
        "dracula",
        "github",
        "gruvbox-dark",
        "gruvbox-light",
        "inspired-github",
        "1337",
        "monokai-extended",
        "monokai-extended-bright",
        "monokai-extended-light",
        "monokai-extended-origin",
        "nord",
        "one-half-dark",
        "one-half-light",
        "solarized-dark",
        "solarized-light",
        "sublime-snazzy",
        "two-dark",
        "zenburn",
    ]
}

pub fn builtin_themes() -> (r: Vec<&'static str>)
    ensures
        r@ == builtin_theme_names(),
{
    let r: Vec<&'static str> = vec![
        "ansi",
        "base16",
        "base16-eighties-dark",
        "base16-mocha-dark",
        "base16-ocean-dark",
        "base16-ocean-light",
        "base16-256",
        "catppuccin-frappe",
        "catppuccin-latte",
        "catppuccin-macchiato",
        "catppuccin-mocha",
        "coldark-cold",
        "coldark-dark",
        "dark-neon",
        "dracula",
        "github",
        "gruvbox-dark",
        "gruvbox-light",
        "inspired-github",
        "1337",
        "monokai-extended",
        "monokai-extended-bright",
        "monokai-extended-light",
        "monokai-extended-origin",
        "nord",
        "one-half-dark",
        "one-half-light",
        "solarized-dark",
        "solarized-light",
        "sublime-snazzy",
        "two-dark",
        "zenburn",
    ];
    assert(r@ =~= builtin_theme_names());
    r
}

/// One character of a theme name, normalized: space and `_` become `-`,
/// anything else its lowercase.
pub open spec fn normalized_theme_char(c: char) -> Seq<char> {
    if c == ' ' || c == '_' {
        seq!['-']
    } else {
        unicode_lower(seq![c])
    }
}

pub open spec fn normalized_theme_chars(s: Seq<char>) -> Seq<char>
    decreases s.len(),
{
    if s.len() == 0 {
        Seq::empty()
    } else {
        normalized_theme_chars(s.drop_last()) + normalized_theme_char(s.last())
    }
}

/// A theme name as the built-in names are written: trimmed, lowercase, with
/// `-` for spaces and underscores.
pub open spec fn normalized_theme_name(name: Seq<char>) -> Seq<char> {
    normalized_theme_chars(trim(name))
}

pub fn normalized_builtin_theme_name(name: &str) -> (r: String)
    ensures
        r@ == normalized_theme_name(name@),
{
    let v = chars_of(name);
    let t = trim_chars(v.as_slice());
    let mut out: Vec<char> = Vec::new();
    let mut i: usize = 0;
    while i < t.len()
        invariant
            i <= t.len(),
            out@ == normalized_theme_chars(t@.take(i as int)),
        decreases t.len() - i,
    {
        let c = t[i];
        assert(t@.take(i + 1).drop_last() =~= t@.take(i as int));
        if c == ' ' || c == '_' {
            out.push('-');
        } else {
            let one: Vec<char> = vec![c];
            let low = to_lowercase(one.as_slice());
            assert(one@ =~= seq![c]);
            append(&mut out, low.as_slice());
        }
        i = i + 1;
    }
    assert(t@.take(t@.len() as int) =~= t@);
    string_of(out.as_slice())
}

pub open spec fn is_builtin_theme(normalized: Seq<char>) -> bool {
    exists|i: int| 0 <= i < builtin_theme_names().len() && builtin_theme_names()[i]@ == normalized
}

/// The built-in theme `name` means, by its normalized name.
pub fn builtin_theme_name(name: &str) -> (r: Option<String>)
    ensures
        match r {
            Some(n) => n@ == normalized_theme_name(name@) && is_builtin_theme(n@),
            None => !is_builtin_theme(normalized_theme_name(name@)),
        },
{
    let normalized = normalized_builtin_theme_name(name);
    let n = chars_of(normalized.as_str());
    let names = builtin_themes();
    let mut i: usize = 0;
    while i < names.len()
        invariant
            i <= names.len(),
            names@ == builtin_theme_names(),
            n@ == normalized_theme_name(name@),
            forall|k: int| 0 <= k < i ==> builtin_theme_names()[k]@ != n@,
        decreases names.len() - i,
    {
        let candidate = chars_of(names[i]);
        if eq_chars(candidate.as_slice(), n.as_slice()) {
            assert(builtin_theme_names()[i as int]@ == n@);
            assert(is_builtin_theme(n@));
            return Some(string_of(n.as_slice()));
        }
        i = i + 1;
    }
    None
}

/// Where a custom theme lives: `<codex home>/themes/<name>.tmTheme`.
pub open spec fn custom_theme_path_text(name: Seq<char>, codex_home: Seq<char>) -> Seq<char> {
    codex_home + "/themes/"@ + name + ".tmTheme"@
}

pub fn custom_theme_path(name: &str, codex_home: &str) -> (r: String)
    ensures
        r@ == custom_theme_path_text(name@, codex_home@),
{
    let mut v = chars_of(codex_home);
    push_str(&mut v, "/themes/");
    push_str(&mut v, name);
    push_str(&mut v, ".tmTheme");
    string_of(v.as_slice())
}

/// The warning for a configured theme: none for no theme, a built-in one,
/// or a custom theme file that loads; otherwise it says the default theme is
/// used and where a custom theme would be. `custom_is_file` and
/// `custom_loads` say what was found at the custom theme path (looked at only
/// when there is a Codex home).
pub open spec fn theme_warning_text(
    name: Option<Seq<char>>,
    codex_home: Option<Seq<char>>,
    custom_is_file: bool,
    custom_loads: bool,
) -> Option<Seq<char>> {
    match name {
        None => None,
        Some(n) => {
            let shown = match codex_home {
                Some(h) => custom_theme_path_text(n, h),
                None => "$CODEX_HOME/themes/"@ + n + ".tmTheme"@,
            };
            if is_builtin_theme(normalized_theme_name(n)) {
                None
            } else if codex_home is Some && custom_is_file {
                if custom_loads {
                    None
                } else {
                    Some(
                        "Custom theme \""@ + n + "\" at "@ + shown
                            + " could not be loaded. Falling back to the default theme."@,
                    )
                }
            } else {
                Some(
                    "Theme \""@ + n
                        + "\" not found. Using the default theme. To use a custom theme, place a .tmTheme file at "@
                        + shown + "."@,
                )
            }
        },
    }
}

pub fn validate_theme_name(
    name: Option<&str>,
    codex_home: Option<&str>,
    custom_is_file: bool,
    custom_loads: bool,
) -> (r: Option<String>)
    ensures
        ({
            let w = theme_warning_text(
                match name {
                    Some(n) => Some(n@),
                    None => None,
                },
                match codex_home {
                    Some(h) => Some(h@),
                    None => None,
                },
                custom_is_file,
                custom_loads,
            );
            match r {
                Some(t) => w == Some(t@),
                None => w is None,
            }
        }),
{
    let n = match name {
        Some(n) => n,
        None => {
            return None;
        },
    };
    let shown = match codex_home {
        Some(h) => custom_theme_path(n, h),
        None => {
            let mut v: Vec<char> = Vec::new();
            push_str(&mut v, "$CODEX_HOME/themes/");
            push_str(&mut v, n);
            push_str(&mut v, ".tmTheme");
            string_of(v.as_slice())
        },
    };
    if builtin_theme_name(n).is_some() {
        return None;
    }
    let mut v: Vec<char> = Vec::new();
    if codex_home.is_some() && custom_is_file {
        if custom_loads {
            return None;
        }
        push_str(&mut v, "Custom theme \"");
        push_str(&mut v, n);
        push_str(&mut v, "\" at ");
        push_str(&mut v, shown.as_str());
        push_str(&mut v, " could not be loaded. Falling back to the default theme.");
    } else {
        push_str(&mut v, "Theme \"");
        push_str(&mut v, n);
        push_str(
            &mut v,
            "\" not found. Using the default theme. To use a custom theme, place a .tmTheme file at ",
        );
        push_str(&mut v, shown.as_str());
        push_str(&mut v, ".");
    }
    Some(string_of(v.as_slice()))
}

// ---------------------------------------------------------------------------
// Languages and colours
// ---------------------------------------------------------------------------
/// The language names the highlighter knows by another name.
pub open spec fn patched_language_of(language: Seq<char>) -> Seq<char> {
    if language == "csharp"@ || language == "c-sharp"@ {
        "c#"@
    } else if language == "golang"@ {
        "go"@
    } else if language == "python3"@ {
        "python"@
    } else if language == "shell"@ {
        "bash"@
    } else {
        language
    }
}

fn is(s: &[char], lit: &str) -> (b: bool)
    ensures
        b == (s@ == lit@),
{
    let l = chars_of(lit);
    eq_chars(s, l.as_slice())
}

pub fn patched_language(language: &str) -> (r: String)
    ensures
        r@ == patched_language_of(language@),
{
    let v = chars_of(language);
    if is(v.as_slice(), "csharp") || is(v.as_slice(), "c-sharp") {
        "c#".to_owned()
    } else if is(v.as_slice(), "golang") {
        "go".to_owned()
    } else if is(v.as_slice(), "python3") {
        "python".to_owned()
    } else if is(v.as_slice(), "shell") {
        "bash".to_owned()
    } else {
        language.to_owned()
    }
}

/// A highlighter colour: alpha 0 marks an ANSI palette index (kept in the
/// red channel), alpha 1 the terminal's default colour, any other alpha an
/// RGB colour.
pub fn preview_color(r: u8, g: u8, b: u8, a: u8) -> (c: Option<PreviewColor>)
    ensures
        a == 0 ==> c == Some(PreviewColor::Ansi(r)),
        a == 1 ==> c is None,
        a > 1 ==> c == Some(PreviewColor::Rgb(r, g, b)),
{
    if a == 0 {
        Some(PreviewColor::Ansi(r))
    } else if a == 1 {
        None
    } else {
        Some(PreviewColor::Rgb(r, g, b))
    }
}

/// A highlighted span's style: its colours and the bold, italic and
/// underline flags of its font style.
pub fn preview_style(
    fg: Option<PreviewColor>,
    bg: Option<PreviewColor>,
    bold: bool,
    italic: bool,
    underline: bool,
) -> (r: PreviewStyle)
    ensures
        r.fg == fg,
        r.bg == bg,
        r.text_style == (PreviewTextStyle { bold, italic, underline, strikethrough: false }),
{
    PreviewStyle {
        fg,
        bg,
        text_style: PreviewTextStyle { bold, italic, underline, strikethrough: false },
    }
}

} // verus!
