//! The static parts of `leaf serve`: content types and the developer notice.
use crate::text::{chars_of, ends_with, has_suffix, push_str, string_of};
use vstd::prelude::*;

verus! {

/// `&`, `<` and `>` escaped for HTML text.
pub open spec fn html_escaped(s: Seq<char>) -> Seq<char>
    decreases s.len(),
{
    if s.len() == 0 {
        Seq::empty()
    } else {
        html_escaped(s.drop_last()) + if s.last() == '&' {
            "&amp;"@
        } else if s.last() == '<' {
            "&lt;"@
        } else if s.last() == '>' {
            "&gt;"@
        } else {
            seq![s.last()]
        }
    }
}

/// Escaped text holds no `<` or `>`, and text without `&`, `<` or `>` is
/// left as it is.
pub proof fn lemma_html_escaped(s: Seq<char>)
    ensures
        forall|i: int| 0 <= i < html_escaped(s).len() ==> #[trigger] html_escaped(s)[i] != '<'
            && html_escaped(s)[i] != '>',
        (forall|i: int| 0 <= i < s.len() ==> #[trigger] s[i] != '&' && s[i] != '<' && s[i] != '>')
            ==> html_escaped(s) == s,
    decreases s.len(),
{
    reveal_strlit("&amp;");
    reveal_strlit("&lt;");
    reveal_strlit("&gt;");
    if s.len() > 0 {
        let d = s.drop_last();
        lemma_html_escaped(d);
        let e = html_escaped(d);
        let tail = if s.last() == '&' {
            "&amp;"@
        } else if s.last() == '<' {
            "&lt;"@
        } else if s.last() == '>' {
            "&gt;"@
        } else {
            seq![s.last()]
        };
        assert(html_escaped(s) == e + tail);
        assert forall|i: int| 0 <= i < html_escaped(s).len() implies #[trigger] html_escaped(s)[i] != '<'
            && html_escaped(s)[i] != '>' by {
            if i < e.len() {
                assert(html_escaped(s)[i] == e[i]);
            } else {
                assert(html_escaped(s)[i] == tail[i - e.len()]);
            }
        }
        if forall|i: int| 0 <= i < s.len() ==> #[trigger] s[i] != '&' && s[i] != '<' && s[i] != '>' {
            assert forall|i: int| 0 <= i < d.len() implies #[trigger] d[i] != '&' && d[i] != '<' && d[i] != '>' by {
                assert(d[i] == s[i]);
            }
            assert(s[s.len() - 1] != '&' && s[s.len() - 1] != '<' && s[s.len() - 1] != '>');
            assert(s =~= d.push(s.last()));
        }
    }
}

pub fn html_escape(text: &str) -> (r: String)
    ensures
        r@ == html_escaped(text@),
{
    let v = chars_of(text);
    let mut out: Vec<char> = Vec::new();
    for i in 0..v.len()
        invariant
            v@ == text@,
            out@ == html_escaped(text@.take(i as int)),
    {
        assert(text@.take(i + 1).drop_last() =~= text@.take(i as int));
        let c = v[i];
        if c == '&' {
            push_str(&mut out, "&amp;");
        } else if c == '<' {
            push_str(&mut out, "&lt;");
        } else if c == '>' {
            push_str(&mut out, "&gt;");
        } else {
            out.push(c);
        }
        assert(out@ =~= html_escaped(text@.take(i + 1)));
    }
    assert(text@.take(text@.len() as int) =~= text@);
    string_of(out.as_slice())
}

pub const DEV_NOTICE_HEAD: &'static str = "<h1>leaf serve</h1><p>This developer leaf binary was built without embedded web UI, and the leaf source checkout has no <code>web/dist</code>.</p><p>Build the leaf web UI from the leaf source checkout, not the project you are serving:</p><pre><code>cd ";

pub const DEV_NOTICE_TAIL: &'static str = " &amp;&amp; npm ci &amp;&amp; npm run build</code></pre><p>For UI development, run <code>npm run dev</code> from that same <code>web</code> directory and open the Vite URL.</p><p>Installed release binaries should be built with embedded web UI, so they do not need this source checkout.</p>";

/// The page shown when the web UI of a developer build was not built: it
/// points at the leaf checkout's `web` directory (`leaf_web_dir`), escaped.
pub fn dev_notice_html(leaf_web_dir: &str) -> (r: String)
    ensures
        r@ == DEV_NOTICE_HEAD@ + html_escaped(leaf_web_dir@) + DEV_NOTICE_TAIL@,
{
    let dir = html_escape(leaf_web_dir);
    let mut v: Vec<char> = Vec::new();
    push_str(&mut v, DEV_NOTICE_HEAD);
    push_str(&mut v, dir.as_str());
    push_str(&mut v, DEV_NOTICE_TAIL);
    string_of(v.as_slice())
}

pub open spec fn mime_of(path: Seq<char>) -> Seq<char> {
    if ends_with(path, ".html"@) {
        "text/html; charset=utf-8"@
    } else if ends_with(path, ".js"@) {
        "text/javascript; charset=utf-8"@
    } else if ends_with(path, ".css"@) {
        "text/css; charset=utf-8"@
    } else if ends_with(path, ".svg"@) {
        "image/svg+xml"@
    } else {
        "application/octet-stream"@
    }
}

fn path_ends_with(p: &[char], suffix: &str) -> (b: bool)
    ensures
        b == ends_with(p@, suffix@),
{
    let s = chars_of(suffix);
    has_suffix(p, s.as_slice())
}

/// The content type of an embedded asset, by its extension.
pub fn mime_guess_for(path: &str) -> (r: &'static str)
    ensures
        r@ == mime_of(path@),
{
    let p = chars_of(path);
    if path_ends_with(p.as_slice(), ".html") {
        "text/html; charset=utf-8"
    } else if path_ends_with(p.as_slice(), ".js") {
        "text/javascript; charset=utf-8"
    } else if path_ends_with(p.as_slice(), ".css") {
        "text/css; charset=utf-8"
    } else if path_ends_with(p.as_slice(), ".svg") {
        "image/svg+xml"
    } else {
        "application/octet-stream"
    }
}

} // verus!
