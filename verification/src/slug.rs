//! Slugs: the path-safe names of sprouts and leaves.
use crate::text::{char_is_ascii_alnum, chars_of, is_ascii_alnum, push_str, string_of};
use vstd::prelude::*;

verus! {

pub open spec fn is_slug_char(c: char) -> bool {
    is_ascii_alnum(c) || c == '-' || c == '_'
}

/// A slug is a non-empty run of ASCII letters, digits, `-` and `_`.
pub open spec fn is_valid_slug(s: Seq<char>) -> bool {
    s.len() > 0 && forall|i: int| 0 <= i < s.len() ==> is_slug_char(#[trigger] s[i])
}

pub open spec fn invalid_slug_message(value: Seq<char>) -> Seq<char> {
    "invalid slug: "@ + value
}

/// The characters a slug may hold are exactly the ASCII letters, the ASCII
/// digits, `-` and `_`: a value is a slug when it is non-empty and made of
/// those alone, and any other character (such as `.`, a space or a
/// non-ASCII letter) makes it invalid.
pub proof fn lemma_slug_alphabet(value: Seq<char>)
    ensures
        is_valid_slug(value) <==> (value.len() > 0 && forall|i: int|
            0 <= i < value.len() ==> {
                let c = #[trigger] value[i];
                ||| 'a' <= c && c <= 'z'
                ||| 'A' <= c && c <= 'Z'
                ||| '0' <= c && c <= '9'
                ||| c == '-'
                ||| c == '_'
            }),
{
}

/// Accepts `value` unchanged when it is a slug; otherwise the error names it.
/// (A slug has no surrounding whitespace, so trimming never changes one.)
pub fn validate(value: &str) -> (r: Result<String, String>)
    ensures
        match r {
            Ok(s) => is_valid_slug(value@) && s@ == value@,
            Err(e) => !is_valid_slug(value@) && e@ == invalid_slug_message(value@),
        },
{
    let v = chars_of(value);
    let mut ok = v.len() > 0;
    let mut i: usize = 0;
    while i < v.len()
        invariant
            i <= v.len(),
            v@ == value@,
            ok == (v.len() > 0 && forall|k: int| 0 <= k < i ==> is_slug_char(#[trigger] v@[k])),
        decreases v.len() - i,
    {
        let c = v[i];
        if !(char_is_ascii_alnum(c) || c == '-' || c == '_') {
            ok = false;
        }
        i = i + 1;
    }
    if ok {
        Ok(string_of(v.as_slice()))
    } else {
        let mut out: Vec<char> = Vec::new();
        push_str(&mut out, "invalid slug: ");
        push_str(&mut out, value);
        Err(string_of(out.as_slice()))
    }
}

} // verus!
