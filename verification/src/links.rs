//! How a markdown link is shown: local file links as normalized paths (with
//! their line and column suffix), bare web addresses as links.
use crate::checkpoint::{lemma_rfind_bounds, rfind_char, rfind_char_before, trim_end_matches, trim_end_matching, trim_start_matches, trim_start_matching};
use crate::preview::{PreviewSourceRange, PreviewSpan, PreviewStyle, PreviewTextStyle};
use crate::text::{all_digits, append, char_is_ws, is_ws, push_str, char_is_digit, chars_of, contains_char, eq_chars, find_char, has_prefix, is_digit, slice_vec, split_once_at_char, split_once_char, starts_with, string_of};
use vstd::prelude::*;
use vstd::utf8::{decode_utf8, encode_utf8, valid_utf8};

verus! {

// ---------------------------------------------------------------------------
// Percent decoding
// ---------------------------------------------------------------------------
/// The value of an ASCII hex digit.
pub open spec fn hex_digit(b: u8) -> Option<u8> {
    if 48 <= b <= 57 {
        Some((b - 48) as u8)
    } else if 97 <= b <= 102 {
        Some((b - 87) as u8)
    } else if 65 <= b <= 70 {
        Some((b - 55) as u8)
    } else {
        None
    }
}

pub fn hex_value(b: u8) -> (r: Option<u8>)
    ensures
        r == hex_digit(b),
{
    if 48 <= b && b <= 57 {
        Some(b - 48)
    } else if 97 <= b && b <= 102 {
        Some(b - 87)
    } else if 65 <= b && b <= 70 {
        Some(b - 55)
    } else {
        None
    }
}

/// `b` with every `%` followed by two hex digits replaced by the byte they
/// spell; everything else is kept.
pub open spec fn percent_decoded(b: Seq<u8>) -> Seq<u8>
    decreases b.len(),
{
    if b.len() == 0 {
        Seq::empty()
    } else if b.len() >= 3 && b[0] == 37 && hex_digit(b[1]) is Some && hex_digit(b[2]) is Some {
        seq![(hex_digit(b[1]).unwrap() * 16 + hex_digit(b[2]).unwrap()) as u8] + percent_decoded(
            b.skip(3),
        )
    } else {
        seq![b[0]] + percent_decoded(b.skip(1))
    }
}

pub fn percent_decode_bytes(b: &[u8]) -> (r: Vec<u8>)
    ensures
        r@ == percent_decoded(b@),
{
    let mut out: Vec<u8> = Vec::new();
    let mut i: usize = 0;
    assert(b@.skip(0) =~= b@);
    assert(out@ + percent_decoded(b@) =~= percent_decoded(b@));
    while i < b.len()
        invariant
            i <= b.len(),
            out@ + percent_decoded(b@.skip(i as int)) == percent_decoded(b@),
        decreases b.len() - i,
    {
        let ghost rest = b@.skip(i as int);
        if b[i] == 37 && b.len() - i > 2 {
            let high = hex_value(b[i + 1]);
            let low = hex_value(b[i + 2]);
            if high.is_some() && low.is_some() {
                let h = high.unwrap();
                let l = low.unwrap();
                assert(rest[1] == b@[i + 1] && rest[2] == b@[i + 2]);
                assert(rest.skip(3) =~= b@.skip(i + 3));
                out.push(h * 16 + l);
                i = i + 3;
                continue;
            }
        }
        assert(rest.skip(1) =~= b@.skip(i + 1));
        out.push(b[i]);
        i = i + 1;
    }
    assert(b@.skip(b.len() as int) =~= Seq::<u8>::empty());
    assert(out@ + Seq::<u8>::empty() =~= out@);
    out
}

/// What `String::from_utf8_lossy` makes of some bytes.
pub uninterp spec fn utf8_lossy(b: Seq<u8>) -> Seq<char>;

/// Calls `String::from_utf8_lossy`. Claimed: the text depends on the bytes
/// alone (named `utf8_lossy`), and valid UTF-8 is decoded as it stands, as
/// the function's documentation says. How invalid sequences are replaced is
/// not stated.
#[verifier::external_body]
fn from_utf8_lossy(b: &[u8]) -> (r: String)
    ensures
        r@ == utf8_lossy(b@),
        valid_utf8(b@) ==> r@ == decode_utf8(b@),
{
    String::from_utf8_lossy(b).into_owned()
}

/// The text with its percent escapes decoded, as UTF-8 (lossily).
pub open spec fn percent_decoded_text(s: Seq<char>) -> Seq<char> {
    utf8_lossy(percent_decoded(encode_utf8(s)))
}

pub fn percent_decode_path_text(s: &str) -> (r: String)
    ensures
        r@ == percent_decoded_text(s@),
        valid_utf8(percent_decoded(encode_utf8(s@))) ==> r@ == decode_utf8(percent_decoded(encode_utf8(s@))),
{
    let bytes = s.as_bytes();
    let decoded = percent_decode_bytes(bytes);
    from_utf8_lossy(decoded.as_slice())
}

// ---------------------------------------------------------------------------
// Local paths
// ---------------------------------------------------------------------------
pub proof fn lemma_starts_with_one(s: Seq<char>, c: char)
    ensures
        starts_with(s, seq![c]) <==> (s.len() > 0 && s[0] == c),
{
    if s.len() > 0 && s[0] == c {
        assert(s.take(1) =~= seq![c]);
    }
    if starts_with(s, seq![c]) {
        assert(s.take(1)[0] == s[0]);
    }
}

pub proof fn lemma_starts_with_two(s: Seq<char>, a: char, b: char)
    ensures
        starts_with(s, seq![a, b]) <==> (s.len() > 1 && s[0] == a && s[1] == b),
{
    if s.len() > 1 && s[0] == a && s[1] == b {
        assert(s.take(2) =~= seq![a, b]);
    }
    if starts_with(s, seq![a, b]) {
        assert(s.take(2)[0] == s[0] && s.take(2)[1] == s[1]);
    }
}

/// Backslashes turned into slashes.
pub open spec fn forward_slashes(s: Seq<char>) -> Seq<char> {
    Seq::new(s.len(), |i: int| if s[i] == '\\' { '/' } else { s[i] })
}

pub fn forward_slashed(s: &[char]) -> (r: Vec<char>)
    ensures
        r@ == forward_slashes(s@),
{
    let mut out: Vec<char> = Vec::new();
    let mut i: usize = 0;
    while i < s.len()
        invariant
            i <= s.len(),
            out@ == forward_slashes(s@).take(i as int),
        decreases s.len() - i,
    {
        out.push(if s[i] == '\\' { '/' } else { s[i] });
        assert(forward_slashes(s@).take(i + 1) =~= forward_slashes(s@).take(i as int).push(
            forward_slashes(s@)[i as int],
        ));
        i = i + 1;
    }
    assert(forward_slashes(s@).take(s.len() as int) =~= forward_slashes(s@));
    out
}

/// A link path with `/` separators; a UNC path (`\\\\server\\share`) keeps
/// exactly two leading slashes.
pub open spec fn normalized_local_path(p: Seq<char>) -> Seq<char> {
    if starts_with(p, seq!['\\', '\\']) {
        seq!['/', '/'] + trim_start_matches(forward_slashes(p.skip(2)), seq!['/'])
    } else {
        forward_slashes(p)
    }
}

pub fn normalize_local_link_path_text(p: &str) -> (r: String)
    ensures
        r@ == normalized_local_path(p@),
{
    let v = chars_of(p);
    let unc: Vec<char> = vec!['\\', '\\'];
    assert(unc@ =~= seq!['\\', '\\']);
    if has_prefix(v.as_slice(), unc.as_slice()) {
        let rest = slice_vec(v.as_slice(), 2, v.len());
        assert(rest@ =~= p@.skip(2));
        let slashed = forward_slashed(rest.as_slice());
        let slash: Vec<char> = vec!['/'];
        assert(slash@ =~= seq!['/']);
        let trimmed = trim_start_matching(slashed.as_slice(), slash.as_slice());
        let mut out: Vec<char> = vec!['/', '/'];
        append(&mut out, trimmed.as_slice());
        assert(out@ =~= seq!['/', '/'] + trimmed@);
        string_of(out.as_slice())
    } else {
        let out = forward_slashed(v.as_slice());
        string_of(out.as_slice())
    }
}

pub open spec fn is_ascii_alpha(c: char) -> bool {
    ('a' <= c && c <= 'z') || ('A' <= c && c <= 'Z')
}

/// `X:/...`, a Windows drive path.
pub open spec fn has_drive_root(p: Seq<char>) -> bool {
    p.len() >= 3 && is_ascii_alpha(p[0]) && p[1] == ':' && p[2] == '/'
}

pub open spec fn is_absolute_link_path(p: Seq<char>) -> bool {
    starts_with(p, seq!['/']) || has_drive_root(p)
}

fn drive_root(p: &[char]) -> (b: bool)
    ensures
        b == has_drive_root(p@),
{
    p.len() >= 3 && (('a' <= p[0] && p[0] <= 'z') || ('A' <= p[0] && p[0] <= 'Z')) && p[1] == ':'
        && p[2] == '/'
}

pub fn is_absolute_local_link_path(p: &str) -> (b: bool)
    ensures
        b == is_absolute_link_path(p@),
{
    let v = chars_of(p);
    proof {
        lemma_starts_with_one(p@, '/');
    }
    (v.len() > 0 && v[0] == '/') || drive_root(v.as_slice())
}

/// Trailing slashes dropped, except from `/`, `//` and a bare drive root.
pub open spec fn without_trailing_separator(p: Seq<char>) -> Seq<char> {
    if p == seq!['/'] || p == seq!['/', '/'] || (p.len() == 3 && has_drive_root(p)) {
        p
    } else {
        trim_end_matches(p, seq!['/'])
    }
}

pub fn trim_trailing_local_path_separator(p: &[char]) -> (r: Vec<char>)
    ensures
        r@ == without_trailing_separator(p@),
{
    if (p.len() == 1 && p[0] == '/') || (p.len() == 2 && p[0] == '/' && p[1] == '/') || (p.len()
        == 3 && drive_root(p)) {
        assert(p.len() == 1 ==> p@ =~= seq!['/']);
        assert(p.len() == 2 ==> p@ =~= seq!['/', '/']);
        return slice_vec(p, 0, p.len());
    }
    assert(p@ != seq!['/'] && p@ != seq!['/', '/']) by {
        if p@ =~= seq!['/'] {
            assert(p@.len() == 1 && p@[0] == '/');
        }
        if p@ =~= seq!['/', '/'] {
            assert(p@.len() == 2 && p@[0] == '/' && p@[1] == '/');
        }
    }
    let slash: Vec<char> = vec!['/'];
    assert(slash@ =~= seq!['/']);
    trim_end_matching(p, slash.as_slice())
}

/// `path` relative to `cwd` (both without trailing separators), when it
/// lies strictly below it.
pub open spec fn below_dir(path: Seq<char>, cwd: Seq<char>) -> Option<Seq<char>> {
    let p = without_trailing_separator(path);
    let c = without_trailing_separator(cwd);
    if p == c {
        None
    } else if c == seq!['/'] || c == seq!['/', '/'] {
        if starts_with(p, seq!['/']) {
            Some(p.skip(1))
        } else {
            None
        }
    } else if starts_with(p, c) && starts_with(p.skip(c.len() as int), seq!['/']) {
        Some(p.skip(c.len() as int + 1))
    } else {
        None
    }
}

pub fn strip_local_path_prefix(path: &[char], cwd: &[char]) -> (r: Option<Vec<char>>)
    ensures
        match r {
            Some(v) => below_dir(path@, cwd@) == Some(v@),
            None => below_dir(path@, cwd@) is None,
        },
{
    let p = trim_trailing_local_path_separator(path);
    let c = trim_trailing_local_path_separator(cwd);
    if eq_chars(p.as_slice(), c.as_slice()) {
        return None;
    }
    if (c.len() == 1 && c[0] == '/') || (c.len() == 2 && c[0] == '/' && c[1] == '/') {
        assert(c.len() == 1 ==> c@ =~= seq!['/']);
        assert(c.len() == 2 ==> c@ =~= seq!['/', '/']);
        proof {
            lemma_starts_with_one(p@, '/');
        }
        if p.len() > 0 && p[0] == '/' {
            let rest = slice_vec(p.as_slice(), 1, p.len());
            assert(rest@ =~= p@.skip(1));
            return Some(rest);
        }
        return None;
    }
    assert(c@ != seq!['/'] && c@ != seq!['/', '/']) by {
        if c@ =~= seq!['/'] {
            assert(c@.len() == 1 && c@[0] == '/');
        }
        if c@ =~= seq!['/', '/'] {
            assert(c@.len() == 2 && c@[0] == '/' && c@[1] == '/');
        }
    }
    proof {
        lemma_starts_with_one(p@.skip(c@.len() as int), '/');
    }
    if has_prefix(p.as_slice(), c.as_slice()) && p.len() > c.len() && p[c.len()] == '/' {
        assert(p@.skip(c@.len() as int)[0] == p@[c@.len() as int]);
        let rest = slice_vec(p.as_slice(), c.len() + 1, p.len());
        assert(rest@ =~= p@.skip(c@.len() as int + 1));
        return Some(rest);
    }
    None
}

/// How a local link path is shown: normalized, and relative to the working
/// directory when it is absolute and lies below it.
pub open spec fn displayed_local_path(path: Seq<char>, cwd: Option<Seq<char>>) -> Seq<char> {
    let p = normalized_local_path(path);
    if !is_absolute_link_path(p) {
        p
    } else {
        match cwd {
            Some(c) => match below_dir(p, normalized_local_path(c)) {
                Some(rel) => rel,
                None => p,
            },
            None => p,
        }
    }
}

pub fn display_local_link_path(path: &str, cwd: Option<&str>) -> (r: String)
    ensures
        r@ == displayed_local_path(
            path@,
            match cwd {
                Some(c) => Some(c@),
                None => None,
            },
        ),
{
    let p = normalize_local_link_path_text(path);
    if !is_absolute_local_link_path(p.as_str()) {
        return p;
    }
    if let Some(c) = cwd {
        let cn = normalize_local_link_path_text(c);
        let pv = chars_of(p.as_str());
        let cv = chars_of(cn.as_str());
        if let Some(rel) = strip_local_path_prefix(pv.as_slice(), cv.as_slice()) {
            return string_of(rel.as_slice());
        }
    }
    p
}

/// `home` joined with a relative `rest`, as `Path::join` does: an absolute
/// `rest` replaces `home`, and a separator is added when `home` lacks one.
pub open spec fn joined_path(home: Seq<char>, rest: Seq<char>) -> Seq<char> {
    if starts_with(rest, seq!['/']) || home.len() == 0 {
        rest
    } else if home.last() == '/' {
        home + rest
    } else {
        home + seq!['/'] + rest
    }
}

/// A link path as a file path: percent escapes decoded, `~/` expanded with
/// the home directory when one is known, separators normalized.
pub open spec fn expanded_local_path(path: Seq<char>, home: Option<Seq<char>>) -> Seq<char> {
    let d = percent_decoded_text(path);
    match home {
        Some(h) => if starts_with(d, seq!['~', '/']) {
            normalized_local_path(joined_path(h, d.skip(2)))
        } else {
            normalized_local_path(d)
        },
        None => normalized_local_path(d),
    }
}

pub fn expand_local_link_path(path: &str, home: Option<&str>) -> (r: String)
    ensures
        r@ == expanded_local_path(
            path@,
            match home {
                Some(h) => Some(h@),
                None => None,
            },
        ),
{
    let decoded = percent_decode_path_text(path);
    let d = chars_of(decoded.as_str());
    proof {
        lemma_starts_with_two(d@, '~', '/');
    }
    if let Some(h) = home {
        if d.len() >= 2 && d[0] == '~' && d[1] == '/' {
            let rest = slice_vec(d.as_slice(), 2, d.len());
            assert(rest@ =~= d@.skip(2));
            let hv = chars_of(h);
            proof {
                lemma_starts_with_one(rest@, '/');
            }
            let mut joined: Vec<char> = Vec::new();
            if (rest.len() > 0 && rest[0] == '/') || hv.len() == 0 {
                append(&mut joined, rest.as_slice());
            } else if hv[hv.len() - 1] == '/' {
                append(&mut joined, hv.as_slice());
                append(&mut joined, rest.as_slice());
            } else {
                append(&mut joined, hv.as_slice());
                joined.push('/');
                append(&mut joined, rest.as_slice());
            }
            assert(joined@ =~= joined_path(h@, d@.skip(2)));
            let js = string_of(joined.as_slice());
            return normalize_local_link_path_text(js.as_str());
        }
    }
    normalize_local_link_path_text(decoded.as_str())
}

// ---------------------------------------------------------------------------
// Line and column suffixes
// ---------------------------------------------------------------------------
pub fn digits_only(s: &[char]) -> (b: bool)
    ensures
        b == all_digits(s@),
{
    let mut i: usize = 0;
    while i < s.len()
        invariant
            i <= s.len(),
            forall|k: int| 0 <= k < i ==> is_digit(#[trigger] s@[k]),
        decreases s.len() - i,
    {
        if !char_is_digit(s[i]) {
            return false;
        }
        i = i + 1;
    }
    true
}

/// `12` or `12:3`: a line, and optionally a column, of digits.
pub open spec fn is_location_point_of(p: Seq<char>) -> bool {
    match split_once_char(p, ':') {
        None => p.len() > 0 && all_digits(p),
        Some((line, column)) => !contains_char(column, ':') && line.len() > 0 && all_digits(line)
            && column.len() > 0 && all_digits(column),
    }
}

pub fn is_location_point(p: &[char]) -> (b: bool)
    ensures
        b == is_location_point_of(p@),
{
    match split_once_at_char(p, ':') {
        None => p.len() > 0 && digits_only(p),
        Some((line, column)) => {
            let k = find_char(column.as_slice(), ':', 0);
            k == column.len() && line.len() > 0 && digits_only(line.as_slice()) && column.len() > 0
                && digits_only(column.as_slice())
        },
    }
}

/// `:12`, `:12:3`, `:12-14`, `:12:3-14:1` (the leading `:` optional).
pub open spec fn is_location_suffix_of(suffix: Seq<char>) -> bool {
    let s = if suffix.len() > 0 && suffix[0] == ':' {
        suffix.skip(1)
    } else {
        suffix
    };
    match split_once_char(s, '-') {
        None => is_location_point_of(s),
        Some((start, end)) => is_location_point_of(start) && is_location_point_of(end),
    }
}

pub fn is_location_suffix(suffix: &[char]) -> (b: bool)
    ensures
        b == is_location_suffix_of(suffix@),
{
    let s = if suffix.len() > 0 && suffix[0] == ':' {
        slice_vec(suffix, 1, suffix.len())
    } else {
        slice_vec(suffix, 0, suffix.len())
    };
    assert(suffix.len() > 0 && suffix@[0] == ':' ==> s@ =~= suffix@.skip(1));
    assert(!(suffix.len() > 0 && suffix@[0] == ':') ==> s@ =~= suffix@);
    match split_once_at_char(s.as_slice(), '-') {
        None => is_location_point(s.as_slice()),
        Some((start, end)) => is_location_point(start.as_slice()) && is_location_point(end.as_slice()),
    }
}

/// Searching backwards from `i` sees the same characters in a prefix that
/// reaches `i`.
pub proof fn lemma_rfind_in_prefix(s: Seq<char>, c: char, j: int, i: int)
    requires
        0 <= i <= j <= s.len(),
    ensures
        rfind_char_before(s.take(j), c, i) == rfind_char_before(s, c, i),
    decreases i,
{
    if i > 0 && s[i - 1] != c {
        lemma_rfind_in_prefix(s, c, j, i - 1);
    }
}

pub proof fn lemma_rfind_prefix(s: Seq<char>, c: char, j: int)
    requires
        0 <= j <= s.len(),
    ensures
        rfind_char_before(s.take(j), c, j) == rfind_char_before(s, c, j),
{
    lemma_rfind_in_prefix(s, c, j, j);
}

/// A lone drive letter such as `C`.
pub open spec fn is_windows_drive(p: Seq<char>) -> bool {
    p.len() == 1 && is_ascii_alpha(p[0])
}

/// The `:line[:column][-line[:column]]` suffix at the end of a path: from
/// the last `:`, or from the one before it when that still reads as a
/// location and what precedes it is not a drive letter.
pub open spec fn colon_location_suffix(p: Seq<char>) -> Option<Seq<char>> {
    let k1 = rfind_char_before(p, ':', p.len() as int);
    if k1 < 0 || k1 + 1 == p.len() {
        None
    } else if !is_location_suffix_of(p.skip(k1)) {
        None
    } else {
        let k0 = rfind_char_before(p, ':', k1);
        if k0 >= 0 && is_location_suffix_of(p.skip(k0)) && !is_windows_drive(p.take(k0)) {
            Some(p.skip(k0))
        } else {
            Some(p.skip(k1))
        }
    }
}

pub fn extract_colon_location_suffix(p: &[char]) -> (r: Option<Vec<char>>)
    ensures
        match r {
            Some(v) => colon_location_suffix(p@) == Some(v@),
            None => colon_location_suffix(p@) is None,
        },
{
    let k1 = match rfind_char(p, ':') {
        Some(k) => k,
        None => {
            return None;
        },
    };
    if k1 == p.len() - 1 {
        return None;
    }
    let suffix = slice_vec(p, k1, p.len());
    assert(suffix@ =~= p@.skip(k1 as int));
    if !is_location_suffix(suffix.as_slice()) {
        return None;
    }
    let head = slice_vec(p, 0, k1);
    proof {
        lemma_rfind_bounds(p@, ':', k1 as int);
    }
    match rfind_char(head.as_slice(), ':') {
        Some(k0) => {
            proof {
                lemma_rfind_prefix(p@, ':', k1 as int);
            }
            let candidate = slice_vec(p, k0, p.len());
            assert(candidate@ =~= p@.skip(k0 as int));
            let prefix = slice_vec(p, 0, k0);
            assert(prefix@ =~= p@.take(k0 as int));
            let drive = prefix.len() == 1 && (('a' <= prefix[0] && prefix[0] <= 'z') || ('A'
                <= prefix[0] && prefix[0] <= 'Z'));
            if is_location_suffix(candidate.as_slice()) && !drive {
                return Some(candidate);
            }
            Some(suffix)
        },
        None => {
            proof {
                lemma_rfind_prefix(p@, ':', k1 as int);
            }
            Some(suffix)
        },
    }
}

// ---------------------------------------------------------------------------
// `#L12C3-L14` fragments
// ---------------------------------------------------------------------------
/// `L12` or `L12C3`: a line and optionally a column, both digits.
pub open spec fn hash_point(point: Seq<char>) -> Option<(Seq<char>, Option<Seq<char>>)> {
    if !(point.len() > 0 && point[0] == 'L') || point.len() == 1 {
        None
    } else {
        let p = point.skip(1);
        match split_once_char(p, 'C') {
            Some((line, column)) => if line.len() > 0 && column.len() > 0 && all_digits(line)
                && all_digits(column) {
                Some((line, Some(column)))
            } else {
                None
            },
            None => if all_digits(p) {
                Some((p, None))
            } else {
                None
            },
        }
    }
}

pub fn parse_hash_location_point(point: &[char]) -> (r: Option<(Vec<char>, Option<Vec<char>>)>)
    ensures
        match r {
            Some((l, c)) => hash_point(point@) == Some(
                (
                    l@,
                    match c {
                        Some(c) => Some(c@),
                        None => None,
                    },
                ),
            ),
            None => hash_point(point@) is None,
        },
{
    if !(point.len() > 0 && point[0] == 'L') || point.len() == 1 {
        return None;
    }
    let p = slice_vec(point, 1, point.len());
    assert(p@ =~= point@.skip(1));
    match split_once_at_char(p.as_slice(), 'C') {
        Some((line, column)) => {
            if line.len() > 0 && column.len() > 0 && digits_only(line.as_slice()) && digits_only(
                column.as_slice(),
            ) {
                Some((line, Some(column)))
            } else {
                None
            }
        },
        None => {
            if digits_only(p.as_slice()) {
                Some((p, None))
            } else {
                None
            }
        },
    }
}

/// `L12` or `L12-L14` (each point with an optional column).
pub open spec fn hash_range(fragment: Seq<char>) -> Option<
    ((Seq<char>, Option<Seq<char>>), Option<(Seq<char>, Option<Seq<char>>)>),
> {
    match split_once_char(fragment, '-') {
        Some((a, b)) => match (hash_point(a), hash_point(b)) {
            (Some(x), Some(y)) => Some((x, Some(y))),
            _ => None,
        },
        None => match hash_point(fragment) {
            Some(x) => Some((x, None)),
            None => None,
        },
    }
}

pub open spec fn point_text(pt: (Seq<char>, Option<Seq<char>>)) -> Seq<char> {
    pt.0 + match pt.1 {
        Some(c) => seq![':'] + c,
        None => Seq::empty(),
    }
}

/// A `#L12C3-L14` fragment as the `:12:3-14` suffix shown after a path.
pub open spec fn hash_location_suffix(fragment: Seq<char>) -> Option<Seq<char>> {
    match hash_range(fragment) {
        Some((a, b)) => Some(
            seq![':'] + point_text(a) + match b {
                Some(e) => seq!['-'] + point_text(e),
                None => Seq::empty(),
            },
        ),
        None => None,
    }
}

fn push_point(out: &mut Vec<char>, line: &Vec<char>, column: &Option<Vec<char>>)
    ensures
        final(out)@ == old(out)@ + point_text(
            (
                line@,
                match column {
                    Some(c) => Some(c@),
                    None => None,
                },
            ),
        ),
{
    append(out, line.as_slice());
    match column {
        Some(c) => {
            out.push(':');
            append(out, c.as_slice());
        },
        None => {},
    }
}

pub fn normalize_hash_location_suffix_fragment(fragment: &[char]) -> (r: Option<Vec<char>>)
    ensures
        match r {
            Some(v) => hash_location_suffix(fragment@) == Some(v@),
            None => hash_location_suffix(fragment@) is None,
        },
{
    let (start, end) = match split_once_at_char(fragment, '-') {
        Some((a, b)) => {
            let x = match parse_hash_location_point(a.as_slice()) {
                Some(x) => x,
                None => {
                    return None;
                },
            };
            let y = match parse_hash_location_point(b.as_slice()) {
                Some(y) => y,
                None => {
                    return None;
                },
            };
            (x, Some(y))
        },
        None => {
            match parse_hash_location_point(fragment) {
                Some(x) => (x, None),
                None => {
                    return None;
                },
            }
        },
    };
    let mut out: Vec<char> = vec![':'];
    push_point(&mut out, &start.0, &start.1);
    match &end {
        Some(e) => {
            out.push('-');
            push_point(&mut out, &e.0, &e.1);
        },
        None => {},
    }
    Some(out)
}

// ---------------------------------------------------------------------------
// Link targets
// ---------------------------------------------------------------------------
/// What `url::Url::parse` gives, as the link display reads it: the
/// percent-encoded path, the host, the fragment, and what `to_file_path`
/// made of the address (lossily as text).
pub struct ParsedUrl {
    pub path: String,
    pub host: Option<String>,
    pub fragment: Option<String>,
    pub file_path: Option<String>,
}

/// The path, host and fragment `url::Url::parse` finds in an address, or
/// `None` when it refuses it.
pub uninterp spec fn url_parts(input: Seq<char>) -> Option<
    (Seq<char>, Option<Seq<char>>, Option<Seq<char>>),
>;

pub open spec fn opt_text(o: Option<String>) -> Option<Seq<char>> {
    match o {
        Some(s) => Some(s@),
        None => None,
    }
}

/// Calls `url::Url::parse`, then `path`, `host_str`, `fragment` and
/// `to_file_path` on the result. Claimed: the first three depend on the
/// address alone (named `url_parts`). Nothing is claimed of `file_path`,
/// which differs between platforms.
#[verifier::external_body]
fn parse_url(input: &str) -> (r: Option<ParsedUrl>)
    ensures
        match r {
            Some(u) => url_parts(input@) == Some((u.path@, opt_text(u.host), opt_text(u.fragment))),
            None => url_parts(input@) is None,
        },
{
    match url::Url::parse(input) {
        Ok(url) => Some(ParsedUrl {
            path: url.path().to_owned(),
            host: url.host_str().map(str::to_owned),
            fragment: url.fragment().map(str::to_owned),
            file_path: url.to_file_path().ok().map(|p| p.to_string_lossy().into_owned()),
        }),
        Err(_) => None,
    }
}

/// The local path of a `file:` address: what `to_file_path` gave when it
/// could; otherwise the decoded path, after `//host` for a host other than
/// `localhost`, or without the slash before a drive (`/C:/...`).
pub open spec fn file_url_path_text(
    path: Seq<char>,
    host: Option<Seq<char>>,
    file_path: Option<Seq<char>>,
) -> Seq<char> {
    match file_path {
        Some(fp) => normalized_local_path(fp),
        None => {
            let pt = percent_decoded_text(path);
            let t = match host {
                Some(h) => if h.len() > 0 && h != "localhost"@ {
                    seq!['/', '/'] + h + pt
                } else if pt.len() >= 4 && pt[0] == '/' && has_drive_root(pt.skip(1)) {
                    pt.skip(1)
                } else {
                    pt
                },
                None => if pt.len() >= 4 && pt[0] == '/' && has_drive_root(pt.skip(1)) {
                    pt.skip(1)
                } else {
                    pt
                },
            };
            normalized_local_path(t)
        },
    }
}

pub fn file_url_to_local_path_text(u: &ParsedUrl) -> (r: String)
    ensures
        r@ == file_url_path_text(u.path@, opt_text(u.host), opt_text(u.file_path)),
{
    if let Some(fp) = &u.file_path {
        return normalize_local_link_path_text(fp.as_str());
    }
    let decoded = percent_decode_path_text(u.path.as_str());
    let pt = chars_of(decoded.as_str());
    let mut t: Vec<char> = Vec::new();
    let remote = match &u.host {
        Some(h) => {
            let hv = chars_of(h.as_str());
            let local = chars_of("localhost");
            hv.len() > 0 && !eq_chars(hv.as_slice(), local.as_slice())
        },
        None => false,
    };
    if remote {
        let h = u.host.as_ref().unwrap();
        t.push('/');
        t.push('/');
        push_str(&mut t, h.as_str());
        append(&mut t, pt.as_slice());
        assert(t@ =~= seq!['/', '/'] + h@ + pt@);
    } else {
        let tail = slice_vec(pt.as_slice(), 1.min(pt.len()), pt.len());
        if pt.len() >= 4 && pt[0] == '/' && drive_root(tail.as_slice()) {
            assert(tail@ =~= pt@.skip(1));
            append(&mut t, tail.as_slice());
        } else {
            assert(pt.len() >= 4 && pt@[0] == '/' ==> tail@ =~= pt@.skip(1));
            append(&mut t, pt.as_slice());
        }
    }
    let ts = string_of(t.as_slice());
    normalize_local_link_path_text(ts.as_str())
}

/// A local link split into the file path shown and its location suffix.
/// `url` is what parsing a `file:` address gave (path, host, fragment and
/// platform file path); other links do not look at it.
pub open spec fn local_target_of(
    dest: Seq<char>,
    home: Option<Seq<char>>,
    url: Option<(Seq<char>, Option<Seq<char>>, Option<Seq<char>>, Option<Seq<char>>)>,
) -> Option<(Seq<char>, Option<Seq<char>>)> {
    if starts_with(dest, "file://"@) {
        match url {
            None => None,
            Some(u) => Some(
                (
                    file_url_path_text(u.0, u.1, u.3),
                    match u.2 {
                        Some(f) => hash_location_suffix(f),
                        None => None,
                    },
                ),
            ),
        }
    } else {
        let k = rfind_char_before(dest, '#', dest.len() as int);
        let hashed = if k >= 0 {
            hash_location_suffix(dest.skip(k + 1))
        } else {
            None
        };
        match hashed {
            Some(sfx) => Some((expanded_local_path(dest.take(k), home), Some(sfx))),
            None => match colon_location_suffix(dest) {
                Some(sfx) => Some(
                    (expanded_local_path(dest.take(dest.len() - sfx.len()), home), Some(sfx)),
                ),
                None => Some((expanded_local_path(dest, home), None)),
            },
        }
    }
}

pub open spec fn parsed_url_view(u: ParsedUrl) -> (
    Seq<char>,
    Option<Seq<char>>,
    Option<Seq<char>>,
    Option<Seq<char>>,
) {
    (u.path@, opt_text(u.host), opt_text(u.fragment), opt_text(u.file_path))
}

pub open spec fn target_view(r: Option<(String, Option<String>)>) -> Option<
    (Seq<char>, Option<Seq<char>>),
> {
    match r {
        Some((p, s)) => Some((p@, opt_text(s))),
        None => None,
    }
}

fn vec_text(v: Option<Vec<char>>) -> (r: Option<String>)
    ensures
        opt_text(r) == match v {
            Some(v) => Some(v@),
            None => None,
        },
{
    match v {
        Some(v) => Some(string_of(v.as_slice())),
        None => None,
    }
}

/// Splits a local link into path and location suffix, given what parsing
/// it as a URL gave (looked at only for a `file:` link).
pub fn local_link_target(dest: &str, home: Option<&str>, url: Option<ParsedUrl>) -> (r: Option<
    (String, Option<String>),
>)
    ensures
        target_view(r) == local_target_of(
            dest@,
            opt_str(home),
            match url {
                Some(u) => Some(parsed_url_view(u)),
                None => None,
            },
        ),
{
    let d = chars_of(dest);
    let scheme = chars_of("file://");
    if has_prefix(d.as_slice(), scheme.as_slice()) {
        return match url {
            None => None,
            Some(u) => {
                let path = file_url_to_local_path_text(&u);
                let suffix = match &u.fragment {
                    Some(f) => {
                        let fc = chars_of(f.as_str());
                        vec_text(normalize_hash_location_suffix_fragment(fc.as_slice()))
                    },
                    None => None,
                };
                Some((path, suffix))
            },
        };
    }
    if let Some(k) = rfind_char(d.as_slice(), '#') {
        let fragment = slice_vec(d.as_slice(), k + 1, d.len());
        assert(fragment@ =~= dest@.skip(k + 1));
        if let Some(sfx) = normalize_hash_location_suffix_fragment(fragment.as_slice()) {
            let head = slice_vec(d.as_slice(), 0, k);
            let hs = string_of(head.as_slice());
            return Some((expand_local_link_path(hs.as_str(), home), Some(string_of(sfx.as_slice()))));
        }
    }
    match extract_colon_location_suffix(d.as_slice()) {
        Some(sfx) => {
            proof {
                assert(sfx@.len() <= dest@.len()) by {
                    let k1 = rfind_char_before(dest@, ':', dest@.len() as int);
                    lemma_rfind_bounds(dest@, ':', dest@.len() as int);
                    lemma_rfind_bounds(dest@, ':', k1);
                }
            }
            let head = slice_vec(d.as_slice(), 0, d.len() - sfx.len());
            let hs = string_of(head.as_slice());
            Some((expand_local_link_path(hs.as_str(), home), Some(string_of(sfx.as_slice()))))
        },
        None => Some((expand_local_link_path(dest, home), None)),
    }
}

pub open spec fn opt_str(o: Option<&str>) -> Option<Seq<char>> {
    match o {
        Some(s) => Some(s@),
        None => None,
    }
}

/// Splits a local link into path and location suffix, parsing a `file:`
/// link as a URL. For a `file:` link the path is what the platform's file
/// path conversion gave, or the decoded URL path when it gave nothing.
pub fn parse_local_link_target(dest: &str, home: Option<&str>) -> (r: Option<
    (String, Option<String>),
>)
    ensures
        !starts_with(dest@, "file://"@) ==> target_view(r) == local_target_of(
            dest@,
            opt_str(home),
            None,
        ),
        starts_with(dest@, "file://"@) ==> match url_parts(dest@) {
            None => r is None,
            Some(u) => exists|file_path: Option<Seq<char>>|
                target_view(r) == local_target_of(
                    dest@,
                    opt_str(home),
                    Some((u.0, u.1, u.2, file_path)),
                ),
        },
{
    let d = chars_of(dest);
    let scheme = chars_of("file://");
    if has_prefix(d.as_slice(), scheme.as_slice()) {
        let url = parse_url(dest);
        let ghost gv = match &url {
            Some(u) => Some(parsed_url_view(*u)),
            None => None,
        };
        let r = local_link_target(dest, home, url);
        proof {
            match url_parts(dest@) {
                Some(u) => {
                    let fp = gv.unwrap().3;
                    assert(gv == Some((u.0, u.1, u.2, fp)));
                    assert(target_view(r) == local_target_of(
                        dest@,
                        opt_str(home),
                        Some((u.0, u.1, u.2, fp)),
                    ));
                },
                None => {},
            }
        }
        return r;
    }
    local_link_target(dest, home, None)
}

/// How a local link target is shown: its path (relative to the working
/// directory when below it) followed by its location suffix.
pub open spec fn rendered_local_target(
    target: Option<(Seq<char>, Option<Seq<char>>)>,
    cwd: Option<Seq<char>>,
) -> Option<Seq<char>> {
    match target {
        Some((p, s)) => Some(
            displayed_local_path(p, cwd) + match s {
                Some(s) => s,
                None => Seq::empty(),
            },
        ),
        None => None,
    }
}

/// `shown` is how the local link `dest` is shown, for some result of the
/// platform's conversion of a `file:` address to a path.
pub open spec fn shows_local_target(
    dest: Seq<char>,
    cwd: Option<Seq<char>>,
    home: Option<Seq<char>>,
    shown: Option<Seq<char>>,
) -> bool {
    exists|t: Option<(Seq<char>, Option<Seq<char>>)>|
        {
            &&& (!starts_with(dest, "file://"@) ==> t == local_target_of(dest, home, None))
            &&& (starts_with(dest, "file://"@) ==> match url_parts(dest) {
                None => t is None,
                Some(u) => exists|file_path: Option<Seq<char>>|
                    t == local_target_of(dest, home, Some((u.0, u.1, u.2, file_path))),
            })
            &&& shown == rendered_local_target(t, cwd)
        }
}

pub fn render_local_link_target(dest: &str, cwd: Option<&str>, home: Option<&str>) -> (r: Option<
    String,
>)
    ensures
        shows_local_target(dest@, opt_str(cwd), opt_str(home), opt_text(r)),
{
    let t = parse_local_link_target(dest, home);
    match t {
        None => {
            assert(opt_text(None) == rendered_local_target(target_view(t), opt_str(cwd)));
            None
        },
        Some((path, suffix)) => {
            let shown = display_local_link_path(path.as_str(), cwd);
            let mut v = chars_of(shown.as_str());
            match &suffix {
                Some(s) => push_str(&mut v, s.as_str()),
                None => {},
            }
            let r = Some(string_of(v.as_slice()));
            assert(opt_text(r) == rendered_local_target(target_view(t), opt_str(cwd)));
            r
        },
    }
}

/// Links that name a local file: `file:` addresses, absolute, home-relative
/// and relative paths, UNC paths and Windows drive paths.
pub open spec fn is_local_path_like(d: Seq<char>) -> bool {
    ||| starts_with(d, "file://"@)
    ||| starts_with(d, seq!['/'])
    ||| starts_with(d, seq!['~', '/'])
    ||| starts_with(d, seq!['.', '/'])
    ||| starts_with(d, seq!['.', '.', '/'])
    ||| starts_with(d, seq!['\\', '\\'])
    ||| (d.len() >= 3 && is_ascii_alpha(d[0]) && d[1] == ':' && (d[2] == '/' || d[2] == '\\'))
}

pub fn is_local_path_like_link(dest: &str) -> (b: bool)
    ensures
        b == is_local_path_like(dest@),
{
    let d = chars_of(dest);
    let scheme = chars_of("file://");
    let dot: Vec<char> = vec!['.', '/'];
    let dotdot: Vec<char> = vec!['.', '.', '/'];
    assert(dot@ =~= seq!['.', '/']);
    assert(dotdot@ =~= seq!['.', '.', '/']);
    proof {
        lemma_starts_with_one(d@, '/');
        lemma_starts_with_two(d@, '~', '/');
        lemma_starts_with_two(d@, '\\', '\\');
    }
    has_prefix(d.as_slice(), scheme.as_slice()) || (d.len() > 0 && d[0] == '/') || (d.len() > 1
        && d[0] == '~' && d[1] == '/') || has_prefix(d.as_slice(), dot.as_slice()) || has_prefix(
        d.as_slice(),
        dotdot.as_slice(),
    ) || (d.len() > 1 && d[0] == '\\' && d[1] == '\\') || (d.len() >= 3 && (('a' <= d[0] && d[0]
        <= 'z') || ('A' <= d[0] && d[0] <= 'Z')) && d[1] == ':' && (d[2] == '/' || d[2] == '\\'))
}

// ---------------------------------------------------------------------------
// Bare web addresses
// ---------------------------------------------------------------------------
/// A span with its text taken as a plain value.
pub enum SpanView {
    Plain(Seq<char>),
    Bold(Seq<char>),
    Styled(Seq<char>, PreviewTextStyle),
    Code(Seq<char>),
    Link(Seq<char>, Seq<char>, PreviewSourceRange, bool),
    Syntax(Seq<char>, PreviewStyle),
}

pub open spec fn span_view(sp: PreviewSpan) -> SpanView {
    match sp {
        PreviewSpan::Plain(t) => SpanView::Plain(t@),
        PreviewSpan::Bold(t) => SpanView::Bold(t@),
        PreviewSpan::StyledText { text, style } => SpanView::Styled(text@, style),
        PreviewSpan::Code(t) => SpanView::Code(t@),
        PreviewSpan::Link { text, target, source_range, local } => SpanView::Link(
            text@,
            target@,
            source_range,
            local,
        ),
        PreviewSpan::Syntax { text, style } => SpanView::Syntax(text@, style),
    }
}

pub open spec fn span_views(v: Seq<PreviewSpan>) -> Seq<SpanView> {
    Seq::new(v.len(), |i: int| span_view(v[i]))
}

pub open spec fn is_trailing_punct(c: char) -> bool {
    c == '.' || c == ',' || c == ';' || c == ':' || c == '!' || c == '?' || c == ')'
}

/// Where the run of trailing sentence punctuation of `s` starts.
pub open spec fn punct_start(s: Seq<char>) -> int
    decreases s.len(),
{
    if s.len() > 0 && is_trailing_punct(s.last()) {
        punct_start(s.drop_last())
    } else {
        s.len() as int
    }
}

pub proof fn lemma_punct_start(s: Seq<char>)
    ensures
        0 <= punct_start(s) <= s.len(),
    decreases s.len(),
{
    if s.len() > 0 && is_trailing_punct(s.last()) {
        lemma_punct_start(s.drop_last());
    }
}

/// Splits off the trailing sentence punctuation of a bare address.
pub fn split_bare_url_trailing_punctuation(text: &[char]) -> (r: (Vec<char>, Vec<char>))
    ensures
        0 <= punct_start(text@) <= text@.len(),
        r.0@ == text@.take(punct_start(text@)),
        r.1@ == text@.skip(punct_start(text@)),
{
    proof {
        lemma_punct_start(text@);
    }
    let mut k = text.len();
    assert(text@.take(k as int) =~= text@);
    while k > 0 && (text[k - 1] == '.' || text[k - 1] == ',' || text[k - 1] == ';' || text[k - 1]
        == ':' || text[k - 1] == '!' || text[k - 1] == '?' || text[k - 1] == ')')
        invariant
            k <= text.len(),
            punct_start(text@.take(k as int)) == punct_start(text@),
        decreases k,
    {
        assert(text@.take(k as int).drop_last() =~= text@.take(k - 1));
        k = k - 1;
    }
    assert(text@.take(k as int).len() == k);
    assert(punct_start(text@.take(k as int)) == k);
    (slice_vec(text, 0, k), slice_vec(text, k, text.len()))
}

pub proof fn lemma_encode_prefix_len(s: Seq<char>, k: int)
    requires
        0 <= k <= s.len(),
    ensures
        encode_utf8(s.take(k)).len() <= encode_utf8(s).len(),
    decreases s.len(),
{
    if k > 0 {
        assert(s.take(k).drop_first() =~= s.drop_first().take(k - 1));
        assert(s.take(k)[0] == s[0]);
        lemma_encode_prefix_len(s.drop_first(), k - 1);
    } else {
        assert(s.take(0) =~= Seq::<char>::empty());
    }
}

pub open spec fn has_ws(s: Seq<char>) -> bool {
    exists|i: int| 0 <= i < s.len() && is_ws(s[i])
}

/// A word that is a bare `http(s)://` address becomes a link (its source
/// range starting at `start`, its end counted in UTF-8 bytes), with the
/// sentence punctuation after it kept as plain text.
pub open spec fn bare_url_spans_of(text: Seq<char>, start: int) -> Option<Seq<SpanView>> {
    if text.len() == 0 || has_ws(text) || !(starts_with(text, "https://"@) || starts_with(
        text,
        "http://"@,
    )) {
        None
    } else {
        let k = punct_start(text);
        let url = text.take(k);
        let trailing = text.skip(k);
        if url.len() == 0 {
            None
        } else {
            Some(
                seq![
                    SpanView::Link(
                        url,
                        url,
                        PreviewSourceRange {
                            start: start as usize,
                            end: (start + encode_utf8(url).len()) as usize,
                        },
                        false,
                    ),
                ] + if trailing.len() > 0 {
                    seq![SpanView::Plain(trailing)]
                } else {
                    Seq::empty()
                },
            )
        }
    }
}

pub fn any_whitespace(s: &[char]) -> (b: bool)
    ensures
        b == has_ws(s@),
{
    let mut i: usize = 0;
    while i < s.len()
        invariant
            i <= s.len(),
            forall|k: int| 0 <= k < i ==> !is_ws(#[trigger] s@[k]),
        decreases s.len() - i,
    {
        if char_is_ws(s[i]) {
            return true;
        }
        i = i + 1;
    }
    false
}

pub fn bare_url_spans(text: &str, start: usize) -> (r: Option<Vec<PreviewSpan>>)
    requires
        start + encode_utf8(text@).len() <= usize::MAX,
    ensures
        match r {
            Some(v) => bare_url_spans_of(text@, start as int) == Some(span_views(v@)),
            None => bare_url_spans_of(text@, start as int) is None,
        },
{
    let t = chars_of(text);
    let https = chars_of("https://");
    let http = chars_of("http://");
    if t.len() == 0 || any_whitespace(t.as_slice()) || !(has_prefix(t.as_slice(), https.as_slice())
        || has_prefix(t.as_slice(), http.as_slice())) {
        return None;
    }
    let (url, trailing) = split_bare_url_trailing_punctuation(t.as_slice());
    if url.len() == 0 {
        return None;
    }
    let url_text = string_of(url.as_slice());
    proof {
        lemma_encode_prefix_len(text@, punct_start(text@));
    }
    let end = start + url_text.as_str().len();
    let mut spans: Vec<PreviewSpan> = Vec::new();
    spans.push(
        PreviewSpan::Link {
            text: string_of(url.as_slice()),
            target: url_text,
            source_range: PreviewSourceRange { start, end },
            local: false,
        },
    );
    if trailing.len() > 0 {
        spans.push(PreviewSpan::Plain(string_of(trailing.as_slice())));
    }
    assert(span_views(spans@) =~= bare_url_spans_of(text@, start as int).unwrap());
    Some(spans)
}

} // verus!
