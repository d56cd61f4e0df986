//! Character-sequence primitives shared by every text-processing module.
//!
//! Every exec function here works on `&[char]` and is specified over the
//! mathematical sequence of characters, so the higher-level parsers and
//! renderers can state their contracts in terms of `Seq<char>`.
use vstd::prelude::*;

verus! {

// ---------------------------------------------------------------------------
// Character classes
// ---------------------------------------------------------------------------
/// Unicode `White_Space`, the property `char::is_whitespace` (and therefore
/// `str::trim`, `str::split_whitespace`) is defined by.
pub open spec fn is_ws(c: char) -> bool {
    ||| c == '\t'
    ||| c == '\n'
    ||| c == '\u{0B}'
    ||| c == '\u{0C}'
    ||| c == '\r'
    ||| c == ' '
    ||| c == '\u{85}'
    ||| c == '\u{A0}'
    ||| c == '\u{1680}'
    ||| ('\u{2000}' <= c && c <= '\u{200A}')
    ||| c == '\u{2028}'
    ||| c == '\u{2029}'
    ||| c == '\u{202F}'
    ||| c == '\u{205F}'
    ||| c == '\u{3000}'
}

pub fn char_is_ws(c: char) -> (b: bool)
    ensures
        b == is_ws(c),
{
    c == '\t' || c == '\n' || c == '\u{0B}' || c == '\u{0C}' || c == '\r' || c == ' ' || c
        == '\u{85}' || c == '\u{A0}' || c == '\u{1680}' || ('\u{2000}' <= c && c <= '\u{200A}')
        || c == '\u{2028}' || c == '\u{2029}' || c == '\u{202F}' || c == '\u{205F}' || c
        == '\u{3000}'
}

pub open spec fn is_digit(c: char) -> bool {
    '0' <= c && c <= '9'
}

pub fn char_is_digit(c: char) -> (b: bool)
    ensures
        b == is_digit(c),
{
    '0' <= c && c <= '9'
}

pub open spec fn is_ascii_alnum(c: char) -> bool {
    is_digit(c) || ('a' <= c && c <= 'z') || ('A' <= c && c <= 'Z')
}

pub fn char_is_ascii_alnum(c: char) -> (b: bool)
    ensures
        b == is_ascii_alnum(c),
{
    ('0' <= c && c <= '9') || ('a' <= c && c <= 'z') || ('A' <= c && c <= 'Z')
}

/// `char::to_ascii_lowercase`.
pub open spec fn ascii_lower(c: char) -> char {
    if 'A' <= c && c <= 'Z' {
        ((c as u32) + 32) as char
    } else {
        c
    }
}

pub fn char_ascii_lower(c: char) -> (r: char)
    ensures
        r == ascii_lower(c),
{
    if 'A' <= c && c <= 'Z' {
        let b = c as u8;
        assert(b as int == c as int);
        (b + 32) as char
    } else {
        c
    }
}

pub open spec fn ascii_lower_seq(s: Seq<char>) -> Seq<char> {
    s.map_values(|c: char| ascii_lower(c))
}

pub fn ascii_lowercase(s: &[char]) -> (r: Vec<char>)
    ensures
        r@ == ascii_lower_seq(s@),
{
    let mut r: Vec<char> = Vec::new();
    for i in 0..s.len()
        invariant
            r@ == ascii_lower_seq(s@.take(i as int)),
    {
        r.push(char_ascii_lower(s[i]));
        assert(ascii_lower_seq(s@.take(i + 1)) == ascii_lower_seq(s@.take(i as int)).push(
            ascii_lower(s@[i as int]),
        ));
    }
    assert(s@.take(s@.len() as int) == s@);
    r
}

// ---------------------------------------------------------------------------
// Trimming
// ---------------------------------------------------------------------------
/// Index of the first non-whitespace character at or after `i`.
pub open spec fn skip_ws_from(s: Seq<char>, i: int) -> int
    decreases s.len() - i,
{
    if 0 <= i < s.len() && is_ws(s[i]) {
        skip_ws_from(s, i + 1)
    } else {
        i
    }
}

/// End of `s.take(j)` once trailing whitespace is removed.
pub open spec fn ws_end_before(s: Seq<char>, j: int) -> int
    decreases j,
{
    if 0 < j <= s.len() && is_ws(s[j - 1]) {
        ws_end_before(s, j - 1)
    } else {
        j
    }
}

/// `str::trim_start`.
pub open spec fn trim_start(s: Seq<char>) -> Seq<char> {
    s.skip(skip_ws_from(s, 0))
}

/// `str::trim_end`.
pub open spec fn trim_end(s: Seq<char>) -> Seq<char> {
    s.take(ws_end_before(s, s.len() as int))
}

/// `str::trim`.
pub open spec fn trim(s: Seq<char>) -> Seq<char> {
    trim_end(trim_start(s))
}

pub proof fn lemma_skip_ws_bounds(s: Seq<char>, i: int)
    requires
        0 <= i <= s.len(),
    ensures
        i <= skip_ws_from(s, i) <= s.len(),
    decreases s.len() - i,
{
    if i < s.len() && is_ws(s[i]) {
        lemma_skip_ws_bounds(s, i + 1);
    }
}

pub proof fn lemma_ws_end_bounds(s: Seq<char>, j: int)
    requires
        0 <= j <= s.len(),
    ensures
        0 <= ws_end_before(s, j) <= j,
    decreases j,
{
    if 0 < j && is_ws(s[j - 1]) {
        lemma_ws_end_bounds(s, j - 1);
    }
}

pub fn first_non_ws(s: &[char]) -> (i: usize)
    ensures
        i == skip_ws_from(s@, 0),
        i <= s.len(),
{
    let mut i: usize = 0;
    while i < s.len() && char_is_ws(s[i])
        invariant
            i <= s.len(),
            skip_ws_from(s@, 0) == skip_ws_from(s@, i as int),
        decreases s.len() - i,
    {
        i = i + 1;
    }
    i
}

pub fn end_non_ws(s: &[char]) -> (j: usize)
    ensures
        j == ws_end_before(s@, s@.len() as int),
        j <= s.len(),
{
    let mut j: usize = s.len();
    while j > 0 && char_is_ws(s[j - 1])
        invariant
            j <= s.len(),
            ws_end_before(s@, s@.len() as int) == ws_end_before(s@, j as int),
        decreases j,
    {
        j = j - 1;
    }
    j
}

pub fn slice_vec(s: &[char], from: usize, to: usize) -> (r: Vec<char>)
    requires
        from <= to <= s.len(),
    ensures
        r@ == s@.subrange(from as int, to as int),
{
    let mut r: Vec<char> = Vec::new();
    let mut k = from;
    while k < to
        invariant
            from <= k <= to <= s.len(),
            r@ == s@.subrange(from as int, k as int),
        decreases to - k,
    {
        r.push(s[k]);
        k = k + 1;
    }
    r
}

pub fn trim_start_chars(s: &[char]) -> (r: Vec<char>)
    ensures
        r@ == trim_start(s@),
{
    let i = first_non_ws(s);
    slice_vec(s, i, s.len())
}

pub fn trim_end_chars(s: &[char]) -> (r: Vec<char>)
    ensures
        r@ == trim_end(s@),
{
    let j = end_non_ws(s);
    slice_vec(s, 0, j)
}

pub fn trim_chars(s: &[char]) -> (r: Vec<char>)
    ensures
        r@ == trim(s@),
{
    let a = trim_start_chars(s);
    trim_end_chars(a.as_slice())
}

// ---------------------------------------------------------------------------
// Prefixes, suffixes, searching
// ---------------------------------------------------------------------------
pub open spec fn starts_with(s: Seq<char>, p: Seq<char>) -> bool {
    p.len() <= s.len() && s.take(p.len() as int) == p
}

pub open spec fn ends_with(s: Seq<char>, p: Seq<char>) -> bool {
    p.len() <= s.len() && s.skip(s.len() - p.len()) == p
}

/// Whether `p` occurs in `s` at index `i`.
pub open spec fn occurs_at(s: Seq<char>, p: Seq<char>, i: int) -> bool {
    0 <= i && i + p.len() <= s.len() && s.subrange(i, i + p.len()) == p
}

pub fn matches_at(s: &[char], p: &[char], i: usize) -> (b: bool)
    ensures
        b == occurs_at(s@, p@, i as int),
{
    if i > s.len() || p.len() > s.len() - i {
        return false;
    }
    let mut k: usize = 0;
    while k < p.len()
        invariant
            i + p.len() <= s.len(),
            k <= p.len(),
            forall|t: int| 0 <= t < k ==> s@[i + t] == p@[t],
        decreases p.len() - k,
    {
        if s[i + k] != p[k] {
            assert(s@.subrange(i as int, i + p@.len())[k as int] != p@[k as int]);
            return false;
        }
        k = k + 1;
    }
    assert(s@.subrange(i as int, i + p@.len()) =~= p@);
    true
}

pub fn has_prefix(s: &[char], p: &[char]) -> (b: bool)
    ensures
        b == starts_with(s@, p@),
{
    let b = matches_at(s, p, 0);
    proof {
        if p@.len() <= s@.len() {
            assert(s@.subrange(0, p@.len() as int) == s@.take(p@.len() as int));
        }
    }
    b
}

pub fn has_suffix(s: &[char], p: &[char]) -> (b: bool)
    ensures
        b == ends_with(s@, p@),
{
    if p.len() > s.len() {
        return false;
    }
    let b = matches_at(s, p, s.len() - p.len());
    proof {
        assert(s@.subrange(s@.len() - p@.len(), s@.len() as int) == s@.skip(
            s@.len() - p@.len(),
        ));
    }
    b
}

/// First index at or after `i` holding `c`, or `s.len()` when there is none.
pub open spec fn find_char_from(s: Seq<char>, c: char, i: int) -> int
    decreases s.len() - i,
{
    if i < 0 {
        s.len() as int
    } else if i >= s.len() {
        s.len() as int
    } else if s[i] == c {
        i
    } else {
        find_char_from(s, c, i + 1)
    }
}

pub proof fn lemma_find_char_from(s: Seq<char>, c: char, i: int)
    requires
        0 <= i <= s.len(),
    ensures
        i <= find_char_from(s, c, i) <= s.len(),
        find_char_from(s, c, i) < s.len() ==> s[find_char_from(s, c, i)] == c,
        forall|k: int| i <= k < find_char_from(s, c, i) ==> s[k] != c,
    decreases s.len() - i,
{
    if i < s.len() && s[i] != c {
        lemma_find_char_from(s, c, i + 1);
    }
}

pub fn find_char(s: &[char], c: char, from: usize) -> (i: usize)
    requires
        from <= s.len(),
    ensures
        i == find_char_from(s@, c, from as int),
        from <= i <= s.len(),
{
    let mut i = from;
    while i < s.len() && s[i] != c
        invariant
            from <= i <= s.len(),
            find_char_from(s@, c, from as int) == find_char_from(s@, c, i as int),
        decreases s.len() - i,
    {
        i = i + 1;
    }
    i
}

pub open spec fn contains_char(s: Seq<char>, c: char) -> bool {
    find_char_from(s, c, 0) < s.len()
}

/// First index at or after `i` where `p` occurs, if any.
pub open spec fn find_from(s: Seq<char>, p: Seq<char>, i: int) -> Option<int>
    decreases s.len() + 1 - i,
{
    if i < 0 || i + p.len() > s.len() {
        None
    } else if occurs_at(s, p, i) {
        Some(i)
    } else {
        find_from(s, p, i + 1)
    }
}

pub open spec fn find(s: Seq<char>, p: Seq<char>) -> Option<int> {
    find_from(s, p, 0)
}

pub open spec fn contains(s: Seq<char>, p: Seq<char>) -> bool {
    find(s, p) is Some
}

pub proof fn lemma_find_from(s: Seq<char>, p: Seq<char>, i: int)
    requires
        0 <= i,
    ensures
        find_from(s, p, i) matches Some(k) ==> i <= k && k + p.len() <= s.len() && occurs_at(
            s,
            p,
            k,
        ),
        find_from(s, p, i) matches Some(k) ==> forall|t: int| i <= t < k ==> !occurs_at(s, p, t),
        find_from(s, p, i) is None ==> forall|t: int| i <= t ==> !occurs_at(s, p, t),
    decreases s.len() + 1 - i,
{
    if i + p.len() > s.len() {
    } else if occurs_at(s, p, i) {
    } else {
        lemma_find_from(s, p, i + 1);
    }
}

pub fn find_seq(s: &[char], p: &[char], from: usize) -> (r: Option<usize>)
    ensures
        match r {
            Some(k) => find_from(s@, p@, from as int) == Some(k as int),
            None => find_from(s@, p@, from as int) is None,
        },
{
    let mut i = from;
    loop
        invariant
            from <= i,
            find_from(s@, p@, from as int) == find_from(s@, p@, i as int),
        decreases s.len() + 1 - i,
    {
        if i > s.len() || p.len() > s.len() - i {
            return None;
        }
        if matches_at(s, p, i) {
            return Some(i);
        }
        proof {
            if p@.len() == 0 {
                assert(s@.subrange(i as int, i as int) =~= p@);
            }
        }
        i = i + 1;
    }
}

pub fn has_seq(s: &[char], p: &[char]) -> (b: bool)
    ensures
        b == contains(s@, p@),
{
    find_seq(s, p, 0).is_some()
}

pub fn eq_chars(a: &[char], b: &[char]) -> (r: bool)
    ensures
        r == (a@ == b@),
{
    if a.len() != b.len() {
        return false;
    }
    let r = matches_at(a, b, 0);
    proof {
        if r {
            assert(a@ =~= a@.subrange(0, b@.len() as int));
        } else {
            assert(a@.subrange(0, b@.len() as int) =~= a@);
        }
    }
    r
}

/// The character sequences held by a vector of character vectors.
pub open spec fn seqs(v: Seq<Vec<char>>) -> Seq<Seq<char>> {
    v.map_values(|x: Vec<char>| x@)
}

// ---------------------------------------------------------------------------
// Lines
// ---------------------------------------------------------------------------
/// Drops one trailing `'\r'`, as `str::lines` does before a `'\n'`.
pub open spec fn strip_cr(s: Seq<char>) -> Seq<char> {
    if s.len() > 0 && s.last() == '\r' {
        s.drop_last()
    } else {
        s
    }
}

/// The lines of `s` starting at index `start` (`str::lines`).
pub open spec fn lines_from(s: Seq<char>, start: int) -> Seq<Seq<char>>
    decreases s.len() - start,
{
    if start < 0 || start >= s.len() {
        Seq::empty()
    } else {
        let e = find_char_from(s, '\n', start);
        proof {
            lemma_find_char_from(s, '\n', start);
        }
        if e < s.len() {
            seq![strip_cr(s.subrange(start, e))] + lines_from(s, e + 1)
        } else {
            seq![s.subrange(start, s.len() as int)]
        }
    }
}

/// `str::lines`: pieces between `'\n'`, a trailing `'\r'` dropped before each
/// `'\n'`, and no final empty piece.
pub open spec fn lines(s: Seq<char>) -> Seq<Seq<char>> {
    lines_from(s, 0)
}

pub fn strip_cr_vec(s: Vec<char>) -> (r: Vec<char>)
    ensures
        r@ == strip_cr(s@),
{
    let mut s = s;
    if s.len() > 0 && s[s.len() - 1] == '\r' {
        s.pop();
    }
    s
}

/// Splits `s` into its lines.
pub fn lines_of(s: &[char]) -> (out: Vec<Vec<char>>)
    ensures
        seqs(out@) == lines(s@),
{
    let mut out: Vec<Vec<char>> = Vec::new();
    let mut pos: usize = 0;
    while pos < s.len()
        invariant
            pos <= s.len(),
            seqs(out@) + lines_from(s@, pos as int) == lines(s@),
        decreases s.len() - pos,
    {
        let e = find_char(s, '\n', pos);
        let piece = slice_vec(s, pos, e);
        let ghost before = seqs(out@);
        if e < s.len() {
            let line = strip_cr_vec(piece);
            out.push(line);
            assert(seqs(out@) =~= before.push(strip_cr(s@.subrange(pos as int, e as int))));
            assert(before + lines_from(s@, pos as int) =~= seqs(out@) + lines_from(
                s@,
                e + 1,
            ));
            pos = e + 1;
        } else {
            out.push(piece);
            assert(seqs(out@) =~= before.push(s@.subrange(pos as int, s@.len() as int)));
            assert(lines_from(s@, s@.len() as int) == Seq::<Seq<char>>::empty());
            assert(before + lines_from(s@, pos as int) =~= seqs(out@) + lines_from(
                s@,
                s@.len() as int,
            ));
            pos = s.len();
        }
    }
    assert(seqs(out@) + lines_from(s@, pos as int) =~= seqs(out@));
    out
}

// ---------------------------------------------------------------------------
// Joining
// ---------------------------------------------------------------------------
/// `pieces.join(sep)`.
pub open spec fn join(pieces: Seq<Seq<char>>, sep: Seq<char>) -> Seq<char>
    decreases pieces.len(),
{
    if pieces.len() == 0 {
        Seq::empty()
    } else if pieces.len() == 1 {
        pieces[0]
    } else {
        join(pieces.drop_last(), sep) + sep + pieces.last()
    }
}

pub fn join_chars(pieces: &Vec<Vec<char>>, sep: &[char]) -> (r: Vec<char>)
    ensures
        r@ == join(seqs(pieces@), sep@),
{
    let mut r: Vec<char> = Vec::new();
    let ghost dv = seqs(pieces@);
    for i in 0..pieces.len()
        invariant
            dv == seqs(pieces@),
            r@ == join(dv.take(i as int), sep@),
    {
        assert(dv.take(i + 1).drop_last() =~= dv.take(i as int));
        if i > 0 {
            append(&mut r, sep);
        }
        append(&mut r, pieces[i].as_slice());
        assert(dv[i as int] == pieces[i as int]@);
    }
    assert(dv.take(pieces.len() as int) =~= dv);
    r
}

/// Appends `tail` to `v`.
pub fn append(v: &mut Vec<char>, tail: &[char])
    ensures
        final(v)@ == old(v)@ + tail@,
{
    let ghost start = v@;
    for i in 0..tail.len()
        invariant
            v@ == start + tail@.take(i as int),
    {
        v.push(tail[i]);
        assert(start + tail@.take(i + 1) =~= (start + tail@.take(i as int)).push(tail@[i as int]));
    }
    assert(tail@.take(tail@.len() as int) =~= tail@);
}


// ---------------------------------------------------------------------------
// Splitting
// ---------------------------------------------------------------------------
/// `str::split_once(c)`.
pub open spec fn split_once_char(s: Seq<char>, c: char) -> Option<(Seq<char>, Seq<char>)> {
    let i = find_char_from(s, c, 0);
    if i < s.len() {
        Some((s.take(i), s.skip(i + 1)))
    } else {
        None
    }
}

pub fn split_once_at_char(s: &[char], c: char) -> (r: Option<(Vec<char>, Vec<char>)>)
    ensures
        match r {
            Some((a, b)) => split_once_char(s@, c) == Some((a@, b@)),
            None => split_once_char(s@, c) is None,
        },
{
    let i = find_char(s, c, 0);
    if i < s.len() {
        let a = slice_vec(s, 0, i);
        let b = slice_vec(s, i + 1, s.len());
        assert(a@ == s@.take(i as int));
        assert(b@ == s@.skip(i + 1));
        Some((a, b))
    } else {
        None
    }
}

/// `str::split_once(p)` for a non-empty pattern.
pub open spec fn split_once_seq(s: Seq<char>, p: Seq<char>) -> Option<(Seq<char>, Seq<char>)> {
    match find(s, p) {
        Some(i) => Some((s.take(i), s.skip(i + p.len()))),
        None => None,
    }
}

pub fn split_once_at_seq(s: &[char], p: &[char]) -> (r: Option<(Vec<char>, Vec<char>)>)
    ensures
        match r {
            Some((a, b)) => split_once_seq(s@, p@) == Some((a@, b@)),
            None => split_once_seq(s@, p@) is None,
        },
{
    proof {
        lemma_find_from(s@, p@, 0);
    }
    match find_seq(s, p, 0) {
        Some(i) => {
            assert(i + p@.len() <= s@.len());
            let plen = p.len();
            let slen = s.len();
            assert(i + plen <= slen);
            let a = slice_vec(s, 0, i);
            let b = slice_vec(s, i + plen, slen);
            assert(a@ == s@.take(i as int));
            assert(b@ == s@.skip(i + p@.len()));
            Some((a, b))
        },
        None => None,
    }
}

/// First whitespace index at or after `i` (or `s.len()`).
pub open spec fn next_ws_from(s: Seq<char>, i: int) -> int
    decreases s.len() - i,
{
    if 0 <= i < s.len() && !is_ws(s[i]) {
        next_ws_from(s, i + 1)
    } else {
        i
    }
}

pub proof fn lemma_next_ws_bounds(s: Seq<char>, i: int)
    requires
        0 <= i <= s.len(),
    ensures
        i <= next_ws_from(s, i) <= s.len(),
    decreases s.len() - i,
{
    if i < s.len() && !is_ws(s[i]) {
        lemma_next_ws_bounds(s, i + 1);
    }
}

/// The whitespace-separated words of `s` from index `i` on
/// (`str::split_whitespace`).
pub open spec fn words_from(s: Seq<char>, i: int) -> Seq<Seq<char>>
    decreases s.len() - i,
{
    if i < 0 || i >= s.len() {
        Seq::empty()
    } else {
        let a = skip_ws_from(s, i);
        if a >= s.len() {
            Seq::empty()
        } else {
            let b = next_ws_from(s, a);
            proof {
                lemma_skip_ws_bounds(s, i);
                lemma_next_ws_bounds(s, a);
            }
            if b <= i {
                Seq::empty()
            } else {
                seq![s.subrange(a, b)] + words_from(s, b)
            }
        }
    }
}

pub open spec fn words(s: Seq<char>) -> Seq<Seq<char>> {
    words_from(s, 0)
}

/// Every word of `s` is no longer than `s`.
pub proof fn lemma_words_from_len(s: Seq<char>, i: int)
    ensures
        forall|k: int| 0 <= k < words_from(s, i).len() ==> #[trigger] words_from(s, i)[k].len() <= s.len(),
    decreases s.len() - i,
{
    if 0 <= i < s.len() {
        let a = skip_ws_from(s, i);
        lemma_skip_ws_bounds(s, i);
        if a < s.len() {
            let b = next_ws_from(s, a);
            lemma_next_ws_bounds(s, a);
            if b > i {
                lemma_words_from_len(s, b);
                let rest = words_from(s, b);
                assert forall|k: int| 0 <= k < words_from(s, i).len() implies #[trigger] words_from(s, i)[k].len() <= s.len() by {
                    if k > 0 {
                        assert(words_from(s, i)[k] == rest[k - 1]);
                    }
                }
            }
        }
    }
}

/// Words of `s` joined by single spaces.
pub open spec fn squash_ws(s: Seq<char>) -> Seq<char> {
    join(words(s), seq![' '])
}

pub fn words_of(s: &[char]) -> (out: Vec<Vec<char>>)
    ensures
        seqs(out@) == words(s@),
{
    let mut out: Vec<Vec<char>> = Vec::new();
    let mut i: usize = 0;
    while i < s.len()
        invariant
            i <= s.len(),
            seqs(out@) + words_from(s@, i as int) == words(s@),
        decreases s.len() - i,
    {
        let mut a = i;
        while a < s.len() && char_is_ws(s[a])
            invariant
                i <= a <= s.len(),
                skip_ws_from(s@, i as int) == skip_ws_from(s@, a as int),
            decreases s.len() - a,
        {
            a = a + 1;
        }
        if a >= s.len() {
            assert(words_from(s@, i as int) == Seq::<Seq<char>>::empty());
            assert(seqs(out@) + words_from(s@, s@.len() as int) =~= seqs(out@) + words_from(
                s@,
                i as int,
            ));
            i = s.len();
        } else {
            let mut b = a;
            while b < s.len() && !char_is_ws(s[b])
                invariant
                    a <= b <= s.len(),
                    next_ws_from(s@, a as int) == next_ws_from(s@, b as int),
                decreases s.len() - b,
            {
                b = b + 1;
            }
            let w = slice_vec(s, a, b);
            let ghost before = seqs(out@);
            out.push(w);
            assert(seqs(out@) =~= before.push(s@.subrange(a as int, b as int)));
            assert(before + words_from(s@, i as int) =~= seqs(out@) + words_from(s@, b as int));
            i = b;
        }
    }
    assert(seqs(out@) + words_from(s@, i as int) =~= seqs(out@));
    out
}

pub fn squash_whitespace(s: &[char]) -> (r: Vec<char>)
    ensures
        r@ == squash_ws(s@),
{
    let w = words_of(s);
    let sep = vec![' '];
    assert(sep@ =~= seq![' ']);
    join_chars(&w, sep.as_slice())
}

// ---------------------------------------------------------------------------
// Case mapping
// ---------------------------------------------------------------------------
/// What `str::to_lowercase` returns for a string with these characters
/// (Unicode lowercase mapping, including context-dependent final sigma).
pub uninterp spec fn unicode_lower(s: Seq<char>) -> Seq<char>;

/// Every character is ASCII.
pub open spec fn is_ascii_text(s: Seq<char>) -> bool {
    forall|i: int| 0 <= i < s.len() ==> ((#[trigger] s[i]) as u32) < 128
}

/// Calls `str::to_lowercase`. Claimed: the result depends on the characters
/// of `s` alone and is named `unicode_lower(s@)`; on ASCII text it is the
/// ASCII lowercase (A-Z become a-z, nothing else changes), as Unicode's
/// lowercase mapping of those characters is. Nothing more is stated of the
/// Unicode case tables.
#[verifier::external_body]
fn std_to_lowercase(s: &str) -> (r: String)
    ensures
        r@ == unicode_lower(s@),
        is_ascii_text(s@) ==> r@ == ascii_lower_seq(s@),
{
    s.to_lowercase()
}

pub fn to_lowercase(s: &[char]) -> (r: Vec<char>)
    ensures
        r@ == unicode_lower(s@),
        is_ascii_text(s@) ==> r@ == ascii_lower_seq(s@),
{
    let st = string_of(s);
    let low = std_to_lowercase(st.as_str());
    chars_of(low.as_str())
}

// ---------------------------------------------------------------------------
// Decimal numbers
// ---------------------------------------------------------------------------
pub open spec fn digit_char(d: nat) -> char
    recommends
        d < 10,
{
    if d == 0 {
        '0'
    } else if d == 1 {
        '1'
    } else if d == 2 {
        '2'
    } else if d == 3 {
        '3'
    } else if d == 4 {
        '4'
    } else if d == 5 {
        '5'
    } else if d == 6 {
        '6'
    } else if d == 7 {
        '7'
    } else if d == 8 {
        '8'
    } else {
        '9'
    }
}

/// `n.to_string()`: the shortest decimal representation of `n`.
pub open spec fn decimal(n: nat) -> Seq<char>
    decreases n,
{
    if n < 10 {
        seq![digit_char(n)]
    } else {
        decimal(n / 10).push(digit_char(n % 10))
    }
}

/// A decimal representation has at least one digit, and two from ten on.
pub proof fn lemma_decimal_len(n: nat)
    ensures
        decimal(n).len() >= 1,
        n >= 10 ==> decimal(n).len() >= 2,
    decreases n,
{
    if n >= 10 {
        lemma_decimal_len(n / 10);
    }
}

/// Distinct numbers have distinct decimal representations.
pub proof fn lemma_decimal_injective(a: nat, b: nat)
    requires
        decimal(a) == decimal(b),
    ensures
        a == b,
    decreases a,
{
    if a < 10 && b < 10 {
        assert(decimal(a)[0] == digit_char(a));
        assert(decimal(b)[0] == digit_char(b));
    } else if a < 10 {
        lemma_decimal_len(b);
    } else if b < 10 {
        lemma_decimal_len(a);
    } else {
        let da = decimal(a);
        assert(da.last() == digit_char(a % 10));
        assert(decimal(b).last() == digit_char(b % 10));
        assert(a % 10 == b % 10);
        assert(decimal(a / 10) =~= da.drop_last());
        assert(decimal(b / 10) =~= decimal(b).drop_last());
        lemma_decimal_injective(a / 10, b / 10);
    }
}

/// `format!("{:0w$}", n)`: `decimal(n)` left-padded with zeros to width `w`.
pub open spec fn zero_pad(n: nat, w: nat) -> Seq<char> {
    let d = decimal(n);
    if d.len() >= w {
        d
    } else {
        Seq::new((w - d.len()) as nat, |i: int| '0') + d
    }
}

fn digit_of(d: u64) -> (c: char)
    requires
        d < 10,
    ensures
        c == digit_char(d as nat),
{
    if d == 0 {
        '0'
    } else if d == 1 {
        '1'
    } else if d == 2 {
        '2'
    } else if d == 3 {
        '3'
    } else if d == 4 {
        '4'
    } else if d == 5 {
        '5'
    } else if d == 6 {
        '6'
    } else if d == 7 {
        '7'
    } else if d == 8 {
        '8'
    } else {
        '9'
    }
}

pub fn decimal_chars(n: u64) -> (r: Vec<char>)
    ensures
        r@ == decimal(n as nat),
    decreases n,
{
    if n < 10 {
        vec![digit_of(n)]
    } else {
        let mut r = decimal_chars(n / 10);
        r.push(digit_of(n % 10));
        r
    }
}

pub fn zero_padded(n: u64, w: usize) -> (r: Vec<char>)
    ensures
        r@ == zero_pad(n as nat, w as nat),
{
    let d = decimal_chars(n);
    if d.len() >= w {
        d
    } else {
        let mut r: Vec<char> = Vec::new();
        let k = w - d.len();
        for i in 0..k
            invariant
                r@ == Seq::new(i as nat, |j: int| '0'),
        {
            r.push('0');
            assert(r@ =~= Seq::new((i + 1) as nat, |j: int| '0'));
        }
        append(&mut r, d.as_slice());
        r
    }
}

/// Value of a sequence of ASCII digits.
pub open spec fn digits_value(s: Seq<char>) -> nat
    decreases s.len(),
{
    if s.len() == 0 {
        0
    } else {
        digits_value(s.drop_last()) * 10 + (s.last() as nat - '0' as nat) as nat
    }
}

pub open spec fn all_digits(s: Seq<char>) -> bool {
    forall|i: int| 0 <= i < s.len() ==> is_digit(#[trigger] s[i])
}

/// `s.parse::<usize>().ok()`: an optional `+`, then one or more ASCII digits
/// whose value fits in `usize`.
pub open spec fn parse_usize(s: Seq<char>) -> Option<nat> {
    let body = if s.len() > 0 && s[0] == '+' {
        s.drop_first()
    } else {
        s
    };
    if body.len() > 0 && all_digits(body) && digits_value(body) <= usize::MAX {
        Some(digits_value(body))
    } else {
        None
    }
}

pub fn parse_digits(s: &[char]) -> (r: Option<usize>)
    ensures
        match r {
            Some(v) => s@.len() > 0 && all_digits(s@) && digits_value(s@) == v,
            None => !(s@.len() > 0 && all_digits(s@) && digits_value(s@) <= usize::MAX),
        },
{
    if s.len() == 0 {
        return None;
    }
    let mut v: usize = 0;
    let mut i: usize = 0;
    while i < s.len()
        invariant
            i <= s.len(),
            all_digits(s@.take(i as int)),
            v == digits_value(s@.take(i as int)),
        decreases s.len() - i,
    {
        assert(s@.take(i + 1).drop_last() =~= s@.take(i as int));
        if !char_is_digit(s[i]) {
            assert(!is_digit(s@[i as int]));
            return None;
        }
        let d = (s[i] as u32 - '0' as u32) as usize;
        assert(d == (s@[i as int] as nat - '0' as nat));
        if v > (usize::MAX - d) / 10 {
            proof {
                lemma_digits_prefix_grows(s@, (i + 1) as int);
                assert(digits_value(s@.take(i + 1)) == v * 10 + d) by (nonlinear_arith)
                    requires
                        digits_value(s@.take(i + 1)) == digits_value(s@.take(i as int)) * 10 + d,
                        v == digits_value(s@.take(i as int)),
                ;
                assert(v * 10 + d > usize::MAX) by (nonlinear_arith)
                    requires
                        v > (usize::MAX - d) / 10,
                        d <= 9,
                ;
            }
            return None;
        }
        assert(v * 10 + d <= usize::MAX) by (nonlinear_arith)
            requires
                v <= (usize::MAX - d) / 10,
                d <= 9,
        ;
        v = v * 10 + d;
        i = i + 1;
    }
    assert(s@.take(s@.len() as int) =~= s@);
    Some(v)
}

/// Once a prefix of digits overflows, every longer prefix does too.
proof fn lemma_digits_prefix_grows(s: Seq<char>, k: int)
    requires
        0 <= k <= s.len(),
        all_digits(s.take(k)),
    ensures
        forall|m: int| k <= m <= s.len() && all_digits(s.take(m)) ==> digits_value(s.take(m))
            >= digits_value(s.take(k)),
    decreases s.len() - k,
{
    assert forall|m: int| k <= m <= s.len() && all_digits(s.take(m)) implies digits_value(
        s.take(m),
    ) >= digits_value(s.take(k)) by {
        lemma_digits_monotone(s, k, m);
    }
}

proof fn lemma_digits_monotone(s: Seq<char>, k: int, m: int)
    requires
        0 <= k <= m <= s.len(),
        all_digits(s.take(m)),
    ensures
        digits_value(s.take(m)) >= digits_value(s.take(k)),
    decreases m - k,
{
    if k < m {
        assert(s.take(m).drop_last() =~= s.take(m - 1));
        assert(all_digits(s.take(m - 1)));
        lemma_digits_monotone(s, k, m - 1);
        let a = digits_value(s.take(m - 1));
        assert(digits_value(s.take(m)) >= a) by (nonlinear_arith)
            requires
                digits_value(s.take(m)) >= a * 10,
        {
        }
    }
}

pub fn parse_usize_chars(s: &[char]) -> (r: Option<usize>)
    ensures
        match r {
            Some(v) => parse_usize(s@) == Some(v as nat),
            None => parse_usize(s@) is None,
        },
{
    if s.len() > 0 && s[0] == '+' {
        let body = slice_vec(s, 1, s.len());
        assert(body@ == s@.drop_first());
        parse_digits(body.as_slice())
    } else {
        parse_digits(s)
    }
}

// ---------------------------------------------------------------------------
// Conversions between `str`/`String` and character vectors
// ---------------------------------------------------------------------------
/// The characters of `s`, in order.
pub fn chars_of(s: &str) -> (out: Vec<char>)
    ensures
        out@ == s@,
{
    broadcast use vstd::string::group_string_axioms;

    let mut out: Vec<char> = Vec::new();
    for c in it: s.chars()
        invariant
            it.seq() == s@,
            out@ == it.seq().take(it.index() as int),
    {
        out.push(c);
    }
    out
}

/// Appends the characters of `s` to `v`.
pub fn push_str(v: &mut Vec<char>, s: &str)
    ensures
        final(v)@ == old(v)@ + s@,
{
    let c = chars_of(s);
    append(v, c.as_slice());
}

/// `String::push`.
#[verifier::external_body]
fn push_char(s: &mut String, c: char)
    ensures
        final(s)@ == old(s)@.push(c),
{
    s.push(c)
}

/// A `String` holding exactly the characters of `v`.
pub fn string_of(v: &[char]) -> (s: String)
    ensures
        s@ == v@,
{
    let mut s = String::new();
    for i in 0..v.len()
        invariant
            s@ == v@.take(i as int),
    {
        push_char(&mut s, v[i]);
        assert(v@.take(i + 1) =~= v@.take(i as int).push(v@[i as int]));
    }
    assert(v@.take(v@.len() as int) =~= v@);
    s
}

// ---------------------------------------------------------------------------
// Ordering
// ---------------------------------------------------------------------------
/// `a < b` as `str` orders them: lexicographically by code point.
pub open spec fn text_lt(a: Seq<char>, b: Seq<char>) -> bool
    decreases a.len(),
{
    if a.len() == 0 {
        b.len() > 0
    } else if b.len() == 0 {
        false
    } else if a[0] != b[0] {
        (a[0] as u32) < (b[0] as u32)
    } else {
        text_lt(a.drop_first(), b.drop_first())
    }
}

proof fn lemma_text_lt_skip(a: Seq<char>, b: Seq<char>, i: int)
    requires
        0 <= i <= a.len(),
        i <= b.len(),
        a.take(i) == b.take(i),
    ensures
        text_lt(a, b) == text_lt(a.skip(i), b.skip(i)),
    decreases i,
{
    if i > 0 {
        assert(a[0] == a.take(i)[0]);
        assert(b[0] == b.take(i)[0]);
        assert(a.drop_first().take(i - 1) =~= b.drop_first().take(i - 1)) by {
            assert forall|k: int| 0 <= k < i - 1 implies a.drop_first()[k] == b.drop_first()[k] by {
                assert(a.take(i)[k + 1] == b.take(i)[k + 1]);
                assert(a.take(i)[k + 1] == a[k + 1]);
                assert(b.take(i)[k + 1] == b[k + 1]);
                assert(a.drop_first()[k] == a[k + 1]);
                assert(b.drop_first()[k] == b[k + 1]);
            }
        }
        lemma_text_lt_skip(a.drop_first(), b.drop_first(), i - 1);
        assert(a.drop_first().skip(i - 1) =~= a.skip(i));
        assert(b.drop_first().skip(i - 1) =~= b.skip(i));
    } else {
        assert(a.skip(0) =~= a);
        assert(b.skip(0) =~= b);
    }
}

/// Whether `a` sorts before `b` (`a < b` on strings).
pub fn chars_lt(a: &[char], b: &[char]) -> (r: bool)
    ensures
        r == text_lt(a@, b@),
{
    let mut i: usize = 0;
    while i < a.len() && i < b.len() && a[i] == b[i]
        invariant
            i <= a.len(),
            i <= b.len(),
            a@.take(i as int) == b@.take(i as int),
        decreases a.len() - i,
    {
        assert(a@.take(i + 1) =~= a@.take(i as int).push(a@[i as int]));
        assert(b@.take(i + 1) =~= b@.take(i as int).push(b@[i as int]));
        i = i + 1;
    }
    proof {
        lemma_text_lt_skip(a@, b@, i as int);
    }
    if i == a.len() {
        i < b.len()
    } else if i == b.len() {
        false
    } else {
        assert(a@.skip(i as int)[0] == a@[i as int]);
        assert(b@.skip(i as int)[0] == b@[i as int]);
        (a[i] as u32) < (b[i] as u32)
    }
}

} // verus!
