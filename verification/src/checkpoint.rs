//! Gate names and the timestamped names of gate checkpoints.
use crate::date::{civil, civil_from_days, secs_since_epoch};
use crate::profile::{join_path, path_join};
use crate::text::{
    append, chars_of, decimal, decimal_chars, eq_chars, join, join_chars, lemma_decimal_injective,
    seqs, ends_with, has_prefix, has_suffix,
    parse_usize, parse_usize_chars, push_str, slice_vec, starts_with, string_of, to_lowercase,
    trim, trim_chars, unicode_lower, zero_pad, zero_padded,
};
use std::time::SystemTime;
use vstd::prelude::*;

verus! {

/// A LEAF gate: its number, flag name, canonical file, and folder variants.
#[derive(Debug, Clone, Copy, PartialEq, Eq)]
pub struct GateSpec {
    pub index: usize,
    pub name: &'static str,
    pub file: &'static str,
    pub folders: &'static [&'static str],
}

/// Number of gates.
pub const GATE_COUNT: usize = 10;

pub open spec fn gate_name_of(k: int) -> Seq<char> {
    if k == 0 {
        "intent"@
    } else if k == 1 {
        "unknowns"@
    } else if k == 2 {
        "criteria"@
    } else if k == 3 {
        "wireframe"@
    } else if k == 4 {
        "design"@
    } else if k == 5 {
        "critic"@
    } else if k == 6 {
        "tasks"@
    } else if k == 7 {
        "execution"@
    } else if k == 8 {
        "review"@
    } else {
        "retrospect"@
    }
}

pub open spec fn gate_file_of(k: int) -> Seq<char> {
    if k == 0 {
        "01-Learn/01-intent.md"@
    } else if k == 1 {
        "01-Learn/02-unknowns.md"@
    } else if k == 2 {
        "02-Example/03-criteria.md"@
    } else if k == 3 {
        "02-Example/04-wireframe.md"@
    } else if k == 4 {
        "03-Architect/05-design.md"@
    } else if k == 5 {
        "03-Architect/06-critic.md"@
    } else if k == 6 {
        "03-Architect/07-tasks.md"@
    } else if k == 7 {
        "03-Architect/08-execution.md"@
    } else if k == 8 {
        "04-Feedback/09-review.md"@
    } else {
        "04-Feedback/10-retrospect.md"@
    }
}

pub open spec fn gate_folders_of(k: int) -> Seq<Seq<char>> {
    if k == 3 {
        seq!["02-Example/04-wireframe"@]
    } else if k == 8 {
        seq!["04-Feedback/09-reviews"@]
    } else if k == 9 {
        seq!["04-Feedback/10-retrospective"@]
    } else {
        seq![]
    }
}

/// Whether `g` is the `k`-th gate of the table (0-based; gate `k + 1`).
pub open spec fn is_gate(g: GateSpec, k: int) -> bool {
    &&& 0 <= k < 10
    &&& g.index == k + 1
    &&& g.name@ == gate_name_of(k)
    &&& g.file@ == gate_file_of(k)
    &&& g.folders@.map_values(|f: &'static str| f@) == gate_folders_of(k)
}

/// The `k`-th gate of the table.
pub fn gate_at(k: usize) -> (g: GateSpec)
    requires
        k < GATE_COUNT,
    ensures
        is_gate(g, k as int),
{
    let g = if k == 0 {
        GateSpec { index: 1, name: "intent", file: "01-Learn/01-intent.md", folders: &[] }
    } else if k == 1 {
        GateSpec { index: 2, name: "unknowns", file: "01-Learn/02-unknowns.md", folders: &[] }
    } else if k == 2 {
        GateSpec { index: 3, name: "criteria", file: "02-Example/03-criteria.md", folders: &[] }
    } else if k == 3 {
        GateSpec {
            index: 4,
            name: "wireframe",
            file: "02-Example/04-wireframe.md",
            folders: &["02-Example/04-wireframe"],
        }
    } else if k == 4 {
        GateSpec { index: 5, name: "design", file: "03-Architect/05-design.md", folders: &[] }
    } else if k == 5 {
        GateSpec { index: 6, name: "critic", file: "03-Architect/06-critic.md", folders: &[] }
    } else if k == 6 {
        GateSpec { index: 7, name: "tasks", file: "03-Architect/07-tasks.md", folders: &[] }
    } else if k == 7 {
        GateSpec {
            index: 8,
            name: "execution",
            file: "03-Architect/08-execution.md",
            folders: &[],
        }
    } else if k == 8 {
        GateSpec {
            index: 9,
            name: "review",
            file: "04-Feedback/09-review.md",
            folders: &["04-Feedback/09-reviews"],
        }
    } else {
        GateSpec {
            index: 10,
            name: "retrospect",
            file: "04-Feedback/10-retrospect.md",
            folders: &["04-Feedback/10-retrospective"],
        }
    };
    assert(g.folders@.map_values(|f: &'static str| f@) =~= gate_folders_of(k as int));
    g
}

/// Index of the last `c` before position `j`, or `-1`.
pub open spec fn rfind_char_before(s: Seq<char>, c: char, j: int) -> int
    decreases j,
{
    if j <= 0 || j > s.len() {
        -1
    } else if s[j - 1] == c {
        j - 1
    } else {
        rfind_char_before(s, c, j - 1)
    }
}

pub proof fn lemma_rfind_bounds(s: Seq<char>, c: char, j: int)
    requires
        0 <= j <= s.len(),
    ensures
        -1 <= rfind_char_before(s, c, j) < j,
    decreases j,
{
    if j > 0 && s[j - 1] != c {
        lemma_rfind_bounds(s, c, j - 1);
    }
}

/// The index of the last `c` in `s`, if any.
pub fn rfind_char(s: &[char], c: char) -> (r: Option<usize>)
    ensures
        match r {
            Some(k) => k < s@.len() && rfind_char_before(s@, c, s@.len() as int) == k,
            None => rfind_char_before(s@, c, s@.len() as int) == -1,
        },
{
    let mut j = s.len();
    while j > 0 && s[j - 1] != c
        invariant
            j <= s.len(),
            rfind_char_before(s@, c, s@.len() as int) == rfind_char_before(s@, c, j as int),
        decreases j,
    {
        j = j - 1;
    }
    if j > 0 {
        Some(j - 1)
    } else {
        None
    }
}

/// `s` with every trailing copy of `p` removed (`trim_end_matches`).
pub open spec fn trim_end_matches(s: Seq<char>, p: Seq<char>) -> Seq<char>
    decreases s.len(),
{
    if p.len() > 0 && ends_with(s, p) {
        trim_end_matches(s.take(s.len() - p.len()), p)
    } else {
        s
    }
}

/// `s` with every leading copy of `p` removed (`trim_start_matches`).
pub open spec fn trim_start_matches(s: Seq<char>, p: Seq<char>) -> Seq<char>
    decreases s.len(),
{
    if p.len() > 0 && starts_with(s, p) {
        trim_start_matches(s.skip(p.len() as int), p)
    } else {
        s
    }
}

pub fn trim_end_matching(s: &[char], p: &[char]) -> (r: Vec<char>)
    ensures
        r@ == trim_end_matches(s@, p@),
{
    let mut end = s.len();
    let mut cur = slice_vec(s, 0, end);
    assert(cur@ =~= s@);
    while p.len() > 0 && has_suffix(cur.as_slice(), p)
        invariant
            end <= s.len(),
            cur@ == s@.take(end as int),
            trim_end_matches(s@, p@) == trim_end_matches(cur@, p@),
        decreases end,
    {
        end = end - p.len();
        let next = slice_vec(s, 0, end);
        assert(next@ =~= cur@.take(cur@.len() - p@.len()));
        cur = next;
    }
    cur
}

pub fn trim_start_matching(s: &[char], p: &[char]) -> (r: Vec<char>)
    ensures
        r@ == trim_start_matches(s@, p@),
{
    let mut start: usize = 0;
    let mut cur = slice_vec(s, 0, s.len());
    assert(cur@ =~= s@);
    while p.len() > 0 && has_prefix(cur.as_slice(), p)
        invariant
            start <= s.len(),
            cur@ == s@.skip(start as int),
            trim_start_matches(s@, p@) == trim_start_matches(cur@, p@),
        decreases s.len() - start,
    {
        start = start + p.len();
        let next = slice_vec(s, start, s.len());
        assert(next@ =~= cur@.skip(p@.len() as int));
        cur = next;
    }
    cur
}

/// The final path segment of a gate file with `.md` endings removed.
pub open spec fn file_stem(file: Seq<char>) -> Seq<char> {
    let k = rfind_char_before(file, '/', file.len() as int);
    let last = if k >= 0 {
        file.skip(k + 1)
    } else {
        file
    };
    trim_end_matches(last, ".md"@)
}

impl GateSpec {
    /// File name of this step's document, without directory and `.md` suffix.
    pub fn file_name_stem(self) -> (r: String)
        ensures
            r@ == file_stem(self.file@),
    {
        let f = chars_of(self.file);
        let flen = f.len();
        let j = match rfind_char(f.as_slice(), '/') {
            Some(k) => k + 1,
            None => 0,
        };
        let last = slice_vec(f.as_slice(), j, f.len());
        proof {
            if j == 0 {
                assert(f@.skip(0) =~= f@);
            }
        }
        let md = chars_of(".md");
        let r = trim_end_matching(last.as_slice(), md.as_slice());
        string_of(r.as_slice())
    }
}

/// The normalized form `gate_spec` matches: trimmed, leading `--` removed,
/// lowercased.
pub open spec fn normalized_gate_flag(value: Seq<char>) -> Seq<char> {
    unicode_lower(trim_start_matches(trim(value), "--"@))
}

/// Whether the normalized flag `n` selects the `k`-th gate.
pub open spec fn selects_gate(n: Seq<char>, k: int) -> bool {
    ||| n == gate_name_of(k)
    ||| n == seq!['g'] + decimal((k + 1) as nat)
    ||| parse_usize(n) == Some((k + 1) as nat)
    ||| n == file_stem(gate_file_of(k))
    ||| (k + 1 == 8 && n == "artifact"@)
}

/// `k` is the first gate that the normalized flag `n` selects.
pub open spec fn first_selected(n: Seq<char>, k: int) -> bool {
    &&& 0 <= k < 10
    &&& selects_gate(n, k)
    &&& forall|j: int| 0 <= j < k ==> !selects_gate(n, j)
}

/// Resolve a gate flag (`criteria`, `--3`, `g3`, `03-criteria`, ...) to its gate.
pub fn gate_spec(value: &str) -> (r: Result<GateSpec, String>)
    ensures
        match r {
            Ok(g) => is_gate(g, g.index - 1) && first_selected(
                normalized_gate_flag(value@),
                g.index - 1,
            ),
            Err(e) => (forall|k: int|
                0 <= k < 10 ==> !selects_gate(normalized_gate_flag(value@), k)) && e@
                == "unknown gate: "@ + value@,
        },
{
    let v = chars_of(value);
    let t = trim_chars(v.as_slice());
    let dashes = chars_of("--");
    let stripped = trim_start_matching(t.as_slice(), dashes.as_slice());
    let n = to_lowercase(stripped.as_slice());
    let parsed = parse_usize_chars(n.as_slice());
    let mut k: usize = 0;
    while k < GATE_COUNT
        invariant
            k <= GATE_COUNT,
            n@ == normalized_gate_flag(value@),
            match parsed {
                Some(p) => parse_usize(n@) == Some(p as nat),
                None => parse_usize(n@) is None,
            },
            forall|j: int| 0 <= j < k ==> !selects_gate(n@, j),
        decreases GATE_COUNT - k,
    {
        let g = gate_at(k);
        let name = chars_of(g.name);
        let mut gname: Vec<char> = vec!['g'];
        let num = decimal_chars(g.index as u64);
        append(&mut gname, num.as_slice());
        assert(gname@ =~= seq!['g'] + decimal((k + 1) as nat));
        let stem = g.file_name_stem();
        let stem_chars = chars_of(stem.as_str());
        let is_match = eq_chars(n.as_slice(), name.as_slice()) || eq_chars(
            n.as_slice(),
            gname.as_slice(),
        ) || (match parsed {
            Some(p) => p == g.index,
            None => false,
        }) || eq_chars(n.as_slice(), stem_chars.as_slice()) || (g.index == 8 && {
            let artifact = chars_of("artifact");
            eq_chars(n.as_slice(), artifact.as_slice())
        });
        if is_match {
            assert(selects_gate(n@, k as int));
            assert(is_gate(g, k as int));
            assert(first_selected(normalized_gate_flag(value@), k as int));
            return Ok(g);
        }
        k = k + 1;
    }
    let mut msg: Vec<char> = Vec::new();
    push_str(&mut msg, "unknown gate: ");
    push_str(&mut msg, value);
    Err(string_of(msg.as_slice()))
}

/// `<timestamp> <name>`, or `<timestamp>-<counter> <name>` for a repeat.
pub open spec fn checkpoint_name(ts: Seq<char>, name: Seq<char>, counter: Option<nat>) -> Seq<
    char,
> {
    match counter {
        Some(c) => ts + seq!['-'] + decimal(c) + seq![' '] + name,
        None => ts + seq![' '] + name,
    }
}

pub fn checkpoint_file_name(timestamp: &str, source_file_name: &str, counter: Option<usize>) -> (r:
    String)
    ensures
        r@ == checkpoint_name(
            timestamp@,
            source_file_name@,
            match counter {
                Some(c) => Some(c as nat),
                None => None,
            },
        ),
{
    let mut out: Vec<char> = Vec::new();
    push_str(&mut out, timestamp);
    match counter {
        Some(c) => {
            out.push('-');
            let d = decimal_chars(c as u64);
            append(&mut out, d.as_slice());
        },
        None => {},
    }
    out.push(' ');
    push_str(&mut out, source_file_name);
    string_of(out.as_slice())
}

/// `YYMMDD-HHMM` of the UTC minute holding second `secs` after the epoch.
pub open spec fn utc_stamp_text(secs: nat) -> Seq<char> {
    let total_minutes = secs / 60;
    let minute = total_minutes % 60;
    let total_hours = total_minutes / 60;
    let hour = total_hours % 24;
    let c = civil((total_hours / 24) as int);
    let yy = (c.0 as i32) as int % 100;
    zero_pad(yy as nat, 2) + zero_pad(c.1 as nat, 2) + zero_pad(c.2 as nat, 2) + seq!['-']
        + zero_pad(hour, 2) + zero_pad(minute, 2)
}

/// `year.rem_euclid(100)`.
fn year_in_century(year: i32) -> (r: i32)
    ensures
        r as int == year as int % 100,
{
    if year >= 0 {
        year % 100
    } else {
        let m: i64 = -(year as i64);
        let r = m % 100;
        proof {
            lemma_neg_rem(year as int, m as int, r as int);
        }
        if r == 0 {
            0
        } else {
            (100 - r) as i32
        }
    }
}

proof fn lemma_neg_rem(y: int, m: int, r: int)
    by (nonlinear_arith)
    requires
        y < 0,
        m == -y,
        r == m % 100,
    ensures
        y % 100 == (if r == 0 {
            0
        } else {
            100 - r
        }),
{
}

/// The five two-digit fields of a stamp, with the `-` between date and time.
fn stamp_chars(yy: u64, month: u64, day: u64, hour: u64, minute: u64) -> (r: Vec<char>)
    ensures
        r@ == zero_pad(yy as nat, 2) + zero_pad(month as nat, 2) + zero_pad(day as nat, 2)
            + seq!['-'] + zero_pad(hour as nat, 2) + zero_pad(minute as nat, 2),
{
    let mut out: Vec<char> = Vec::new();
    let a = zero_padded(yy, 2);
    append(&mut out, a.as_slice());
    let b = zero_padded(month, 2);
    append(&mut out, b.as_slice());
    let c = zero_padded(day, 2);
    append(&mut out, c.as_slice());
    out.push('-');
    let d = zero_padded(hour, 2);
    append(&mut out, d.as_slice());
    let e = zero_padded(minute, 2);
    append(&mut out, e.as_slice());
    assert(out@ =~= zero_pad(yy as nat, 2) + zero_pad(month as nat, 2) + zero_pad(day as nat, 2)
        + seq!['-'] + zero_pad(hour as nat, 2) + zero_pad(minute as nat, 2));
    out
}

pub fn utc_timestamp_from_secs(secs: u64) -> (r: String)
    ensures
        r@ == utc_stamp_text(secs as nat),
{
    let total_minutes = secs / 60;
    let minute = total_minutes % 60;
    let total_hours = total_minutes / 60;
    let hour = total_hours % 24;
    let days = (total_hours / 24) as i64;
    let (year, month, day) = civil_from_days(days);
    let yy = year_in_century(year);
    let out = stamp_chars(yy as u64, month as u64, day as u64, hour, minute);
    string_of(out.as_slice())
}

/// The UTC `YYMMDD-HHMM` stamp of `time`.
pub fn utc_timestamp(time: SystemTime) -> (r: Result<String, String>)
    ensures
        match crate::date::epoch_secs(time) {
            Some(secs) => r matches Ok(t) && t@ == utc_stamp_text(secs as nat),
            None => r matches Err(e) && e@ == "system time is before Unix epoch"@,
        },
{
    match secs_since_epoch(time) {
        Ok(secs) => Ok(utc_timestamp_from_secs(secs)),
        Err(e) => Err(e),
    }
}

/// A gate's sources relative to the item root: its file, then each folder.
pub open spec fn gate_sources(g: GateSpec) -> Seq<Seq<char>> {
    seq![g.file@] + g.folders@.map_values(|f: &'static str| f@)
}

/// Each of `rels` joined onto `root`.
pub open spec fn joined_all(root: Seq<char>, rels: Seq<Seq<char>>) -> Seq<Seq<char>> {
    rels.map_values(|r: Seq<char>| path_join(root, r))
}

/// The items of `items` whose flag in `keep` is set, in order.
pub open spec fn selected(items: Seq<Seq<char>>, keep: Seq<bool>) -> Seq<Seq<char>>
    decreases items.len(),
{
    if items.len() == 0 || keep.len() == 0 {
        Seq::empty()
    } else {
        let rest = selected(items.drop_last(), keep.drop_last());
        if keep.last() {
            rest.push(items.last())
        } else {
            rest
        }
    }
}

/// The sources a checkpoint of `gate` reads: its file when that is a regular
/// file and each folder variant that is a directory, joined onto `root`.
/// `folder_is_dir` holds one flag per folder variant, in order. With none of
/// them present, the error lists every candidate path.
pub fn checkpoint_sources(
    root: &str,
    gate: GateSpec,
    file_is_file: bool,
    folder_is_dir: &[bool],
) -> (r: Result<Vec<String>, String>)
    requires
        folder_is_dir@.len() == gate.folders@.len(),
    ensures
        ({
            let present = seq![file_is_file] + folder_is_dir@;
            let candidates = joined_all(root@, gate_sources(gate));
            match r {
                Ok(v) => v@.map_values(|x: String| x@) == selected(candidates, present)
                    && v@.len() > 0,
                Err(e) => selected(candidates, present).len() == 0
                    && e@ == "gate source does not exist: "@ + join(candidates, ", "@),
            }
        }),
{
    let ghost present = seq![file_is_file] + folder_is_dir@;
    let ghost rels = gate_sources(gate);
    let ghost candidates = joined_all(root@, rels);
    let m = gate.folders.len();
    let mut cands: Vec<Vec<char>> = Vec::new();
    let mut out: Vec<String> = Vec::new();
    let p0 = join_path(root, gate.file);
    cands.push(chars_of(p0.as_str()));
    proof {
        assert(candidates[0] == p0@);
        assert(seqs(cands@) =~= candidates.take(1));
        assert(present.take(1).drop_last() =~= Seq::<bool>::empty());
        assert(candidates.take(1).drop_last() =~= Seq::<Seq<char>>::empty());
        assert(selected(Seq::<Seq<char>>::empty(), Seq::<bool>::empty()) == Seq::<Seq<char>>::empty());
        assert(present.take(1).last() == file_is_file);
        assert(candidates.take(1).last() == candidates[0]);
    }
    if file_is_file {
        out.push(p0);
        assert(out@.map_values(|x: String| x@) =~= seq![candidates[0]]);
    } else {
        assert(out@.map_values(|x: String| x@) =~= Seq::<Seq<char>>::empty());
    }
    let mut i: usize = 0;
    while i < m
        invariant
            m == gate.folders@.len(),
            folder_is_dir@.len() == gate.folders@.len(),
            present == seq![file_is_file] + folder_is_dir@,
            rels == gate_sources(gate),
            candidates == joined_all(root@, rels),
            rels.len() == m + 1,
            0 <= i <= m,
            seqs(cands@) == candidates.take(i + 1),
            out@.map_values(|x: String| x@) == selected(candidates.take(i + 1), present.take(i + 1)),
        decreases m - i,
    {
        let rel: &str = gate.folders[i];
        assert(rel@ == rels[i + 1]);
        let p = join_path(root, rel);
        let here = folder_is_dir[i];
        assert(here == present[i + 1]);
        let ghost before = out@.map_values(|x: String| x@);
        let pc = chars_of(p.as_str());
        cands.push(pc);
        proof {
            assert(candidates.take(i + 2).drop_last() =~= candidates.take(i + 1));
            assert(present.take(i + 2).drop_last() =~= present.take(i + 1));
            assert(seqs(cands@) =~= candidates.take(i + 2));
        }
        if here {
            out.push(p);
            assert(out@.map_values(|x: String| x@) =~= before.push(candidates[i + 1]));
        } else {
            assert(out@.map_values(|x: String| x@) =~= before);
        }
        i = i + 1;
    }
    let ghost n = m + 1;
    assert(candidates.take(n as int) =~= candidates);
    assert(present.take(n as int) =~= present);
    if out.len() == 0 {
        let mut msg: Vec<char> = Vec::new();
        push_str(&mut msg, "gate source does not exist: ");
        let j = join_chars(&cands, chars_of(", ").as_slice());
        append(&mut msg, j.as_slice());
        return Err(string_of(msg.as_slice()));
    }
    Ok(out)
}

/// The names held by a list of strings.
pub open spec fn names_of(v: Seq<String>) -> Seq<Seq<char>> {
    v.map_values(|x: String| x@)
}

fn is_listed(existing: &[String], name: &String) -> (b: bool)
    ensures
        b == names_of(existing@).contains(name@),
{
    let target = chars_of(name.as_str());
    let mut i: usize = 0;
    while i < existing.len()
        invariant
            0 <= i <= existing@.len(),
            target@ == name@,
            forall|j: int| 0 <= j < i ==> existing@[j]@ != name@,
        decreases existing@.len() - i,
    {
        let c = chars_of(existing[i].as_str());
        if eq_chars(c.as_slice(), target.as_slice()) {
            assert(names_of(existing@)[i as int] == name@);
            return true;
        }
        i = i + 1;
    }
    proof {
        if names_of(existing@).contains(name@) {
            let j = choose|j: int| 0 <= j < names_of(existing@).len() && names_of(existing@)[j] == name@;
            assert(existing@[j]@ == name@);
        }
    }
    false
}

/// Repeat names for different counters differ.
proof fn lemma_counter_names_injective(ts: Seq<char>, name: Seq<char>, a: nat, b: nat)
    requires
        checkpoint_name(ts, name, Some(a)) == checkpoint_name(ts, name, Some(b)),
    ensures
        a == b,
{
    let x = checkpoint_name(ts, name, Some(a));
    let y = checkpoint_name(ts, name, Some(b));
    let lo: int = ts.len() + 1int;
    assert(decimal(a).len() == decimal(b).len()) by {
        assert(x.len() == ts.len() + 1 + decimal(a).len() + 1 + name.len());
        assert(y.len() == ts.len() + 1 + decimal(b).len() + 1 + name.len());
    }
    assert(decimal(a) =~= x.subrange(lo, lo + decimal(a).len() as int));
    assert(decimal(b) =~= y.subrange(lo, lo + decimal(b).len() as int));
    lemma_decimal_injective(a, b);
}

/// Every counter below `hi` (from 2) naming a listed entry needs at least
/// `hi - 2` entries.
proof fn lemma_listed_counters_bound(existing: Seq<Seq<char>>, ts: Seq<char>, name: Seq<char>, hi: nat)
    requires
        hi >= 2,
        forall|k: nat| 2 <= k < hi ==> existing.contains(#[trigger] checkpoint_name(ts, name, Some(k))),
    ensures
        hi - 2 <= existing.len(),
{
    let dom = vstd::set_lib::set_int_range(2, hi as int);
    let f = |k: int| checkpoint_name(ts, name, Some(k as nat));
    vstd::set_lib::lemma_int_range(2, hi as int);
    assert(vstd::relations::injective_on(f, dom)) by {
        assert forall|a: int, b: int| dom.contains(a) && dom.contains(b) && #[trigger] f(a) == #[trigger] f(b) implies a == b by {
            lemma_counter_names_injective(ts, name, a as nat, b as nat);
        }
    }
    let img = dom.map(f);
    vstd::set_lib::lemma_map_size(dom, img, f);
    assert(img.subset_of(existing.to_set())) by {
        assert forall|x: Seq<char>| img.contains(x) implies existing.to_set().contains(x) by {
            let k = choose|k: int| dom.contains(k) && f(k) == x;
            assert(existing.contains(checkpoint_name(ts, name, Some(k as nat))));
        }
    }
    existing.lemma_cardinality_of_set();
    vstd::set_lib::lemma_len_subset(img, existing.to_set());
}

/// Where a checkpoint of `source_file_name` goes in a directory holding the
/// entries `existing`: `<timestamp> <name>` when free, else the first free
/// `<timestamp>-<n> <name>` counting from 2, so nothing is overwritten.
pub fn available_checkpoint_name(timestamp: &str, source_file_name: &str, existing: &[String]) -> (r:
    String)
    requires
        existing@.len() + 2 < usize::MAX,
    ensures
        !names_of(existing@).contains(r@),
        !names_of(existing@).contains(checkpoint_name(timestamp@, source_file_name@, None)) ==> r@
            == checkpoint_name(timestamp@, source_file_name@, None),
        names_of(existing@).contains(checkpoint_name(timestamp@, source_file_name@, None)) ==> exists|
            c: nat,
        |
            #![trigger checkpoint_name(timestamp@, source_file_name@, Some(c))]
            2 <= c && r@ == checkpoint_name(timestamp@, source_file_name@, Some(c)) && forall|k: nat|
                2 <= k < c ==> names_of(existing@).contains(
                    #[trigger] checkpoint_name(timestamp@, source_file_name@, Some(k)),
                ),
{
    let ghost names = names_of(existing@);
    let first = checkpoint_file_name(timestamp, source_file_name, None);
    if !is_listed(existing, &first) {
        return first;
    }
    let mut counter: usize = 2;
    loop
        invariant
            2 <= counter <= existing@.len() + 2,
            existing@.len() + 2 < usize::MAX,
            names == names_of(existing@),
            names.contains(checkpoint_name(timestamp@, source_file_name@, None)),
            forall|k: nat| 2 <= k < counter ==> names.contains(
                #[trigger] checkpoint_name(timestamp@, source_file_name@, Some(k)),
            ),
        decreases existing@.len() + 2 - counter,
    {
        let cand = checkpoint_file_name(timestamp, source_file_name, Some(counter));
        if !is_listed(existing, &cand) {
            assert(cand@ == checkpoint_name(timestamp@, source_file_name@, Some(counter as nat)));
            return cand;
        }
        proof {
            assert(names.contains(checkpoint_name(timestamp@, source_file_name@, Some(counter as nat))));
            assert forall|k: nat| 2 <= k < counter + 1 implies names.contains(
                #[trigger] checkpoint_name(timestamp@, source_file_name@, Some(k)),
            ) by {
                if k < counter {
                } else {
                    assert(k == counter as nat);
                }
            }
            lemma_listed_counters_bound(names, timestamp@, source_file_name@, (counter + 1) as nat);
        }
        counter = counter + 1;
    }
}

} // verus!
