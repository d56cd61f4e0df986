//! The review document of a leaf: its canonical gate sources in order, each
//! under a separator line, with missing sources marked; and how a status
//! document's current-gate label decides which sources are expected.
use crate::inventory::{leading_number, leading_number_of};
use crate::preview::PreviewLine;
use crate::text::{
    append, chars_of, has_prefix, lines, lines_of, push_str, seqs, slice_vec, split_once_at_char,
    split_once_char, squash_whitespace, squash_ws, starts_with, string_of, to_lowercase, trim,
    trim_chars, trim_start, trim_start_chars, unicode_lower,
};
use vstd::prelude::*;

verus! {

/// Which of the ten gates a label starts with: a circled digit, a decimal
/// number from 1 to 10, or `g`/`G` and such a number. Leading whitespace is
/// not skipped.
pub open spec fn review_gate_index(value: Seq<char>) -> Option<nat> {
    if value.len() == 0 {
        None
    } else {
        let c = value[0];
        if c == '①' {
            Some(1)
        } else if c == '②' {
            Some(2)
        } else if c == '③' {
            Some(3)
        } else if c == '④' {
            Some(4)
        } else if c == '⑤' {
            Some(5)
        } else if c == '⑥' {
            Some(6)
        } else if c == '⑦' {
            Some(7)
        } else if c == '⑧' {
            Some(8)
        } else if c == '⑨' {
            Some(9)
        } else if c == '⑩' {
            Some(10)
        } else {
            let digits = if crate::text::is_digit(c) {
                value
            } else if c == 'g' || c == 'G' {
                value.drop_first()
            } else {
                Seq::empty()
            };
            if crate::text::is_digit(c) || c == 'g' || c == 'G' {
                match leading_number(digits) {
                    Some(n) => if 1 <= n <= 10 {
                        Some(n)
                    } else {
                        None
                    },
                    None => None,
                }
            } else {
                None
            }
        }
    }
}

/// A label that starts with a circled digit names that gate: ① is gate 1,
/// ② gate 2, and so on to ⑩, gate 10.
pub proof fn lemma_circled_review_gates(label: Seq<char>)
    requires
        label.len() > 0,
    ensures
        label[0] == '①' ==> review_gate_index(label) == Some(1nat),
        label[0] == '②' ==> review_gate_index(label) == Some(2nat),
        label[0] == '③' ==> review_gate_index(label) == Some(3nat),
        label[0] == '④' ==> review_gate_index(label) == Some(4nat),
        label[0] == '⑤' ==> review_gate_index(label) == Some(5nat),
        label[0] == '⑥' ==> review_gate_index(label) == Some(6nat),
        label[0] == '⑦' ==> review_gate_index(label) == Some(7nat),
        label[0] == '⑧' ==> review_gate_index(label) == Some(8nat),
        label[0] == '⑨' ==> review_gate_index(label) == Some(9nat),
        label[0] == '⑩' ==> review_gate_index(label) == Some(10nat),
{
}

/// A label written as a number names that gate when the number is 1 to
/// 10: one digit `d` from 1 to 9 (not followed by another digit) is gate
/// `d`, `10` is gate 10, `g`/`G` before such a digit works the same way,
/// and `0` names no gate.
pub proof fn lemma_numbered_review_gates(label: Seq<char>)
    requires
        label.len() > 0,
    ensures
        ('1' <= label[0] && label[0] <= '9') && (label.len() == 1 || !('0' <= label[1] && label[1] <= '9'))
            ==> review_gate_index(label) == Some((label[0] as nat - '0' as nat) as nat),
        label[0] == '0' && (label.len() == 1 || !('0' <= label[1] && label[1] <= '9'))
            ==> review_gate_index(label) is None,
        label.len() >= 2 && label[0] == '1' && label[1] == '0' && (label.len() == 2 || !('0' <= label[2] && label[2] <= '9'))
            ==> review_gate_index(label) == Some(10nat),
        label.len() >= 2 && (label[0] == 'g' || label[0] == 'G') && ('1' <= label[1] && label[1] <= '9')
            && (label.len() == 2 || !('0' <= label[2] && label[2] <= '9'))
            ==> review_gate_index(label) == Some((label[1] as nat - '0' as nat) as nat),
{
    if '0' <= label[0] && label[0] <= '9' {
        if label.len() == 1 || !('0' <= label[1] && label[1] <= '9') {
            assert(crate::inventory::digit_run_end(label, 1) == 1);
            assert(crate::inventory::digit_run_end(label, 0) == 1);
            let run = label.take(1);
            assert(run.drop_last() =~= Seq::<char>::empty());
            assert(run.last() == label[0]);
            assert(crate::text::digits_value(run.drop_last()) == 0);
            assert(crate::text::digits_value(run) == (label[0] as nat - '0' as nat) as nat);
        }
        if label.len() >= 2 && label[0] == '1' && label[1] == '0' && (label.len() == 2 || !('0' <= label[2] && label[2] <= '9')) {
            assert(crate::inventory::digit_run_end(label, 2) == 2);
            assert(crate::inventory::digit_run_end(label, 1) == 2);
            assert(crate::inventory::digit_run_end(label, 0) == 2);
            let run = label.take(2);
            let one = run.drop_last();
            assert(one =~= seq!['1']);
            assert(one.drop_last() =~= Seq::<char>::empty());
            assert(one.last() == '1');
            assert(crate::text::digits_value(one.drop_last()) == 0);
            assert(crate::text::digits_value(one) == ('1' as nat - '0' as nat) as nat);
            assert('1' as nat == 49 && '0' as nat == 48);
            assert(run.last() == '0');
        }
    }
    if label.len() >= 2 && (label[0] == 'g' || label[0] == 'G') && ('1' <= label[1] && label[1] <= '9')
        && (label.len() == 2 || !('0' <= label[2] && label[2] <= '9')) {
        let d = label.drop_first();
        assert(d[0] == label[1]);
        assert(d.len() == 1 || d[1] == label[2]);
        assert(crate::inventory::digit_run_end(d, 1) == 1);
        assert(crate::inventory::digit_run_end(d, 0) == 1);
        let run = d.take(1);
        assert(run.drop_last() =~= Seq::<char>::empty());
        assert(run.last() == label[1]);
        assert(crate::text::digits_value(run.drop_last()) == 0);
        assert(crate::text::digits_value(run) == (label[1] as nat - '0' as nat) as nat);
    }
}

/// Which gate a label names, if it names one of the ten.
pub fn parse_gate_index(value: &str) -> (r: Option<usize>)
    ensures
        match r {
            Some(n) => review_gate_index(value@) == Some(n as nat),
            None => review_gate_index(value@) is None,
        },
{
    let v = chars_of(value);
    if v.len() == 0 {
        return None;
    }
    let c = v[0];
    if c == '①' {
        Some(1)
    } else if c == '②' {
        Some(2)
    } else if c == '③' {
        Some(3)
    } else if c == '④' {
        Some(4)
    } else if c == '⑤' {
        Some(5)
    } else if c == '⑥' {
        Some(6)
    } else if c == '⑦' {
        Some(7)
    } else if c == '⑧' {
        Some(8)
    } else if c == '⑨' {
        Some(9)
    } else if c == '⑩' {
        Some(10)
    } else {
        let n = if crate::text::char_is_digit(c) {
            leading_number_of(v.as_slice())
        } else if c == 'g' || c == 'G' {
            let rest = slice_vec(v.as_slice(), 1, v.len());
            assert(rest@ == v@.drop_first());
            leading_number_of(rest.as_slice())
        } else {
            return None;
        };
        match n {
            Some(k) => if 1 <= k && k <= 10 {
                Some(k)
            } else {
                None
            },
            None => None,
        }
    }
}


/// A `- key: value` status line: the key with its whitespace squashed and
/// lowercased, and the trimmed value; `None` for other lines or an empty key.
pub open spec fn status_field(line: Seq<char>) -> Option<(Seq<char>, Seq<char>)> {
    let t = trim_start(line);
    if !starts_with(t, "- "@) {
        None
    } else {
        match split_once_char(t.skip(2), ':') {
            None => None,
            Some((k, v)) => {
                let key = unicode_lower(squash_ws(k));
                if key.len() == 0 {
                    None
                } else {
                    Some((key, trim(v)))
                }
            },
        }
    }
}

pub fn parse_status_field_line(line: &str) -> (r: Option<(String, String)>)
    ensures
        match r {
            Some((k, v)) => status_field(line@) == Some((k@, v@)),
            None => status_field(line@) is None,
        },
{
    let l = chars_of(line);
    let t = trim_start_chars(l.as_slice());
    let dash = chars_of("- ");
    proof {
        reveal_strlit("- ");
    }
    if !has_prefix(t.as_slice(), dash.as_slice()) {
        return None;
    }
    let rest = slice_vec(t.as_slice(), 2, t.len());
    assert(rest@ =~= trim_start(line@).skip(2));
    match split_once_at_char(rest.as_slice(), ':') {
        None => None,
        Some((k, v)) => {
            let sq = squash_whitespace(k.as_slice());
            let key = to_lowercase(sq.as_slice());
            if key.len() == 0 {
                return None;
            }
            let value = trim_chars(v.as_slice());
            Some((string_of(key.as_slice()), string_of(value.as_slice())))
        },
    }
}

/// What the first `current gate` field of the preamble names (the
/// lines before the first `##` heading), from line `i` on.
pub open spec fn gate_from(ls: Seq<Seq<char>>, i: int) -> Option<nat>
    decreases ls.len() - i,
{
    if i < 0 || i >= ls.len() {
        None
    } else if starts_with(trim_start(ls[i]), "##"@) {
        None
    } else {
        match status_field(ls[i]) {
            Some((k, v)) => if k == "current gate"@ {
                review_gate_index(v)
            } else {
                gate_from(ls, i + 1)
            },
            None => gate_from(ls, i + 1),
        }
    }
}

/// The current gate of a status document, if its preamble names one.
pub fn parse_current_gate(content: &str) -> (r: Option<usize>)
    ensures
        match r {
            Some(n) => gate_from(lines(content@), 0) == Some(n as nat),
            None => gate_from(lines(content@), 0) is None,
        },
{
    let c = chars_of(content);
    let ls = lines_of(c.as_slice());
    let ghost sl = seqs(ls@);
    let hh = chars_of("##");
    let mut i: usize = 0;
    while i < ls.len()
        invariant
            0 <= i <= ls@.len(),
            sl == seqs(ls@),
            sl == lines(content@),
            hh@ == "##"@,
            gate_from(sl, 0) == gate_from(sl, i as int),
        decreases ls@.len() - i,
    {
        assert(ls@[i as int]@ == sl[i as int]);
        let t = trim_start_chars(ls[i].as_slice());
        if has_prefix(t.as_slice(), hh.as_slice()) {
            return None;
        }
        let line = string_of(ls[i].as_slice());
        match parse_status_field_line(line.as_str()) {
            Some((k, v)) => {
                let kc = chars_of(k.as_str());
                let want = chars_of("current gate");
                if crate::text::eq_chars(kc.as_slice(), want.as_slice()) {
                    return parse_gate_index(v.as_str());
                }
            },
            None => {},
        }
        i = i + 1;
    }
    None
}

// ---------------------------------------------------------------------------
// Canonical sources
// ---------------------------------------------------------------------------
/// One canonical review source: its file, the folders that may stand in for
/// it, and the phase and gate it belongs to.
#[derive(Debug, Clone, Copy)]
pub struct SourceSpec {
    pub file: &'static str,
    pub folders: &'static [&'static str],
    pub phase: &'static str,
    pub gate: &'static str,
    pub required_through_current_gate: bool,
}

/// How many canonical sources a review walks.
pub const CANONICAL_SOURCE_COUNT: usize = 11;

/// Folder, relative to a leaf root, that holds Learn reference material.
pub const REFERENCES_RELATIVE_DIR: &'static str = "01-Learn/02-references";

/// Canonical source `i`: (file, folders, phase, gate).
pub open spec fn canonical(i: int) -> (Seq<char>, Seq<Seq<char>>, Seq<char>, Seq<char>) {
    if i == 0 {
        ("00-status.md"@, seq![], "Status"@, "Status"@)
    } else if i == 1 {
        ("01-Learn/01-intent.md"@, seq![], "Learn"@, "① Intent"@)
    } else if i == 2 {
        ("01-Learn/02-unknowns.md"@, seq![], "Learn"@, "② Unknowns"@)
    } else if i == 3 {
        ("02-Example/03-criteria.md"@, seq![], "Example"@, "③ Criteria"@)
    } else if i == 4 {
        ("02-Example/04-wireframe.md"@, seq!["02-Example/04-wireframe"@], "Example"@, "④ Wireframe"@)
    } else if i == 5 {
        ("03-Architect/05-design.md"@, seq![], "Architect"@, "⑤ Design"@)
    } else if i == 6 {
        ("03-Architect/06-critic.md"@, seq![], "Architect"@, "⑥ Critic"@)
    } else if i == 7 {
        ("03-Architect/07-tasks.md"@, seq![], "Architect"@, "⑦ Tasks"@)
    } else if i == 8 {
        ("03-Architect/08-execution.md"@, seq![], "Architect"@, "⑧ Execution"@)
    } else if i == 9 {
        ("04-Feedback/09-review.md"@, seq!["04-Feedback/09-reviews"@], "Feedback"@, "⑨ Review"@)
    } else {
        ("04-Feedback/10-retrospect.md"@, seq!["04-Feedback/10-retrospective"@], "Feedback"@, "⑩ Retrospect"@)
    }
}

pub open spec fn spec_matches(s: SourceSpec, i: int) -> bool {
    &&& s.file@ == canonical(i).0
    &&& s.folders@.map_values(|f: &'static str| f@) == canonical(i).1
    &&& s.phase@ == canonical(i).2
    &&& s.gate@ == canonical(i).3
    &&& s.required_through_current_gate
}

/// Canonical source `i` (of the eleven, in review order).
pub fn canonical_source(i: usize) -> (s: SourceSpec)
    requires
        i < CANONICAL_SOURCE_COUNT,
    ensures
        spec_matches(s, i as int),
{
    let s = if i == 0 {
        SourceSpec { file: "00-status.md", folders: &[], phase: "Status", gate: "Status", required_through_current_gate: true }
    } else if i == 1 {
        SourceSpec { file: "01-Learn/01-intent.md", folders: &[], phase: "Learn", gate: "① Intent", required_through_current_gate: true }
    } else if i == 2 {
        SourceSpec { file: "01-Learn/02-unknowns.md", folders: &[], phase: "Learn", gate: "② Unknowns", required_through_current_gate: true }
    } else if i == 3 {
        SourceSpec { file: "02-Example/03-criteria.md", folders: &[], phase: "Example", gate: "③ Criteria", required_through_current_gate: true }
    } else if i == 4 {
        SourceSpec { file: "02-Example/04-wireframe.md", folders: &["02-Example/04-wireframe"], phase: "Example", gate: "④ Wireframe", required_through_current_gate: true }
    } else if i == 5 {
        SourceSpec { file: "03-Architect/05-design.md", folders: &[], phase: "Architect", gate: "⑤ Design", required_through_current_gate: true }
    } else if i == 6 {
        SourceSpec { file: "03-Architect/06-critic.md", folders: &[], phase: "Architect", gate: "⑥ Critic", required_through_current_gate: true }
    } else if i == 7 {
        SourceSpec { file: "03-Architect/07-tasks.md", folders: &[], phase: "Architect", gate: "⑦ Tasks", required_through_current_gate: true }
    } else if i == 8 {
        SourceSpec { file: "03-Architect/08-execution.md", folders: &[], phase: "Architect", gate: "⑧ Execution", required_through_current_gate: true }
    } else if i == 9 {
        SourceSpec { file: "04-Feedback/09-review.md", folders: &["04-Feedback/09-reviews"], phase: "Feedback", gate: "⑨ Review", required_through_current_gate: true }
    } else {
        SourceSpec { file: "04-Feedback/10-retrospect.md", folders: &["04-Feedback/10-retrospective"], phase: "Feedback", gate: "⑩ Retrospect", required_through_current_gate: true }
    };
    assert(s.folders@.map_values(|f: &'static str| f@) =~= canonical(i as int).1);
    s
}

/// Whether source `index` goes into the review: the status always; another
/// source when it exists, or, once a current gate is known, when it is
/// required and at or before that gate.
pub open spec fn included(index: int, current_gate: Option<usize>, present: bool) -> bool {
    index == 0 || match current_gate {
        Some(g) => present || index <= g,
        None => present,
    }
}

/// Which sources a review shows: the status document always; any source
/// that exists; while a gate is current, every source up to that gate even
/// when it is missing (so it is marked missing); and never a missing source
/// past the current gate, or any missing source when no gate is current.
pub proof fn lemma_included_sources(index: int, current_gate: Option<usize>, present: bool)
    requires
        index >= 0,
    ensures
        index == 0 ==> included(index, current_gate, present),
        present ==> included(index, current_gate, present),
        current_gate matches Some(g) && index <= g ==> included(index, current_gate, present),
        index > 0 && !present && (current_gate is None || (current_gate matches Some(g) && index > g))
            ==> !included(index, current_gate, present),
{
}

pub fn include_source(index: usize, current_gate: Option<usize>, present: bool) -> (b: bool)
    ensures
        b == included(index as int, current_gate, present),
{
    if index == 0 {
        true
    } else {
        match current_gate {
            Some(g) => present || index <= g,
            None => present,
        }
    }
}


// ---------------------------------------------------------------------------
// The document
// ---------------------------------------------------------------------------
/// Where a source starts in the review lines.
#[derive(Debug, Clone)]
pub struct ReviewSection {
    pub relative_path: String,
    pub start_line: usize,
}

/// One line of a review.
#[derive(Debug)]
pub enum ReviewLine {
    Separator { relative_path: String, phase: String, gate: String },
    MissingSource { relative_path: String },
    Markdown(PreviewLine),
    Message(String),
}

/// A review: the sources in order, each section starting at a separator.
#[derive(Debug)]
pub struct ReviewDocument {
    pub title: String,
    pub root_relative_path: String,
    pub sections: Vec<ReviewSection>,
    pub lines: Vec<ReviewLine>,
    pub source_count: usize,
}

/// The visible text of a review line.
pub open spec fn review_line_text(l: ReviewLine) -> Seq<char> {
    match l {
        ReviewLine::Separator { relative_path, phase, gate } => "FILE "@ + phase@ + " / "@ + gate@ + "  "@ + relative_path@,
        ReviewLine::MissingSource { relative_path } => "MISSING SOURCE "@ + relative_path@,
        ReviewLine::Markdown(line) => crate::preview::visible_of(line),
        ReviewLine::Message(t) => t@,
    }
}

impl ReviewLine {
    pub fn visible_text(&self) -> (r: String)
        ensures
            r@ == review_line_text(*self),
    {
        match self {
            ReviewLine::Separator { relative_path, phase, gate } => {
                let mut v = chars_of("FILE ");
                push_str(&mut v, phase.as_str());
                push_str(&mut v, " / ");
                push_str(&mut v, gate.as_str());
                push_str(&mut v, "  ");
                push_str(&mut v, relative_path.as_str());
                string_of(v.as_slice())
            },
            ReviewLine::MissingSource { relative_path } => {
                let mut v = chars_of("MISSING SOURCE ");
                push_str(&mut v, relative_path.as_str());
                string_of(v.as_slice())
            },
            ReviewLine::Markdown(line) => crate::preview::preview_visible_text(line),
            ReviewLine::Message(t) => t.clone(),
        }
    }
}

pub open spec fn lines_text(v: Seq<ReviewLine>) -> Seq<Seq<char>> {
    v.map_values(|l: ReviewLine| review_line_text(l))
}

impl ReviewDocument {
    /// The review as plain text, one line per review line.
    pub fn visible_text(&self) -> (r: String)
        ensures
            r@ == crate::text::join(lines_text(self.lines@), seq!['\n']),
    {
        let mut pieces: Vec<Vec<char>> = Vec::new();
        let mut i: usize = 0;
        while i < self.lines.len()
            invariant
                0 <= i <= self.lines@.len(),
                seqs(pieces@) == lines_text(self.lines@).take(i as int),
            decreases self.lines@.len() - i,
        {
            let t = self.lines[i].visible_text();
            let ghost before = seqs(pieces@);
            pieces.push(chars_of(t.as_str()));
            assert(seqs(pieces@) =~= before.push(lines_text(self.lines@)[i as int]));
            assert(lines_text(self.lines@).take(i + 1) =~= lines_text(self.lines@).take(i as int).push(lines_text(self.lines@)[i as int]));
            i = i + 1;
        }
        assert(lines_text(self.lines@).take(i as int) =~= lines_text(self.lines@));
        let sep = vec!['\n'];
        assert(sep@ =~= seq!['\n']);
        let j = crate::text::join_chars(&pieces, sep.as_slice());
        string_of(j.as_slice())
    }
}

/// The canonical source a relative path belongs to: the first whose file it
/// is, or whose folder holds it, from source `i` on.
pub open spec fn spec_for_from(rel: Seq<char>, i: int) -> Option<int>
    decreases 11 - i,
{
    if i < 0 || i >= 11 {
        None
    } else if rel == canonical(i).0 || exists|k: int| 0 <= k < canonical(i).1.len() && #[trigger] starts_with(rel, canonical(i).1[k] + seq!['/']) {
        Some(i)
    } else {
        spec_for_from(rel, i + 1)
    }
}

/// Which canonical source a relative path belongs to, if any.
pub fn source_spec_for_relative_path(rel: &str) -> (r: Option<usize>)
    ensures
        match r {
            Some(i) => spec_for_from(rel@, 0) == Some(i as int) && i < CANONICAL_SOURCE_COUNT,
            None => spec_for_from(rel@, 0) is None,
        },
{
    let rc = chars_of(rel);
    let mut i: usize = 0;
    while i < CANONICAL_SOURCE_COUNT
        invariant
            0 <= i <= 11,
            rc@ == rel@,
            spec_for_from(rel@, 0) == spec_for_from(rel@, i as int),
        decreases 11 - i,
    {
        let spec = canonical_source(i);
        let f = chars_of(spec.file);
        let mut hit = crate::text::eq_chars(rc.as_slice(), f.as_slice());
        let mut k: usize = 0;
        let ghost folders = canonical(i as int).1;
        while k < spec.folders.len() && !hit
            invariant
                0 <= k <= spec.folders@.len(),
                folders == spec.folders@.map_values(|f: &'static str| f@),
                rc@ == rel@,
                hit == (rel@ == canonical(i as int).0 || exists|j: int| 0 <= j < k && #[trigger] starts_with(rel@, folders[j] + seq!['/'])),
                hit ==> (rel@ == canonical(i as int).0 || exists|j: int| 0 <= j < folders.len() && #[trigger] starts_with(rel@, folders[j] + seq!['/'])),
            decreases spec.folders@.len() - k,
        {
            let mut p = chars_of(spec.folders[k]);
            p.push('/');
            assert(p@ == folders[k as int] + seq!['/']);
            if has_prefix(rc.as_slice(), p.as_slice()) {
                hit = true;
            }
            k = k + 1;
        }
        if hit {
            return Some(i);
        }
        proof {
            assert(k == spec.folders@.len());
        }
        i = i + 1;
    }
    None
}

fn joined_rel(root_relative_path: &str, rel: &str) -> (r: String)
    ensures
        r@ == root_relative_path@ + seq!['/'] + rel@,
{
    let mut v = chars_of(root_relative_path);
    v.push('/');
    push_str(&mut v, rel);
    string_of(v.as_slice())
}

/// A review line as its variant and texts.
pub enum LineView {
    Separator(Seq<char>, Seq<char>, Seq<char>),
    Missing(Seq<char>),
    Markdown(PreviewLine),
    Message(Seq<char>),
}

pub open spec fn line_view(l: ReviewLine) -> LineView {
    match l {
        ReviewLine::Separator { relative_path, phase, gate } => LineView::Separator(relative_path@, phase@, gate@),
        ReviewLine::MissingSource { relative_path } => LineView::Missing(relative_path@),
        ReviewLine::Markdown(line) => LineView::Markdown(line),
        ReviewLine::Message(t) => LineView::Message(t@),
    }
}

pub open spec fn lines_view(v: Seq<ReviewLine>) -> Seq<LineView> {
    v.map_values(|l: ReviewLine| line_view(l))
}

pub open spec fn sections_view(v: Seq<ReviewSection>) -> Seq<(Seq<char>, nat)> {
    v.map_values(|s: ReviewSection| (s.relative_path@, s.start_line as nat))
}

/// The lines a separator adds: two blank lines unless it is the first line,
/// then the separator.
pub open spec fn separator_lines(first: bool, rel: Seq<char>, phase: Seq<char>, gate: Seq<char>) -> Seq<LineView> {
    (if first {
        Seq::empty()
    } else {
        seq![LineView::Message(Seq::empty()), LineView::Message(Seq::empty())]
    }) + seq![LineView::Separator(rel, phase, gate)]
}

/// Open a section: blank lines before it unless it is the first, then the
/// separator, recording where the section starts.
pub fn append_section_separator(
    relative_path: String,
    phase: &str,
    gate: &str,
    sections: &mut Vec<ReviewSection>,
    lines: &mut Vec<ReviewLine>,
)
    ensures
        lines_view(final(lines)@) == lines_view(old(lines)@) + separator_lines(old(lines)@.len() == 0, relative_path@, phase@, gate@),
        sections_view(final(sections)@) == sections_view(old(sections)@).push(
            (relative_path@, (if old(lines)@.len() == 0 { 0 } else { old(lines)@.len() + 2 }) as nat),
        ),
{
    let ghost l0 = lines_view(lines@);
    let ghost s0 = sections_view(sections@);
    let first = lines.len() == 0;
    if !first {
        lines.push(ReviewLine::Message(String::new()));
        lines.push(ReviewLine::Message(String::new()));
    }
    let start = lines.len();
    let ghost rp = relative_path@;
    sections.push(ReviewSection { relative_path: relative_path.clone(), start_line: start });
    lines.push(ReviewLine::Separator { relative_path, phase: phase.to_owned(), gate: gate.to_owned() });
    proof {
        assert(sections_view(sections@) =~= s0.push((rp, start as nat)));
        assert(lines_view(lines@) =~= l0 + separator_lines(first, rp, phase@, gate@));
    }
}


/// What reading a canonical source gave: its rendered file, the markdown
/// files of the first folder variant that is a directory (relative paths in
/// order, each rendered), or nothing.
#[derive(Debug)]
pub enum SourceContent {
    File(Vec<PreviewLine>),
    Folder { folder: String, files: Vec<(String, Vec<PreviewLine>)> },
    Missing,
}

pub open spec fn sep_start(n: nat) -> nat {
    if n == 0 {
        0
    } else {
        n + 2
    }
}

/// The phase and gate a separator shows for a source path.
pub open spec fn phase_gate_for(rel: Seq<char>) -> (Seq<char>, Seq<char>) {
    match spec_for_from(rel, 0) {
        Some(j) => (canonical(j).2, canonical(j).3),
        None => ("Source"@, "Source"@),
    }
}

pub open spec fn markdown_views(v: Seq<PreviewLine>) -> Seq<LineView> {
    v.map_values(|l: PreviewLine| LineView::Markdown(l))
}

/// The review state (lines, sections) after one rendered file.
pub open spec fn file_section(
    st: (Seq<LineView>, Seq<(Seq<char>, nat)>),
    root: Seq<char>,
    rel: Seq<char>,
    rendered: Seq<PreviewLine>,
) -> (Seq<LineView>, Seq<(Seq<char>, nat)>) {
    let path = root + seq!['/'] + rel;
    let (ph, gt) = phase_gate_for(rel);
    (
        st.0 + separator_lines(st.0.len() == 0, path, ph, gt) + markdown_views(rendered),
        st.1.push((path, sep_start(st.0.len()))),
    )
}

pub open spec fn folder_files(
    st: (Seq<LineView>, Seq<(Seq<char>, nat)>),
    root: Seq<char>,
    files: Seq<(String, Vec<PreviewLine>)>,
) -> (Seq<LineView>, Seq<(Seq<char>, nat)>)
    decreases files.len(),
{
    if files.len() == 0 {
        st
    } else {
        let prev = folder_files(st, root, files.drop_last());
        file_section(prev, root, files.last().0@, files.last().1@)
    }
}

/// The review state after canonical source `i` with what reading it gave.
pub open spec fn source_section(
    st: (Seq<LineView>, Seq<(Seq<char>, nat)>),
    root: Seq<char>,
    i: int,
    content: SourceContent,
) -> (Seq<LineView>, Seq<(Seq<char>, nat)>) {
    let (file, folders, phase, gate) = canonical(i);
    match content {
        SourceContent::File(rendered) => file_section(st, root, file, rendered@),
        SourceContent::Folder { folder, files } => if files@.len() == 0 {
            let path = root + seq!['/'] + folder@ + seq!['/'];
            (
                st.0 + separator_lines(st.0.len() == 0, path, phase, gate) + seq![
                    LineView::Message("NO MARKDOWN SOURCES "@ + path),
                ],
                st.1.push((path, sep_start(st.0.len()))),
            )
        } else {
            folder_files(st, root, files@)
        },
        SourceContent::Missing => {
            let path = root + seq!['/'] + file;
            (
                st.0 + separator_lines(st.0.len() == 0, path, phase, gate) + seq![LineView::Missing(path)],
                st.1.push((path, sep_start(st.0.len()))),
            )
        },
    }
}

fn push_rendered(lines: &mut Vec<ReviewLine>, rendered: Vec<PreviewLine>)
    ensures
        lines_view(final(lines)@) == lines_view(old(lines)@) + markdown_views(rendered@),
{
    let ghost l0 = lines_view(lines@);
    let ghost rv = rendered@;
    let mut rest = rendered;
    let mut k: usize = 0;
    let total = rest.len();
    while rest.len() > 0
        invariant
            k <= rv.len(),
            rv.len() == total,
            rest@ == rv.skip(k as int),
            lines_view(lines@) == l0 + markdown_views(rv.take(k as int)),
        decreases rest.len(),
    {
        let ghost r0 = rest@;
        let l = rest.remove(0);
        assert(l == rv[k as int]);
        let ghost before = lines_view(lines@);
        lines.push(ReviewLine::Markdown(l));
        assert(lines_view(lines@) =~= before.push(LineView::Markdown(rv[k as int])));
        assert(markdown_views(rv.take(k + 1)) =~= markdown_views(rv.take(k as int)).push(LineView::Markdown(rv[k as int])));
        assert(rest@ =~= rv.skip(k + 1));
        k = k + 1;
    }
    assert(rv.take(k as int) =~= rv);
}

/// Add one rendered source file under its separator.
pub fn append_file_section(
    root_relative_path: &str,
    source_relative_path: &str,
    rendered: Vec<PreviewLine>,
    sections: &mut Vec<ReviewSection>,
    lines: &mut Vec<ReviewLine>,
)
    ensures
        (lines_view(final(lines)@), sections_view(final(sections)@)) == file_section(
            (lines_view(old(lines)@), sections_view(old(sections)@)),
            root_relative_path@,
            source_relative_path@,
            rendered@,
        ),
{
    let path = joined_rel(root_relative_path, source_relative_path);
    match source_spec_for_relative_path(source_relative_path) {
        Some(j) => {
            let spec = canonical_source(j);
            append_section_separator(path, spec.phase, spec.gate, sections, lines);
        },
        None => {
            append_section_separator(path, "Source", "Source", sections, lines);
        },
    }
    push_rendered(lines, rendered);
}

/// Add canonical source `index` with what reading it gave (see
/// [`source_section`]).
pub fn append_source(
    root_relative_path: &str,
    index: usize,
    content: SourceContent,
    sections: &mut Vec<ReviewSection>,
    lines: &mut Vec<ReviewLine>,
)
    requires
        index < CANONICAL_SOURCE_COUNT,
    ensures
        (lines_view(final(lines)@), sections_view(final(sections)@)) == source_section(
            (lines_view(old(lines)@), sections_view(old(sections)@)),
            root_relative_path@,
            index as int,
            content,
        ),
{
    let spec = canonical_source(index);
    let ghost c0 = content;
    let ghost st_in = (lines_view(lines@), sections_view(sections@));
    assert(c0 == content);
    match content {
        SourceContent::File(rendered) => {
            let ghost st = (lines_view(lines@), sections_view(sections@));
            assert(st == (lines_view(old(lines)@), sections_view(old(sections)@)));
            let ghost rv = rendered@;
            append_file_section(root_relative_path, spec.file, rendered, sections, lines);
            assert((lines_view(lines@), sections_view(sections@)) == file_section(st, root_relative_path@, spec.file@, rv));
            assert(spec.file@ == canonical(index as int).0);
            assert(c0 == SourceContent::File(rendered));
            assert(source_section(st, root_relative_path@, index as int, c0) == file_section(st, root_relative_path@, canonical(index as int).0, rv));
            assert((lines_view(lines@), sections_view(sections@)) == source_section(st, root_relative_path@, index as int, c0));
            assert((lines_view(lines@), sections_view(sections@)) == source_section(st_in, root_relative_path@, index as int, c0));
        },
        SourceContent::Folder { folder, files } => {
            if files.len() == 0 {
                let mut v = chars_of(root_relative_path);
                v.push('/');
                push_str(&mut v, folder.as_str());
                v.push('/');
                let path = string_of(v.as_slice());
                assert(path@ =~= root_relative_path@ + seq!['/'] + folder@ + seq!['/']);
                assert(c0 == SourceContent::Folder { folder, files });
                let ghost l0 = lines_view(lines@);
                append_section_separator(path.clone(), spec.phase, spec.gate, sections, lines);
                let mut m = chars_of("NO MARKDOWN SOURCES ");
                push_str(&mut m, path.as_str());
                let ghost before = lines_view(lines@);
                lines.push(ReviewLine::Message(string_of(m.as_slice())));
                assert(lines_view(lines@) =~= before.push(LineView::Message("NO MARKDOWN SOURCES "@ + path@)));
                assert((lines_view(lines@), sections_view(sections@)) == source_section(st_in, root_relative_path@, index as int, c0));
            } else {
                let ghost fv = files@;
                let ghost st0 = (lines_view(lines@), sections_view(sections@));
                let mut rest = files;
                let mut k: usize = 0;
                let total = rest.len();
                while rest.len() > 0
                    invariant
                        k <= fv.len(),
                        fv.len() == total,
                        rest@ == fv.skip(k as int),
                        (lines_view(lines@), sections_view(sections@)) == folder_files(st0, root_relative_path@, fv.take(k as int)),
                    decreases rest.len(),
                {
                    let (rel, rendered) = rest.remove(0);
                    assert((rel, rendered) == fv[k as int]);
                    assert(fv.take(k + 1).drop_last() =~= fv.take(k as int));
                    append_file_section(root_relative_path, rel.as_str(), rendered, sections, lines);
                    assert(rest@ =~= fv.skip(k + 1));
                    k = k + 1;
                }
                assert(fv.take(k as int) =~= fv);
                assert((lines_view(lines@), sections_view(sections@)) == source_section(st_in, root_relative_path@, index as int, c0));
            }
        },
        SourceContent::Missing => {
            let path = joined_rel(root_relative_path, spec.file);
            let ghost pv = path@;
            append_section_separator(path.clone(), spec.phase, spec.gate, sections, lines);
            let ghost before = lines_view(lines@);
            lines.push(ReviewLine::MissingSource { relative_path: path });
            assert(lines_view(lines@) =~= before.push(LineView::Missing(pv)));
            assert((lines_view(lines@), sections_view(sections@)) == source_section(st_in, root_relative_path@, index as int, c0));
        },
    }
    assert((lines_view(lines@), sections_view(sections@)) == source_section(st_in, root_relative_path@, index as int, c0));
}


/// The review state after the included sources, in order.
pub open spec fn built(root: Seq<char>, contents: Seq<(usize, SourceContent)>) -> (Seq<LineView>, Seq<(Seq<char>, nat)>)
    decreases contents.len(),
{
    if contents.len() == 0 {
        (Seq::empty(), Seq::empty())
    } else {
        let prev = built(root, contents.drop_last());
        source_section(prev, root, contents.last().0 as int, contents.last().1)
    }
}

/// Assemble a review from the included canonical sources (index and what
/// reading it gave), in order.
pub fn build_document(title: String, root_relative_path: String, contents: Vec<(usize, SourceContent)>) -> (d: ReviewDocument)
    requires
        forall|i: int| 0 <= i < contents@.len() ==> #[trigger] contents@[i].0 < CANONICAL_SOURCE_COUNT,
    ensures
        d.title@ == title@,
        d.root_relative_path@ == root_relative_path@,
        (lines_view(d.lines@), sections_view(d.sections@)) == built(root_relative_path@, contents@),
        d.source_count == d.sections@.len(),
{
    let ghost cv = contents@;
    let mut sections: Vec<ReviewSection> = Vec::new();
    let mut lines: Vec<ReviewLine> = Vec::new();
    let mut rest = contents;
    let mut k: usize = 0;
    let total = rest.len();
    assert(lines_view(lines@) =~= Seq::<LineView>::empty());
    assert(sections_view(sections@) =~= Seq::<(Seq<char>, nat)>::empty());
    while rest.len() > 0
        invariant
            k <= cv.len(),
            cv.len() == total,
            rest@ == cv.skip(k as int),
            forall|i: int| 0 <= i < cv.len() ==> #[trigger] cv[i].0 < CANONICAL_SOURCE_COUNT,
            (lines_view(lines@), sections_view(sections@)) == built(root_relative_path@, cv.take(k as int)),
        decreases rest.len(),
    {
        let (index, content) = rest.remove(0);
        assert((index, content) == cv[k as int]);
        assert(cv.take(k + 1).drop_last() =~= cv.take(k as int));
        append_source(root_relative_path.as_str(), index, content, &mut sections, &mut lines);
        assert(rest@ =~= cv.skip(k + 1));
        k = k + 1;
    }
    assert(cv.take(k as int) =~= cv);
    let n = sections.len();
    ReviewDocument { title, root_relative_path, sections, lines, source_count: n }
}

/// The markdown files of a folder listing, as `<folder>/<name>`, sorted:
/// regular files whose extension is `md`.
pub open spec fn markdown_paths(folder: Seq<char>, entries: Seq<(String, bool)>) -> Seq<Seq<char>>
    decreases entries.len(),
{
    if entries.len() == 0 {
        Seq::empty()
    } else {
        let e = entries.last();
        markdown_paths(folder, entries.drop_last()) + if e.1 && crate::inventory::has_md_extension(e.0@) {
            seq![folder + seq!['/'] + e.0@]
        } else {
            Seq::empty()
        }
    }
}

/// The relative paths of the markdown files in a folder listing (name and
/// whether it is a regular file), in filename order.
pub fn markdown_files_in(folder_relative_path: &str, entries: &Vec<(String, bool)>) -> (r: Vec<String>)
    ensures
        crate::tree::strings_view(r@) == crate::tree::sorted_texts(markdown_paths(folder_relative_path@, entries@)),
{
    let ghost goal = markdown_paths(folder_relative_path@, entries@);
    let mut out: Vec<String> = Vec::new();
    let mut i: usize = 0;
    while i < entries.len()
        invariant
            0 <= i <= entries@.len(),
            crate::tree::strings_view(out@) == markdown_paths(folder_relative_path@, entries@.take(i as int)),
        decreases entries@.len() - i,
    {
        assert(entries@.take(i + 1).drop_last() =~= entries@.take(i as int));
        let ghost before = crate::tree::strings_view(out@);
        if entries[i].1 && crate::inventory::is_md_name(entries[i].0.as_str()) {
            let p = joined_rel(folder_relative_path, entries[i].0.as_str());
            out.push(p);
            assert(crate::tree::strings_view(out@) =~= before + seq![folder_relative_path@ + seq!['/'] + entries@[i as int].0@]);
        } else {
            assert(crate::tree::strings_view(out@) =~= before + Seq::<Seq<char>>::empty());
        }
        i = i + 1;
    }
    assert(entries@.take(i as int) =~= entries@);
    crate::tree::sort_strings(out)
}

/// The reference files of a leaf, relative to the repository: the markdown
/// files of its references folder (nothing when that folder is not a
/// directory).
pub fn reference_files(root_relative_path: &str, folder_is_dir: bool, entries: &Vec<(String, bool)>) -> (r: Vec<String>)
    ensures
        !folder_is_dir ==> r@.len() == 0,
        folder_is_dir ==> crate::tree::strings_view(r@) == crate::tree::sorted_texts(
            markdown_paths(root_relative_path@ + seq!['/'] + REFERENCES_RELATIVE_DIR@, entries@),
        ),
{
    if !folder_is_dir {
        return Vec::new();
    }
    let folder = joined_rel(root_relative_path, REFERENCES_RELATIVE_DIR);
    markdown_files_in(folder.as_str(), entries)
}

/// The `REFERENCES` section of the plain review: empty without references,
/// else a blank line, a count, and each path indented by two.
pub open spec fn references_text(refs: Seq<Seq<char>>) -> Seq<char> {
    if refs.len() == 0 {
        Seq::empty()
    } else {
        "\nREFERENCES ("@ + crate::text::decimal(refs.len()) + ")\n"@ + crate::text::join(
            refs.map_values(|r: Seq<char>| "  "@ + r + seq!['\n']),
            Seq::empty(),
        )
    }
}

pub fn write_references_text(references: &[String]) -> (r: String)
    ensures
        r@ == references_text(crate::tree::strings_view(references@)),
{
    if references.len() == 0 {
        return String::new();
    }
    let ghost rv = crate::tree::strings_view(references@);
    let ghost items = rv.map_values(|r: Seq<char>| "  "@ + r + seq!['\n']);
    let mut out = chars_of("\nREFERENCES (");
    let d = crate::text::decimal_chars(references.len() as u64);
    append(&mut out, d.as_slice());
    push_str(&mut out, ")\n");
    let mut pieces: Vec<Vec<char>> = Vec::new();
    let mut i: usize = 0;
    while i < references.len()
        invariant
            0 <= i <= references@.len(),
            rv == crate::tree::strings_view(references@),
            items == rv.map_values(|r: Seq<char>| "  "@ + r + seq!['\n']),
            seqs(pieces@) == items.take(i as int),
        decreases references@.len() - i,
    {
        let mut v = chars_of("  ");
        push_str(&mut v, references[i].as_str());
        v.push('\n');
        assert(rv[i as int] == references@[i as int]@);
        assert(v@ =~= "  "@ + rv[i as int] + seq!['\n']);
        let ghost before = seqs(pieces@);
        pieces.push(v);
        assert(seqs(pieces@) =~= before.push(items[i as int]));
        assert(items.take(i + 1) =~= items.take(i as int).push(items[i as int]));
        i = i + 1;
    }
    assert(items.take(i as int) =~= items);
    let empty: Vec<char> = Vec::new();
    let j = crate::text::join_chars(&pieces, empty.as_slice());
    append(&mut out, j.as_slice());
    string_of(out.as_slice())
}

} // verus!
