//! LEAF phase model and the polish-boundary pause.
use crate::inventory::{heading_from, is_section_heading, lemma_heading_bounds, line_is_section_heading};
use crate::text::{
    append, ascii_lower_seq, ascii_lowercase, chars_of, char_is_digit, ends_with, has_prefix,
    has_suffix, is_digit, join, join_chars, lines, lines_of, push_str, seqs, split_once_at_char,
    split_once_char, starts_with, string_of, trim, trim_chars, trim_start, trim_start_chars,
};
use vstd::prelude::*;

verus! {

/// Machine-only marker of a phase that has not been polished yet.
pub const POLISH_PENDING_TOKEN: &'static str = "<!-- leaf:polish-pending -->";

#[derive(Debug, Clone, Copy, PartialEq, Eq, Structural)]
pub enum Phase {
    Learn,
    Example,
    Architect,
    Feedback,
}

/// The phases in LEAF order.
pub open spec fn phase_order() -> Seq<Phase> {
    seq![Phase::Learn, Phase::Example, Phase::Architect, Phase::Feedback]
}

pub open spec fn phase_index(p: Phase) -> nat {
    match p {
        Phase::Learn => 0,
        Phase::Example => 1,
        Phase::Architect => 2,
        Phase::Feedback => 3,
    }
}

pub open spec fn phase_name(p: Phase) -> Seq<char> {
    match p {
        Phase::Learn => "Learn"@,
        Phase::Example => "Example"@,
        Phase::Architect => "Architect"@,
        Phase::Feedback => "Feedback"@,
    }
}

pub open spec fn phase_dir(p: Phase) -> Seq<char> {
    match p {
        Phase::Learn => "01-Learn"@,
        Phase::Example => "02-Example"@,
        Phase::Architect => "03-Architect"@,
        Phase::Feedback => "04-Feedback"@,
    }
}

pub open spec fn phase_first_gate(p: Phase) -> Seq<char> {
    match p {
        Phase::Learn => "① Intent"@,
        Phase::Example => "③ Criteria"@,
        Phase::Architect => "⑤ Design"@,
        Phase::Feedback => "⑨ Review"@,
    }
}

/// The first phase in order whose name starts the trimmed status value.
pub open spec fn phase_from_value(value: Seq<char>) -> Option<Phase> {
    let t = trim(value);
    if starts_with(t, phase_name(Phase::Learn)) {
        Some(Phase::Learn)
    } else if starts_with(t, phase_name(Phase::Example)) {
        Some(Phase::Example)
    } else if starts_with(t, phase_name(Phase::Architect)) {
        Some(Phase::Architect)
    } else if starts_with(t, phase_name(Phase::Feedback)) {
        Some(Phase::Feedback)
    } else {
        None
    }
}

/// A status value names the phase its trimmed text starts with, and the
/// phases follow one another Learn, Example, Architect, Feedback, with
/// nothing after Feedback.
pub proof fn lemma_phase_values_and_order(v: Seq<char>)
    ensures
        starts_with(trim(v), "Learn"@) ==> phase_from_value(v) == Some(Phase::Learn),
        starts_with(trim(v), "Example"@) ==> phase_from_value(v) == Some(Phase::Example),
        starts_with(trim(v), "Architect"@) ==> phase_from_value(v) == Some(Phase::Architect),
        starts_with(trim(v), "Feedback"@) ==> phase_from_value(v) == Some(Phase::Feedback),
        !starts_with(trim(v), "Learn"@) && !starts_with(trim(v), "Example"@) && !starts_with(trim(v), "Architect"@)
            && !starts_with(trim(v), "Feedback"@) ==> phase_from_value(v) is None,
        phase_order()[(phase_index(Phase::Learn) + 1) as int] == Phase::Example,
        phase_order()[(phase_index(Phase::Example) + 1) as int] == Phase::Architect,
        phase_order()[(phase_index(Phase::Architect) + 1) as int] == Phase::Feedback,
        phase_index(Phase::Feedback) + 1 == phase_order().len(),
{
    reveal_strlit("Learn");
    reveal_strlit("Example");
    reveal_strlit("Architect");
    reveal_strlit("Feedback");
    let t = trim(v);
    if t.len() > 0 {
        assert(starts_with(t, "Learn"@) ==> t.take(5)[0] == 'L');
        assert(starts_with(t, "Example"@) ==> t.take(7)[0] == 'E');
        assert(starts_with(t, "Architect"@) ==> t.take(9)[0] == 'A');
        assert(starts_with(t, "Feedback"@) ==> t.take(8)[0] == 'F');
    }
}

impl Phase {
    pub const ORDER: [Phase; 4] = [Phase::Learn, Phase::Example, Phase::Architect, Phase::Feedback];

    pub fn name(self) -> (r: &'static str)
        ensures
            r@ == phase_name(self),
    {
        match self {
            Phase::Learn => "Learn",
            Phase::Example => "Example",
            Phase::Architect => "Architect",
            Phase::Feedback => "Feedback",
        }
    }

    pub fn dir(self) -> (r: &'static str)
        ensures
            r@ == phase_dir(self),
    {
        match self {
            Phase::Learn => "01-Learn",
            Phase::Example => "02-Example",
            Phase::Architect => "03-Architect",
            Phase::Feedback => "04-Feedback",
        }
    }

    /// First gate label, written into `current gate` when entering this phase.
    pub fn first_gate_label(self) -> (r: &'static str)
        ensures
            r@ == phase_first_gate(self),
    {
        match self {
            Phase::Learn => "① Intent",
            Phase::Example => "③ Criteria",
            Phase::Architect => "⑤ Design",
            Phase::Feedback => "⑨ Review",
        }
    }

    /// Position of this phase in `ORDER`.
    pub fn index(self) -> (r: usize)
        ensures
            r == phase_index(self),
            phase_order()[r as int] == self,
    {
        match self {
            Phase::Learn => 0,
            Phase::Example => 1,
            Phase::Architect => 2,
            Phase::Feedback => 3,
        }
    }

    /// The phase after this one, if any.
    pub fn next(self) -> (r: Option<Phase>)
        ensures
            phase_index(self) + 1 < 4 ==> r == Some(phase_order()[phase_index(self) + 1 as int]),
            phase_index(self) + 1 >= 4 ==> r is None,
    {
        match self {
            Phase::Learn => Some(Phase::Example),
            Phase::Example => Some(Phase::Architect),
            Phase::Architect => Some(Phase::Feedback),
            Phase::Feedback => None,
        }
    }

    /// Match a `current phase` value to a phase by its leading word.
    pub fn from_status_value(value: &str) -> (r: Option<Phase>)
        ensures
            r == phase_from_value(value@),
    {
        let v = chars_of(value);
        let t = trim_chars(v.as_slice());
        let mut k: usize = 0;
        while k < 4
            invariant
                k <= 4,
                t@ == trim(value@),
                forall|j: int| 0 <= j < k ==> !starts_with(t@, phase_name(phase_order()[j])),
            decreases 4 - k,
        {
            let p = Phase::ORDER[k];
            assert(p == phase_order()[k as int]);
            let name = chars_of(p.name());
            if has_prefix(t.as_slice(), name.as_slice()) {
                return Some(p);
            }
            k = k + 1;
        }
        assert(phase_order()[0] == Phase::Learn);
        assert(phase_order()[1] == Phase::Example);
        assert(phase_order()[2] == Phase::Architect);
        assert(phase_order()[3] == Phase::Feedback);
        assert(!starts_with(t@, phase_name(phase_order()[0])));
        assert(!starts_with(t@, phase_name(phase_order()[1])));
        assert(!starts_with(t@, phase_name(phase_order()[2])));
        assert(!starts_with(t@, phase_name(phase_order()[3])));
        None
    }
}

/// Checkpoint copies are named `YYMMDD-HHMM <original>`.
pub open spec fn checkpoint_copy_name(name: Seq<char>) -> bool {
    match split_once_char(name, ' ') {
        Some((stamp, _)) => match split_once_char(stamp, '-') {
            Some((date, time)) => date.len() == 6 && (forall|i: int|
                0 <= i < date.len() ==> is_digit(#[trigger] date[i])) && time.len() == 4 && (
            forall|i: int| 0 <= i < time.len() ==> is_digit(#[trigger] time[i])),
            None => false,
        },
        None => false,
    }
}

fn all_digit_chars(s: &[char]) -> (b: bool)
    ensures
        b == (forall|i: int| 0 <= i < s@.len() ==> is_digit(#[trigger] s@[i])),
{
    for i in 0..s.len()
        invariant
            forall|j: int| 0 <= j < i ==> is_digit(#[trigger] s@[j]),
    {
        if !char_is_digit(s[i]) {
            return false;
        }
    }
    true
}

pub fn is_checkpoint_copy(name: &str) -> (b: bool)
    ensures
        b == checkpoint_copy_name(name@),
{
    let n = chars_of(name);
    match split_once_at_char(n.as_slice(), ' ') {
        Some((stamp, _rest)) => match split_once_at_char(stamp.as_slice(), '-') {
            Some((date, time)) => date.len() == 6 && all_digit_chars(date.as_slice()) && time.len()
                == 4 && all_digit_chars(time.as_slice()),
            None => false,
        },
        None => false,
    }
}

/// A `- key:` status field line, matched case-insensitively.
pub open spec fn status_field_line(line: Seq<char>, key: Seq<char>) -> bool {
    let t = trim_start(line);
    let t2 = if t.len() > 0 && t[0] == '-' {
        trim_start(t.drop_first())
    } else {
        t
    };
    starts_with(ascii_lower_seq(t2), key.push(':'))
}

pub fn is_status_field_chars(line: &[char], key: &[char]) -> (b: bool)
    ensures
        b == status_field_line(line@, key@),
{
    let t = trim_start_chars(line);
    let t2 = if t.len() > 0 && t[0] == '-' {
        let rest = crate::text::slice_vec(t.as_slice(), 1, t.len());
        assert(rest@ == t@.drop_first());
        trim_start_chars(rest.as_slice())
    } else {
        t
    };
    let low = ascii_lowercase(t2.as_slice());
    let mut pat: Vec<char> = Vec::new();
    append(&mut pat, key);
    pat.push(':');
    has_prefix(low.as_slice(), pat.as_slice())
}

/// Match a `- key:` status field line, case-insensitively.
pub fn is_status_field(line: &str, key: &str) -> (b: bool)
    ensures
        b == status_field_line(line@, key@),
{
    let l = chars_of(line);
    let k = chars_of(key);
    is_status_field_chars(l.as_slice(), k.as_slice())
}

/// `lines` joined by `'\n'`, with a final `'\n'` when `content` ended in one.
pub open spec fn rejoin(outs: Seq<Seq<char>>, content: Seq<char>) -> Seq<char> {
    if ends_with(content, seq!['\n']) {
        join(outs, seq!['\n']).push('\n')
    } else {
        join(outs, seq!['\n'])
    }
}

/// Line `i` of `ls` after the phase rewrite: preamble `current phase` and
/// `current gate` lines name `phase`; every other line is kept.
pub open spec fn phase_rewritten_line(ls: Seq<Seq<char>>, i: int, phase: Phase) -> Seq<char> {
    if i < heading_from(ls, 0) && status_field_line(ls[i], "current phase"@) {
        "- current phase: "@ + phase_name(phase)
    } else if i < heading_from(ls, 0) && status_field_line(ls[i], "current gate"@) {
        "- current gate: "@ + phase_first_gate(phase)
    } else {
        ls[i]
    }
}

pub open spec fn rewritten_status(content: Seq<char>, phase: Phase) -> Seq<char> {
    let ls = lines(content);
    rejoin(Seq::new(ls.len(), |i: int| phase_rewritten_line(ls, i, phase)), content)
}

/// Joins `outs` by newlines, keeping `content`'s trailing newline.
pub fn rejoin_lines(outs: &Vec<Vec<char>>, content: &[char]) -> (r: Vec<char>)
    ensures
        r@ == rejoin(seqs(outs@), content@),
{
    let nl = vec!['\n'];
    assert(nl@ =~= seq!['\n']);
    let mut r = join_chars(outs, nl.as_slice());
    if has_suffix(content, nl.as_slice()) {
        r.push('\n');
    }
    r
}

/// Rewrite the `current phase` / `current gate` preamble lines of a status
/// document to `phase`; every other line is preserved verbatim.
pub fn rewrite_status_phase(content: &str, phase: Phase) -> (r: String)
    ensures
        r@ == rewritten_status(content@, phase),
{
    let c = chars_of(content);
    let ls = lines_of(c.as_slice());
    let ghost sl = seqs(ls@);
    let key_phase = chars_of("current phase");
    let key_gate = chars_of("current gate");
    let mut outs: Vec<Vec<char>> = Vec::new();
    let mut in_preamble = true;
    proof {
        lemma_heading_bounds(sl, 0);
    }
    for i in 0..ls.len()
        invariant
            sl == seqs(ls@),
            sl == lines(content@),
            key_phase@ == "current phase"@,
            key_gate@ == "current gate"@,
            0 <= heading_from(sl, 0) <= sl.len(),
            in_preamble == (i <= heading_from(sl, 0)),
            seqs(outs@) == Seq::new(i as nat, |j: int| phase_rewritten_line(sl, j, phase)),
    {
        let line = &ls[i];
        assert(line@ == sl[i as int]);
        if in_preamble && line_is_section_heading(line.as_slice()) {
            in_preamble = false;
        }
        proof {
            lemma_heading_prefix(sl, i as int);
        }
        let out: Vec<char> = if in_preamble && is_status_field_chars(
            line.as_slice(),
            key_phase.as_slice(),
        ) {
            let mut o: Vec<char> = Vec::new();
            push_str(&mut o, "- current phase: ");
            push_str(&mut o, phase.name());
            o
        } else if in_preamble && is_status_field_chars(line.as_slice(), key_gate.as_slice()) {
            let mut o: Vec<char> = Vec::new();
            push_str(&mut o, "- current gate: ");
            push_str(&mut o, phase.first_gate_label());
            o
        } else {
            crate::text::slice_vec(line.as_slice(), 0, line.len())
        };
        assert(in_preamble == (i < heading_from(sl, 0)));
        assert(out@ =~= phase_rewritten_line(sl, i as int, phase));
        let ghost before = seqs(outs@);
        let ghost outv = out@;
        outs.push(out);
        assert(seqs(outs@) =~= before.push(outv));
        assert(seqs(outs@) =~= Seq::new((i + 1) as nat, |j: int| phase_rewritten_line(sl, j, phase)));
    }
    let r = rejoin_lines(&outs, c.as_slice());
    string_of(r.as_slice())
}

/// Every line before the first heading is not a heading; the heading line is.
pub proof fn lemma_heading_prefix(ls: Seq<Seq<char>>, i: int)
    requires
        0 <= i < ls.len(),
    ensures
        i < heading_from(ls, 0) ==> !is_section_heading(ls[i]),
        i == heading_from(ls, 0) ==> is_section_heading(ls[i]),
{
    lemma_heading_scan(ls, 0, i);
}

proof fn lemma_heading_scan(ls: Seq<Seq<char>>, k: int, i: int)
    requires
        0 <= k <= i < ls.len(),
        heading_from(ls, 0) == heading_from(ls, k),
        forall|j: int| 0 <= j < k ==> !is_section_heading(#[trigger] ls[j]),
    ensures
        i < heading_from(ls, 0) ==> !is_section_heading(ls[i]),
        i == heading_from(ls, 0) ==> is_section_heading(ls[i]),
    decreases i - k,
{
    if is_section_heading(ls[k]) {
        assert(heading_from(ls, k) == k);
    } else if k < i {
        lemma_heading_scan(ls, k + 1, i);
    } else {
        lemma_heading_bounds(ls, k + 1);
    }
}


/// Whether some line of `content` starts (after leading whitespace) with the
/// polish-pending token.
pub open spec fn carries_token(content: Seq<char>) -> bool {
    exists|i: int| 0 <= i < lines(content).len() && #[trigger] starts_with(trim_start(lines(content)[i]), POLISH_PENDING_TOKEN@)
}

pub fn has_polish_token(content: &str) -> (b: bool)
    ensures
        b == carries_token(content@),
{
    let c = chars_of(content);
    let ls = lines_of(c.as_slice());
    let tok = chars_of(POLISH_PENDING_TOKEN);
    let mut i: usize = 0;
    while i < ls.len()
        invariant
            0 <= i <= ls@.len(),
            seqs(ls@) == lines(content@),
            tok@ == POLISH_PENDING_TOKEN@,
            forall|j: int| 0 <= j < i ==> !#[trigger] starts_with(trim_start(lines(content@)[j]), POLISH_PENDING_TOKEN@),
        decreases ls@.len() - i,
    {
        let t = trim_start_chars(ls[i].as_slice());
        assert(ls@[i as int]@ == lines(content@)[i as int]);
        if has_prefix(t.as_slice(), tok.as_slice()) {
            return true;
        }
        i = i + 1;
    }
    false
}

/// One entry of a phase directory: its file name and what reading it gave.
pub open spec fn marks_unpolished(name: Seq<char>, content: Result<String, String>) -> bool {
    &&& ends_with(name, ".md"@)
    &&& !checkpoint_copy_name(name)
    &&& match content {
        Ok(c) => carries_token(c@),
        Err(_) => false,
    }
}

/// Whether a phase still needs polishing: some `.md` file of its directory
/// (checkpoint copies aside) carries the token at the start of a line.
/// `None` is a directory that could not be listed (a missing phase), which
/// reads as polished.
pub fn phase_unpolished(entries: &Option<Vec<(String, Result<String, String>)>>) -> (b: bool)
    ensures
        b == match entries {
            None => false,
            Some(es) => exists|i: int| 0 <= i < es@.len() && #[trigger] marks_unpolished(es@[i].0@, es@[i].1),
        },
{
    match entries {
        None => false,
        Some(es) => any_marks_unpolished(es),
    }
}

fn any_marks_unpolished(es: &Vec<(String, Result<String, String>)>) -> (b: bool)
    ensures
        b == exists|i: int| 0 <= i < es@.len() && #[trigger] marks_unpolished(es@[i].0@, es@[i].1),
{
    let mut i: usize = 0;
    while i < es.len()
        invariant
            0 <= i <= es@.len(),
            forall|j: int| 0 <= j < i ==> !#[trigger] marks_unpolished(es@[j].0@, es@[j].1),
        decreases es@.len() - i,
    {
        let name = chars_of(es[i].0.as_str());
        let md = chars_of(".md");
        if has_suffix(name.as_slice(), md.as_slice()) && !is_checkpoint_copy(es[i].0.as_str()) {
            let hit = match &es[i].1 {
                Ok(c) => has_polish_token(c.as_str()),
                Err(_) => false,
            };
            if hit {
                assert(marks_unpolished(es@[i as int].0@, es@[i as int].1));
                return true;
            }
        }
        i = i + 1;
    }
    false
}

/// The phase after `p` in LEAF order.
pub open spec fn next_phase(p: Phase) -> Option<Phase> {
    match p {
        Phase::Learn => Some(Phase::Example),
        Phase::Example => Some(Phase::Architect),
        Phase::Architect => Some(Phase::Feedback),
        Phase::Feedback => None,
    }
}

/// Where `leaf next` goes from a status document: nowhere when its current
/// phase cannot be read, `None` at the last phase, else (current, next).
pub open spec fn transition(content: Seq<char>) -> Result<Option<(Phase, Phase)>, ()> {
    match crate::inventory::status_value(content, "current phase"@, "current phase"@) {
        None => Err(()),
        Some(v) => match phase_from_value(v) {
            None => Err(()),
            Some(cur) => match next_phase(cur) {
                None => Ok(None),
                Some(n) => Ok(Some((cur, n))),
            },
        },
    }
}

pub fn phase_transition(content: &str) -> (r: Result<Option<(Phase, Phase)>, String>)
    ensures
        match (r, transition(content@)) {
            (Ok(a), Ok(b)) => a == b,
            (Err(e), Err(_)) => e@ == "cannot determine current phase from 00-status.md `current phase` field"@,
            _ => false,
        },
{
    let summary = crate::inventory::parse_status_summary(content, crate::inventory::StageDir::Sprouts);
    let current = match summary.current_phase {
        Some(v) => Phase::from_status_value(v.as_str()),
        None => None,
    };
    match current {
        None => Err("cannot determine current phase from 00-status.md `current phase` field".to_owned()),
        Some(cur) => match cur.next() {
            None => Ok(None),
            Some(next) => Ok(Some((cur, next))),
        },
    }
}

} // verus!
