//! Lifecycle stages of the `.leaf/` workspace and the `00-status.md` parser.
use crate::text::{
    all_digits, chars_of, char_is_digit, digits_value, eq_chars, has_prefix, is_digit, lines,
    lines_of, parse_digits, seqs, slice_vec, split_once_at_char, split_once_char, squash_whitespace,
    squash_ws, starts_with, string_of, to_lowercase, trim, trim_chars, trim_start, trim_start_chars,
    unicode_lower,
};
use vstd::prelude::*;

verus! {

#[derive(Debug, Clone, Copy, PartialEq, Eq, Structural)]
pub enum StageDir {
    Sprouts,
    Leaves,
    Fallen,
    Pressed,
}

#[derive(Debug, Clone, Copy, PartialEq, Eq, Structural)]
pub enum Stage {
    Sprout,
    Leaf,
    Fallen,
}

#[derive(Debug, Clone, Copy, PartialEq, Eq, Structural)]
pub enum ItemKind {
    LeafWork,
    PressedDigest,
}

#[derive(Debug, Clone, Copy, PartialEq, Eq, Structural)]
pub enum ParseState {
    Valid,
    Partial,
    Error,
}

#[derive(Debug, Clone, Copy, PartialEq, Eq, Structural)]
pub enum StatusField {
    Stage,
    FallenReason,
    CurrentPhase,
    CurrentGate,
    FirstMissingGate,
    NextAction,
}

/// What the preamble of a `00-status.md` says.
#[derive(Debug)]
pub struct StatusSummary {
    pub parse_state: ParseState,
    pub stage: Option<String>,
    pub legacy_state: Option<String>,
    pub fallen_reason: Option<String>,
    pub current_phase: Option<String>,
    pub current_gate: Option<String>,
    pub first_missing_gate: Option<String>,
    pub next_action: Option<String>,
    pub missing_fields: Vec<StatusField>,
}

pub const STAGE_DIRS: [StageDir; 3] = [StageDir::Sprouts, StageDir::Leaves, StageDir::Fallen];

pub const STAGES: [Stage; 3] = [Stage::Sprout, Stage::Leaf, Stage::Fallen];

impl StatusField {
    /// The canonical snake_case label of this field.
    pub fn label(self) -> (r: &'static str)
        ensures
            r@ == status_field_label(self),
    {
        match self {
            StatusField::Stage => "stage",
            StatusField::FallenReason => "fallen_reason",
            StatusField::CurrentPhase => "current_phase",
            StatusField::CurrentGate => "current_gate",
            StatusField::FirstMissingGate => "first_missing_gate",
            StatusField::NextAction => "next_action",
        }
    }
}

pub open spec fn status_field_label(f: StatusField) -> Seq<char> {
    match f {
        StatusField::Stage => "stage"@,
        StatusField::FallenReason => "fallen_reason"@,
        StatusField::CurrentPhase => "current_phase"@,
        StatusField::CurrentGate => "current_gate"@,
        StatusField::FirstMissingGate => "first_missing_gate"@,
        StatusField::NextAction => "next_action"@,
    }
}

pub open spec fn stage_dir_name(s: Stage) -> Seq<char> {
    match s {
        Stage::Sprout => "01-sprouts"@,
        Stage::Leaf => "02-leaves"@,
        Stage::Fallen => "03-fallen"@,
    }
}

pub open spec fn stage_label(s: Stage) -> Seq<char> {
    match s {
        Stage::Sprout => "sprout"@,
        Stage::Leaf => "leaf"@,
        Stage::Fallen => "fallen"@,
    }
}

impl Stage {
    pub fn dir_name(self) -> (r: &'static str)
        ensures
            r@ == stage_dir_name(self),
    {
        match self {
            Stage::Sprout => "01-sprouts",
            Stage::Leaf => "02-leaves",
            Stage::Fallen => "03-fallen",
        }
    }

    pub fn label(self) -> (r: &'static str)
        ensures
            r@ == stage_label(self),
    {
        match self {
            Stage::Sprout => "sprout",
            Stage::Leaf => "leaf",
            Stage::Fallen => "fallen",
        }
    }
}

pub open spec fn stage_dir_dir_name(d: StageDir) -> Seq<char> {
    match d {
        StageDir::Sprouts => stage_dir_name(Stage::Sprout),
        StageDir::Leaves => stage_dir_name(Stage::Leaf),
        StageDir::Fallen => stage_dir_name(Stage::Fallen),
        StageDir::Pressed => "04-pressed"@,
    }
}

impl StageDir {
    /// The canonical on-disk stage directory name.
    pub fn dir_name(self) -> (r: &'static str)
        ensures
            r@ == stage_dir_dir_name(self),
    {
        match self {
            StageDir::Sprouts => Stage::Sprout.dir_name(),
            StageDir::Leaves => Stage::Leaf.dir_name(),
            StageDir::Fallen => Stage::Fallen.dir_name(),
            StageDir::Pressed => "04-pressed",
        }
    }

    /// The old numbered directory name, used only for diagnostics.
    pub fn old_numbered_dir_name(self) -> (r: Option<&'static str>)
        ensures
            self == StageDir::Sprouts ==> (r matches Some(n) && n@ == "01-seeds"@),
            self == StageDir::Pressed ==> (r matches Some(n) && n@ == "04-pressed"@),
            (self == StageDir::Leaves || self == StageDir::Fallen) ==> r is None,
    {
        match self {
            StageDir::Sprouts => Some("01-seeds"),
            StageDir::Leaves => None,
            StageDir::Fallen => None,
            StageDir::Pressed => Some("04-pressed"),
        }
    }
}

// ---------------------------------------------------------------------------
// The status preamble
// ---------------------------------------------------------------------------
/// A line that ends the status preamble: a `##`-or-deeper heading.
pub open spec fn is_section_heading(line: Seq<char>) -> bool {
    starts_with(trim_start(line), "##"@)
}

/// Index of the first section heading at or after `i`, or `ls.len()`.
pub open spec fn heading_from(ls: Seq<Seq<char>>, i: int) -> int
    decreases ls.len() - i,
{
    if 0 <= i < ls.len() && !is_section_heading(ls[i]) {
        heading_from(ls, i + 1)
    } else {
        i
    }
}

/// The lines before the first section heading.
pub open spec fn preamble(content: Seq<char>) -> Seq<Seq<char>> {
    lines(content).take(heading_from(lines(content), 0))
}

pub proof fn lemma_heading_bounds(ls: Seq<Seq<char>>, i: int)
    requires
        0 <= i <= ls.len(),
    ensures
        i <= heading_from(ls, i) <= ls.len(),
    decreases ls.len() - i,
{
    if i < ls.len() && !is_section_heading(ls[i]) {
        lemma_heading_bounds(ls, i + 1);
    }
}

pub fn line_is_section_heading(line: &[char]) -> (b: bool)
    ensures
        b == is_section_heading(line@),
{
    let t = trim_start_chars(line);
    let hh = chars_of("##");
    has_prefix(t.as_slice(), hh.as_slice())
}

/// The lines of the status preamble of `content`.
pub fn preamble_lines(content: &[char]) -> (r: Vec<Vec<char>>)
    ensures
        seqs(r@) == preamble(content@),
{
    let mut ls = lines_of(content);
    let ghost all = seqs(ls@);
    let mut i: usize = 0;
    while i < ls.len() && !line_is_section_heading(ls[i].as_slice())
        invariant
            i <= ls.len(),
            all == seqs(ls@),
            heading_from(all, 0) == heading_from(all, i as int),
        decreases ls.len() - i,
    {
        i = i + 1;
    }
    ls.truncate(i);
    assert(seqs(ls@) =~= all.take(i as int));
    ls
}

/// `parse_field_line`'s key normalization: whitespace runs squashed to one
/// space, then lowercased.
pub open spec fn normalized_key(raw: Seq<char>) -> Seq<char> {
    unicode_lower(squash_ws(raw))
}

pub fn normalize_key(raw_key: &str) -> (r: String)
    ensures
        r@ == normalized_key(raw_key@),
{
    let raw = chars_of(raw_key);
    let r = normalize_key_chars(raw.as_slice());
    string_of(r.as_slice())
}

pub fn normalize_key_chars(raw: &[char]) -> (r: Vec<char>)
    ensures
        r@ == normalized_key(raw@),
{
    let sq = squash_whitespace(raw);
    to_lowercase(sq.as_slice())
}

/// The `(key, value)` pair of a `- key: value` line.
pub open spec fn field_line(line: Seq<char>) -> Option<(Seq<char>, Seq<char>)> {
    let t = trim_start(line);
    if starts_with(t, "- "@) {
        match split_once_char(t.skip(2), ':') {
            Some((k, v)) => {
                let key = normalized_key(k);
                if key.len() == 0 {
                    None
                } else {
                    Some((key, trim(v)))
                }
            },
            None => None,
        }
    } else {
        None
    }
}

pub fn parse_field_line_chars(line: &[char]) -> (r: Option<(Vec<char>, Vec<char>)>)
    ensures
        match r {
            Some((k, v)) => field_line(line@) == Some((k@, v@)),
            None => field_line(line@) is None,
        },
{
    let t = trim_start_chars(line);
    let dash = chars_of("- ");
    proof {
        reveal_strlit("- ");
    }
    if !has_prefix(t.as_slice(), dash.as_slice()) {
        return None;
    }
    let rest = slice_vec(t.as_slice(), 2, t.len());
    assert(rest@ == trim_start(line@).skip(2));
    match split_once_at_char(rest.as_slice(), ':') {
        Some((k, v)) => {
            let key = normalize_key_chars(k.as_slice());
            if key.len() == 0 {
                None
            } else {
                let value = trim_chars(v.as_slice());
                Some((key, value))
            }
        },
        None => None,
    }
}

/// Parse one `- key: value` line into a normalized `(key, value)` pair.
pub fn parse_field_line(line: &str) -> (r: Option<(String, String)>)
    ensures
        match r {
            Some((k, v)) => field_line(line@) == Some((k@, v@)),
            None => field_line(line@) is None,
        },
{
    let chars = chars_of(line);
    match parse_field_line_chars(chars.as_slice()) {
        Some((k, v)) => Some((string_of(k.as_slice()), string_of(v.as_slice()))),
        None => None,
    }
}

/// The value of the last line of `ls` whose key is `k1` or `k2`.
pub open spec fn last_field(ls: Seq<Seq<char>>, k1: Seq<char>, k2: Seq<char>) -> Option<
    Seq<char>,
>
    decreases ls.len(),
{
    if ls.len() == 0 {
        None
    } else {
        match field_line(ls.last()) {
            Some((k, v)) => if k == k1 || k == k2 {
                Some(v)
            } else {
                last_field(ls.drop_last(), k1, k2)
            },
            None => last_field(ls.drop_last(), k1, k2),
        }
    }
}

/// The value the status preamble of `content` gives key `k1` (or its alias `k2`).
pub open spec fn status_value(content: Seq<char>, k1: Seq<char>, k2: Seq<char>) -> Option<
    Seq<char>,
> {
    last_field(preamble(content), k1, k2)
}

pub fn last_field_value(ls: &Vec<Vec<char>>, k1: &[char], k2: &[char]) -> (r: Option<Vec<char>>)
    ensures
        r.deep_view() == last_field(seqs(ls@), k1@, k2@),
{
    let ghost all = seqs(ls@);
    let mut found: Option<Vec<char>> = None;
    for i in 0..ls.len()
        invariant
            all == seqs(ls@),
            found.deep_view() == last_field(all.take(i as int), k1@, k2@),
    {
        assert(all.take(i + 1).drop_last() =~= all.take(i as int));
        assert(all.take(i + 1).last() == ls[i as int]@);
        match parse_field_line_chars(ls[i].as_slice()) {
            Some((k, v)) => {
                if eq_chars(k.as_slice(), k1) || eq_chars(k.as_slice(), k2) {
                    found = Some(v);
                }
            },
            None => {},
        }
    }
    assert(all.take(ls.len() as int) =~= all);
    found
}

pub open spec fn expected_field_list(d: StageDir) -> Seq<StatusField> {
    match d {
        StageDir::Sprouts | StageDir::Leaves => seq![
            StatusField::Stage,
            StatusField::CurrentPhase,
            StatusField::CurrentGate,
            StatusField::FirstMissingGate,
            StatusField::NextAction,
        ],
        StageDir::Fallen => seq![StatusField::Stage, StatusField::FallenReason],
        StageDir::Pressed => seq![],
    }
}

/// Expected fields per stage directory, in display order.
pub fn expected_fields(stage_dir: StageDir) -> (r: Vec<StatusField>)
    ensures
        r@ == expected_field_list(stage_dir),
{
    match stage_dir {
        StageDir::Sprouts | StageDir::Leaves => {
            let r = vec![
                StatusField::Stage,
                StatusField::CurrentPhase,
                StatusField::CurrentGate,
                StatusField::FirstMissingGate,
                StatusField::NextAction,
            ];
            assert(r@ =~= expected_field_list(stage_dir));
            r
        },
        StageDir::Fallen => {
            let r = vec![StatusField::Stage, StatusField::FallenReason];
            assert(r@ =~= expected_field_list(stage_dir));
            r
        },
        StageDir::Pressed => {
            let r: Vec<StatusField> = Vec::new();
            assert(r@ =~= expected_field_list(stage_dir));
            r
        },
    }
}

/// The stage a legacy `state` value stands for, in the given stage directory.
pub open spec fn legacy_stage(stage_dir: StageDir, legacy: Seq<char>) -> Option<Seq<char>> {
    let n = unicode_lower(trim(legacy));
    if n == "seed"@ || n == "active"@ {
        Some(stage_label(Stage::Sprout))
    } else if n == "leaf"@ || n == "complete"@ || n == "completed"@ {
        Some(stage_label(Stage::Leaf))
    } else if n == "fallen"@ {
        Some(stage_label(Stage::Fallen))
    } else {
        match stage_dir {
            StageDir::Sprouts | StageDir::Leaves => Some(stage_label(Stage::Sprout)),
            StageDir::Fallen => Some(stage_label(Stage::Fallen)),
            StageDir::Pressed => None,
        }
    }
}

fn eq_lit(s: &[char], lit: &str) -> (b: bool)
    ensures
        b == (s@ == lit@),
{
    let l = chars_of(lit);
    eq_chars(s, l.as_slice())
}

pub fn project_legacy_state(stage_dir: StageDir, legacy_state: &str) -> (r: Option<String>)
    ensures
        r.deep_view() == legacy_stage(stage_dir, legacy_state@),
{
    let raw = chars_of(legacy_state);
    let t = trim_chars(raw.as_slice());
    let n = to_lowercase(t.as_slice());
    let stage = if eq_lit(n.as_slice(), "seed") || eq_lit(n.as_slice(), "active") {
        Stage::Sprout
    } else if eq_lit(n.as_slice(), "leaf") || eq_lit(n.as_slice(), "complete") || eq_lit(
        n.as_slice(),
        "completed",
    ) {
        Stage::Leaf
    } else if eq_lit(n.as_slice(), "fallen") {
        Stage::Fallen
    } else {
        match stage_dir {
            StageDir::Sprouts => Stage::Sprout,
            StageDir::Leaves => Stage::Sprout,
            StageDir::Fallen => Stage::Fallen,
            StageDir::Pressed => {
                return None;
            },
        }
    };
    let label = stage.label();
    Some(label.to_owned())
}

/// What a summary holds for `field`, given the projected stage.
pub open spec fn field_present(s: StatusSummary, f: StatusField) -> bool {
    match f {
        StatusField::Stage => s.stage is Some,
        StatusField::FallenReason => s.fallen_reason is Some,
        StatusField::CurrentPhase => s.current_phase is Some,
        StatusField::CurrentGate => s.current_gate is Some,
        StatusField::FirstMissingGate => s.first_missing_gate is Some,
        StatusField::NextAction => s.next_action is Some,
    }
}

/// The stage a status preamble states: its `stage` line, else the projection
/// of its legacy `state` line.
pub open spec fn projected_stage(content: Seq<char>, d: StageDir) -> Option<Seq<char>> {
    match status_value(content, "stage"@, "stage"@) {
        Some(v) => Some(v),
        None => match status_value(content, "state"@, "state"@) {
            Some(l) => legacy_stage(d, l),
            None => None,
        },
    }
}

/// The full meaning of `parse_status_summary(content, d)`.
pub open spec fn summary_matches(s: StatusSummary, content: Seq<char>, d: StageDir) -> bool {
    if d == StageDir::Pressed {
        &&& s.parse_state == ParseState::Valid
        &&& s.stage is None && s.legacy_state is None && s.fallen_reason is None
        &&& s.current_phase is None && s.current_gate is None
        &&& s.first_missing_gate is None && s.next_action is None
        &&& s.missing_fields@.len() == 0
    } else {
        &&& s.stage.deep_view() == projected_stage(content, d)
        &&& s.legacy_state.deep_view() == status_value(content, "state"@, "state"@)
        &&& s.fallen_reason.deep_view() == status_value(
            content,
            "fallen reason"@,
            "fall reason"@,
        )
        &&& s.current_phase.deep_view() == status_value(content, "current phase"@, "current phase"@)
        &&& s.current_gate.deep_view() == status_value(content, "current gate"@, "current gate"@)
        &&& s.first_missing_gate.deep_view() == status_value(
            content,
            "first missing gate"@,
            "first missing gate"@,
        )
        &&& s.next_action.deep_view() == status_value(content, "next action"@, "next action"@)
        &&& s.missing_fields@ == expected_field_list(d).filter(|f: StatusField| !field_present(s, f))
        &&& (s.parse_state == ParseState::Valid <==> s.missing_fields@.len() == 0)
        &&& (s.parse_state == ParseState::Partial <==> s.missing_fields@.len() > 0)
    }
}

fn opt_string(v: Option<Vec<char>>) -> (r: Option<String>)
    ensures
        r.deep_view() == v.deep_view(),
{
    match v {
        Some(v) => Some(string_of(v.as_slice())),
        None => None,
    }
}

fn field_value_of(ls: &Vec<Vec<char>>, k1: &str, k2: &str) -> (r: Option<String>)
    ensures
        r.deep_view() == last_field(seqs(ls@), k1@, k2@),
{
    let a = chars_of(k1);
    let b = chars_of(k2);
    opt_string(last_field_value(ls, a.as_slice(), b.as_slice()))
}

impl StatusSummary {
    /// The summary of an unreadable status file.
    pub fn error() -> (r: StatusSummary)
        ensures
            r.parse_state == ParseState::Error,
            r.stage is None && r.legacy_state is None && r.fallen_reason is None,
            r.current_phase is None && r.current_gate is None,
            r.first_missing_gate is None && r.next_action is None,
            r.missing_fields@.len() == 0,
    {
        StatusSummary {
            parse_state: ParseState::Error,
            stage: None,
            legacy_state: None,
            fallen_reason: None,
            current_phase: None,
            current_gate: None,
            first_missing_gate: None,
            next_action: None,
            missing_fields: Vec::new(),
        }
    }
}

/// Parse the recognized `- key: value` lines of a status document's preamble.
#[verifier::loop_isolation(false)]
pub fn parse_status_summary(content: &str, stage_dir: StageDir) -> (r: StatusSummary)
    ensures
        summary_matches(r, content@, stage_dir),
{
    if stage_dir == StageDir::Pressed {
        let mut r = StatusSummary::error();
        r.parse_state = ParseState::Valid;
        return r;
    }
    let chars = chars_of(content);
    let pre = preamble_lines(chars.as_slice());
    let stage = field_value_of(&pre, "stage", "stage");
    let legacy_state = field_value_of(&pre, "state", "state");
    let fallen_reason = field_value_of(&pre, "fallen reason", "fall reason");
    let current_phase = field_value_of(&pre, "current phase", "current phase");
    let current_gate = field_value_of(&pre, "current gate", "current gate");
    let first_missing_gate = field_value_of(&pre, "first missing gate", "first missing gate");
    let next_action = field_value_of(&pre, "next action", "next action");

    let projected = match stage {
        Some(s) => Some(s),
        None => match &legacy_state {
            Some(l) => project_legacy_state(stage_dir, l.as_str()),
            None => None,
        },
    };

    let expected = expected_fields(stage_dir);
    let mut missing: Vec<StatusField> = Vec::new();
    let ghost pred = |f: StatusField|
        !match f {
            StatusField::Stage => projected is Some,
            StatusField::FallenReason => fallen_reason is Some,
            StatusField::CurrentPhase => current_phase is Some,
            StatusField::CurrentGate => current_gate is Some,
            StatusField::FirstMissingGate => first_missing_gate is Some,
            StatusField::NextAction => next_action is Some,
        };
    for i in 0..expected.len()
        invariant
            missing@ == expected@.take(i as int).filter(pred),
    {
        let f = expected[i];
        let present = match f {
            StatusField::Stage => projected.is_some(),
            StatusField::FallenReason => fallen_reason.is_some(),
            StatusField::CurrentPhase => current_phase.is_some(),
            StatusField::CurrentGate => current_gate.is_some(),
            StatusField::FirstMissingGate => first_missing_gate.is_some(),
            StatusField::NextAction => next_action.is_some(),
        };
        assert(expected@.take(i + 1).drop_last() =~= expected@.take(i as int));
        reveal_with_fuel(Seq::filter, 1);
        if !present {
            missing.push(f);
        }
    }
    assert(expected@.take(expected@.len() as int) =~= expected@);
    let parse_state = if missing.len() == 0 {
        ParseState::Valid
    } else {
        ParseState::Partial
    };
    let summary = StatusSummary {
        parse_state,
        stage: projected,
        legacy_state,
        fallen_reason,
        current_phase,
        current_gate,
        first_missing_gate,
        next_action,
        missing_fields: missing,
    };
    assert(pred =~= (|f: StatusField| !field_present(summary, f)));
    summary
}

// ---------------------------------------------------------------------------
// The why / what / wireframe triple
// ---------------------------------------------------------------------------
/// Presence and fill state of the why / what / wireframe triple.
#[derive(Debug, Default, PartialEq, Eq)]
pub struct TripleState {
    pub missing: Vec<&'static str>,
    pub unfilled: Vec<&'static str>,
}

/// Whether a triple value is still a scaffold placeholder or empty.
pub open spec fn triple_unfilled(v: Seq<char>) -> bool {
    trim(v).len() == 0 || starts_with(trim(v), "TODO"@)
}

/// The triple keys, in order.
pub open spec fn triple_keys() -> Seq<Seq<char>> {
    seq!["why"@, "what"@, "wireframe"@]
}

pub open spec fn strs(v: Seq<&'static str>) -> Seq<Seq<char>> {
    v.map_values(|s: &'static str| s@)
}

pub fn status_triple_state(content: &str) -> (r: TripleState)
    ensures
        strs(r.missing@) == triple_keys().filter(
            |k: Seq<char>| status_value(content@, k, k) is None,
        ),
        strs(r.unfilled@) == triple_keys().filter(
            |k: Seq<char>|
                status_value(content@, k, k) matches Some(v) && triple_unfilled(v),
        ),
{
    let chars = chars_of(content);
    let pre = preamble_lines(chars.as_slice());
    let labels: [&'static str; 3] = ["why", "what", "wireframe"];
    let mut missing: Vec<&'static str> = Vec::new();
    let mut unfilled: Vec<&'static str> = Vec::new();
    let ghost keys = triple_keys();
    let ghost pm = |k: Seq<char>| status_value(content@, k, k) is None;
    let ghost pu = |k: Seq<char>| status_value(content@, k, k) matches Some(v) && triple_unfilled(v);
    assert(strs(labels@) =~= keys);
    for i in 0..3usize
        invariant
            strs(labels@) == keys,
            keys == triple_keys(),
            seqs(pre@) == preamble(content@),
            chars@ == content@,
            strs(missing@) == keys.take(i as int).filter(pm),
            strs(unfilled@) == keys.take(i as int).filter(pu),
            pm == (|k: Seq<char>| status_value(content@, k, k) is None),
            pu == (|k: Seq<char>| status_value(content@, k, k) matches Some(v) && triple_unfilled(v)),
    {
        let label = labels[i];
        let value = field_value_of(&pre, label, label);
        assert(keys.take(i + 1).drop_last() =~= keys.take(i as int));
        assert(keys[i as int] == label@);
        reveal_with_fuel(Seq::filter, 1);
        match value {
            None => {
                missing.push(label);
                assert(strs(missing@) =~= strs(missing@.drop_last()).push(label@));
            },
            Some(v) => {
                let vc = chars_of(v.as_str());
                let t = trim_chars(vc.as_slice());
                let todo = chars_of("TODO");
                if t.len() == 0 || has_prefix(t.as_slice(), todo.as_slice()) {
                    unfilled.push(label);
                    assert(strs(unfilled@) =~= strs(unfilled@.drop_last()).push(label@));
                }
            },
        }
    }
    assert(keys.take(3) =~= keys);
    TripleState { missing, unfilled }
}

// ---------------------------------------------------------------------------
// Gate labels
// ---------------------------------------------------------------------------
/// End of the run of ASCII digits starting at `i`.
pub open spec fn digit_run_end(s: Seq<char>, i: int) -> int
    decreases s.len() - i,
{
    if 0 <= i < s.len() && is_digit(s[i]) {
        digit_run_end(s, i + 1)
    } else {
        i
    }
}

pub proof fn lemma_digit_run(s: Seq<char>, i: int)
    requires
        0 <= i <= s.len(),
    ensures
        i <= digit_run_end(s, i) <= s.len(),
        all_digits(s.subrange(i, digit_run_end(s, i))),
    decreases s.len() - i,
{
    if i < s.len() && is_digit(s[i]) {
        lemma_digit_run(s, i + 1);
        assert forall|k: int| 0 <= k < digit_run_end(s, i) - i implies is_digit(
            #[trigger] s.subrange(i, digit_run_end(s, i))[k],
        ) by {
            if k > 0 {
                assert(s.subrange(i, digit_run_end(s, i))[k] == s.subrange(
                    i + 1,
                    digit_run_end(s, i + 1),
                )[k - 1]);
            }
        }
    }
}

/// The leading run of ASCII digits of `s`, parsed (`take_while` + `parse`).
pub open spec fn leading_number(s: Seq<char>) -> Option<nat> {
    let run = s.take(digit_run_end(s, 0));
    if run.len() > 0 && digits_value(run) <= usize::MAX {
        Some(digits_value(run))
    } else {
        None
    }
}

/// Which gate a label points at, read from its start: a circled digit from
/// one to ten, a decimal number, or `g`/`G` and a decimal number.
pub open spec fn gate_index(value: Seq<char>) -> Option<nat> {
    let t = trim_start(value);
    if t.len() == 0 {
        None
    } else {
        let c = t[0];
        if c == '①' {
            Some(1)
        } else if c == '②' {
            Some(2)
        } else if c == '③' {
            Some(3)
        } else if c == '④' {
            Some(4)
        } else if c == '⑤' {
            Some(5)
        } else if c == '⑥' {
            Some(6)
        } else if c == '⑦' {
            Some(7)
        } else if c == '⑧' {
            Some(8)
        } else if c == '⑨' {
            Some(9)
        } else if c == '⑩' {
            Some(10)
        } else if is_digit(c) {
            leading_number(t)
        } else if c == 'g' || c == 'G' {
            leading_number(t.drop_first())
        } else {
            None
        }
    }
}

pub fn leading_number_of(s: &[char]) -> (r: Option<usize>)
    ensures
        match r {
            Some(v) => leading_number(s@) == Some(v as nat),
            None => leading_number(s@) is None,
        },
{
    let mut e: usize = 0;
    while e < s.len() && char_is_digit(s[e])
        invariant
            e <= s.len(),
            digit_run_end(s@, 0) == digit_run_end(s@, e as int),
        decreases s.len() - e,
    {
        e = e + 1;
    }
    proof {
        lemma_digit_run(s@, 0);
        assert(s@.subrange(0, e as int) == s@.take(e as int));
    }
    let run = slice_vec(s, 0, e);
    parse_digits(run.as_slice())
}

/// A gate label that starts with a circled digit names that gate: ① is
/// gate 1, ② gate 2, and so on to ⑩, gate 10 (so the ten circled digits
/// name the ten gates one to one).
pub proof fn lemma_circled_gate_labels(label: Seq<char>)
    requires
        label.len() > 0,
    ensures
        label[0] == '①' ==> gate_index(label) == Some(1nat),
        label[0] == '②' ==> gate_index(label) == Some(2nat),
        label[0] == '③' ==> gate_index(label) == Some(3nat),
        label[0] == '④' ==> gate_index(label) == Some(4nat),
        label[0] == '⑤' ==> gate_index(label) == Some(5nat),
        label[0] == '⑥' ==> gate_index(label) == Some(6nat),
        label[0] == '⑦' ==> gate_index(label) == Some(7nat),
        label[0] == '⑧' ==> gate_index(label) == Some(8nat),
        label[0] == '⑨' ==> gate_index(label) == Some(9nat),
        label[0] == '⑩' ==> gate_index(label) == Some(10nat),
{
    assert(!crate::text::is_ws(label[0]) ==> crate::text::skip_ws_from(label, 0) == 0);
    assert(label.skip(0) =~= label);
}

/// A gate label written as a number names that gate: a label that starts
/// with one decimal digit `d` (not followed by another digit) names gate
/// `d`, `10` names gate 10, and `g` or `G` before a single digit works the
/// same way (`G2` is gate 2).
pub proof fn lemma_numbered_gate_labels(label: Seq<char>)
    requires
        label.len() > 0,
    ensures
        ('0' <= label[0] && label[0] <= '9') && (label.len() == 1 || !('0' <= label[1] && label[1] <= '9'))
            ==> gate_index(label) == Some((label[0] as nat - '0' as nat) as nat),
        label.len() >= 2 && label[0] == '1' && label[1] == '0' && (label.len() == 2 || !('0' <= label[2] && label[2] <= '9'))
            ==> gate_index(label) == Some(10nat),
        label.len() >= 2 && (label[0] == 'g' || label[0] == 'G') && ('0' <= label[1] && label[1] <= '9')
            && (label.len() == 2 || !('0' <= label[2] && label[2] <= '9'))
            ==> gate_index(label) == Some((label[1] as nat - '0' as nat) as nat),
{
    assert(!crate::text::is_ws(label[0]) ==> crate::text::skip_ws_from(label, 0) == 0);
    assert(label.skip(0) =~= label);
    if '0' <= label[0] && label[0] <= '9' {
        if label.len() == 1 || !('0' <= label[1] && label[1] <= '9') {
            assert(digit_run_end(label, 1) == 1);
            assert(digit_run_end(label, 0) == 1);
            let run = label.take(1);
            assert(run.drop_last() =~= Seq::<char>::empty());
            assert(run.last() == label[0]);
            assert(digits_value(run.drop_last()) == 0);
            assert(digits_value(run) == (label[0] as nat - '0' as nat) as nat);
            assert(trim_start(label) == label);
            assert(leading_number(label) == Some((label[0] as nat - '0' as nat) as nat));
        }
        if label.len() >= 2 && label[0] == '1' && label[1] == '0' && (label.len() == 2 || !('0' <= label[2] && label[2] <= '9')) {
            assert(digit_run_end(label, 2) == 2);
            assert(digit_run_end(label, 1) == 2);
            assert(digit_run_end(label, 0) == 2);
            let run = label.take(2);
            let one = run.drop_last();
            assert(one =~= seq!['1']);
            assert(one.drop_last() =~= Seq::<char>::empty());
            assert(one.last() == '1');
            assert(digits_value(one.drop_last()) == 0);
            assert(digits_value(one) == ('1' as nat - '0' as nat) as nat);
            assert('1' as nat == 49 && '0' as nat == 48);
            assert(run.last() == '0');
        }
    }
    if label.len() >= 2 && (label[0] == 'g' || label[0] == 'G') && ('0' <= label[1] && label[1] <= '9')
        && (label.len() == 2 || !('0' <= label[2] && label[2] <= '9')) {
        let d = label.drop_first();
        assert(d[0] == label[1]);
        assert(d.len() == 1 || d[1] == label[2]);
        assert(digit_run_end(d, 1) == 1);
        assert(digit_run_end(d, 0) == 1);
        let run = d.take(1);
        assert(run.drop_last() =~= Seq::<char>::empty());
        assert(run.last() == label[1]);
        assert(digits_value(run.drop_last()) == 0);
        assert(digits_value(run) == (label[1] as nat - '0' as nat) as nat);
    }
}

proof fn lemma_skip_ws_shift(l: Seq<char>, c: char, i: int)
    requires
        0 <= i <= l.len(),
    ensures
        crate::text::skip_ws_from(seq![c] + l, i + 1) == crate::text::skip_ws_from(l, i) + 1,
    decreases l.len() - i,
{
    let s = seq![c] + l;
    if i < l.len() {
        assert(s[i + 1] == l[i]);
        if crate::text::is_ws(l[i]) {
            lemma_skip_ws_shift(l, c, i + 1);
        }
    }
}

/// Whitespace before a gate label does not change which gate it names.
pub proof fn lemma_gate_label_leading_space(label: Seq<char>, c: char)
    requires
        crate::text::is_ws(c),
    ensures
        gate_index(seq![c] + label) == gate_index(label),
{
    let s = seq![c] + label;
    lemma_skip_ws_shift(label, c, 0);
    assert(crate::text::skip_ws_from(s, 0) == crate::text::skip_ws_from(s, 1));
    let k = crate::text::skip_ws_from(label, 0);
    crate::text::lemma_skip_ws_bounds(label, 0);
    assert(s.skip(k + 1) =~= label.skip(k));
    assert(trim_start(s) == trim_start(label));
}

pub fn parse_gate_index_chars(v: &[char]) -> (r: Option<usize>)
    ensures
        match r {
            Some(n) => gate_index(v@) == Some(n as nat),
            None => gate_index(v@) is None,
        },
{
    let t = trim_start_chars(v);
    if t.len() == 0 {
        return None;
    }
    let c = t[0];
    if c == '①' {
        Some(1)
    } else if c == '②' {
        Some(2)
    } else if c == '③' {
        Some(3)
    } else if c == '④' {
        Some(4)
    } else if c == '⑤' {
        Some(5)
    } else if c == '⑥' {
        Some(6)
    } else if c == '⑦' {
        Some(7)
    } else if c == '⑧' {
        Some(8)
    } else if c == '⑨' {
        Some(9)
    } else if c == '⑩' {
        Some(10)
    } else if char_is_digit(c) {
        leading_number_of(t.as_slice())
    } else if c == 'g' || c == 'G' {
        let rest = slice_vec(t.as_slice(), 1, t.len());
        assert(rest@ == t@.drop_first());
        leading_number_of(rest.as_slice())
    } else {
        None
    }
}

/// Which gate a `current gate` label points at, if any.
pub fn parse_gate_index(value: &str) -> (r: Option<usize>)
    ensures
        match r {
            Some(n) => gate_index(value@) == Some(n as nat),
            None => gate_index(value@) is None,
        },
{
    let v = chars_of(value);
    parse_gate_index_chars(v.as_slice())
}

/// Sort key of a gate label: its number, or `usize::MAX` and the trimmed,
/// lowercased label.
pub open spec fn gate_order_key(gate: Option<Seq<char>>) -> (nat, Seq<char>) {
    match gate {
        Some(g) => match gate_index(g) {
            Some(i) => (i, Seq::empty()),
            None => (usize::MAX as nat, unicode_lower(trim(g))),
        },
        None => (usize::MAX as nat, unicode_lower(Seq::empty())),
    }
}

pub fn gate_order(gate: Option<&str>) -> (r: (usize, String))
    ensures
        (r.0 as nat, r.1@) == gate_order_key(
            match gate {
                Some(g) => Some(g@),
                None => None,
            },
        ),
{
    match gate {
        Some(g) => match parse_gate_index(g) {
            Some(i) => (i, String::new()),
            None => {
                let c = chars_of(g);
                let t = trim_chars(c.as_slice());
                let l = to_lowercase(t.as_slice());
                (usize::MAX, string_of(l.as_slice()))
            },
        },
        None => {
            let e: Vec<char> = Vec::new();
            let l = to_lowercase(e.as_slice());
            (usize::MAX, string_of(l.as_slice()))
        },
    }
}

// ---------------------------------------------------------------------------
// The inventory
// ---------------------------------------------------------------------------
/// One leaf-work directory (or pressed digest) of a stage directory.
#[derive(Debug)]
pub struct InventoryItem {
    pub stage_dir: StageDir,
    pub slug: String,
    pub kind: ItemKind,
    pub path: String,
    pub status: StatusSummary,
}

#[derive(Debug)]
pub struct StageInventory {
    pub stage_dir: StageDir,
    pub items: Vec<InventoryItem>,
}

#[derive(Debug)]
pub struct Inventory {
    pub leaf_root: String,
    pub stages: Vec<StageInventory>,
}

pub open spec fn opt_seq(o: Option<String>) -> Option<Seq<char>> {
    match o {
        Some(s) => Some(s@),
        None => None,
    }
}

/// The sort key of an item: its gate order key, then its slug.
pub open spec fn item_key(it: InventoryItem) -> ((nat, Seq<char>), Seq<char>) {
    (gate_order_key(opt_seq(it.status.current_gate)), it.slug@)
}

/// Whether item `a` is listed before item `b`.
pub open spec fn item_before(a: InventoryItem, b: InventoryItem) -> bool {
    let (ga, sa) = item_key(a);
    let (gb, sb) = item_key(b);
    ||| ga.0 < gb.0
    ||| ga.0 == gb.0 && crate::text::text_lt(ga.1, gb.1)
    ||| ga.0 == gb.0 && ga.1 == gb.1 && crate::text::text_lt(sa, sb)
}

fn same_chars(a: &str, b: &str) -> (r: bool)
    ensures
        r == (a@ == b@),
{
    let x = chars_of(a);
    let y = chars_of(b);
    eq_chars(x.as_slice(), y.as_slice())
}

fn str_lt(a: &str, b: &str) -> (r: bool)
    ensures
        r == crate::text::text_lt(a@, b@),
{
    let x = chars_of(a);
    let y = chars_of(b);
    crate::text::chars_lt(x.as_slice(), y.as_slice())
}

fn gate_of(it: &InventoryItem) -> (r: (usize, String))
    ensures
        (r.0 as nat, r.1@) == item_key(*it).0,
{
    match &it.status.current_gate {
        Some(g) => gate_order(Some(g.as_str())),
        None => gate_order(None),
    }
}

fn before(a: &InventoryItem, b: &InventoryItem) -> (r: bool)
    ensures
        r == item_before(*a, *b),
{
    let (ga, la) = gate_of(a);
    let (gb, lb) = gate_of(b);
    if ga < gb {
        return true;
    }
    if ga != gb {
        return false;
    }
    if str_lt(la.as_str(), lb.as_str()) {
        return true;
    }
    if !same_chars(la.as_str(), lb.as_str()) {
        return false;
    }
    str_lt(a.slug.as_str(), b.slug.as_str())
}

/// How two items are ordered in a listing: by gate, then by slug.
pub fn item_display_order(left: &InventoryItem, right: &InventoryItem) -> (r: std::cmp::Ordering)
    ensures
        r == (if item_before(*left, *right) {
            std::cmp::Ordering::Less
        } else if item_before(*right, *left) {
            std::cmp::Ordering::Greater
        } else {
            std::cmp::Ordering::Equal
        }),
{
    if before(left, right) {
        std::cmp::Ordering::Less
    } else if before(right, left) {
        std::cmp::Ordering::Greater
    } else {
        std::cmp::Ordering::Equal
    }
}

/// Listing order: items whose gates parse come in gate order, before every
/// item whose gate does not parse (or that has none); items with the same
/// gate key come in slug order.
pub proof fn lemma_listing_order(a: InventoryItem, b: InventoryItem)
    ensures
        ({
            let ga = opt_seq(a.status.current_gate);
            let gb = opt_seq(b.status.current_gate);
            &&& (ga matches Some(x) && gb matches Some(y) && gate_index(x) matches Some(i)
                && gate_index(y) matches Some(j) && i < j) ==> item_before(a, b)
            &&& (ga matches Some(x) && gate_index(x) matches Some(i) && i < usize::MAX && match gb {
                Some(y) => gate_index(y) is None,
                None => true,
            }) ==> item_before(a, b)
            &&& item_key(a).0 == item_key(b).0 ==> (item_before(a, b) <==> crate::text::text_lt(a.slug@, b.slug@))
        }),
{
    let k = item_key(a).0.1;
    if crate::text::text_lt(k, k) {
        crate::tree::lemma_text_lt_asymmetric(k, k);
    }
}

/// Inserts `x` after every item of `s` it does not sort before.
pub open spec fn insert_item(s: Seq<InventoryItem>, x: InventoryItem) -> Seq<InventoryItem>
    decreases s.len(),
{
    if s.len() == 0 {
        seq![x]
    } else if item_before(x, s.last()) {
        insert_item(s.drop_last(), x).push(s.last())
    } else {
        s.push(x)
    }
}

/// `items` stably sorted in display order.
pub open spec fn sorted_items(s: Seq<InventoryItem>) -> Seq<InventoryItem>
    decreases s.len(),
{
    if s.len() == 0 {
        Seq::empty()
    } else {
        insert_item(sorted_items(s.drop_last()), s.last())
    }
}

fn insert_in_order(out: &mut Vec<InventoryItem>, x: InventoryItem)
    ensures
        final(out)@ == insert_item(old(out)@, x),
{
    let ghost orig = out@;
    let mut p = out.len();
    let mut done = false;
    assert(orig.take(p as int) =~= orig);
    assert(orig.skip(p as int) =~= Seq::<InventoryItem>::empty());
    while p > 0 && !done
        invariant
            p <= out.len(),
            out@ == orig,
            insert_item(orig, x) == insert_item(orig.take(p as int), x) + orig.skip(p as int),
            done ==> p > 0 && !item_before(x, orig[p - 1]),
        decreases p + (if done {
            0int
        } else {
            1int
        }),
    {
        let ghost q = (p - 1) as int;
        if before(&x, &out[p - 1]) {
            assert(orig.take(p as int).drop_last() =~= orig.take(q));
            assert(orig.take(p as int).last() == orig[q]);
            assert(orig.take(q).push(orig[q]) =~= orig.take(p as int));
            assert(seq![orig[q]] + orig.skip(p as int) =~= orig.skip(q));
            p = p - 1;
        } else {
            done = true;
        }
    }
    proof {
        if p > 0 {
            assert(orig.take(p as int).last() == orig[p - 1]);
        }
    }
    out.insert(p, x);
    assert(out@ =~= insert_item(orig.take(p as int), x) + orig.skip(p as int));
}

/// Sorts the items of a stage for display.
pub fn sort_items(items: Vec<InventoryItem>) -> (r: Vec<InventoryItem>)
    ensures
        r@ == sorted_items(items@),
{
    let ghost orig = items@;
    let total = items.len();
    let mut rest = items;
    let mut out: Vec<InventoryItem> = Vec::new();
    let mut k: usize = 0;
    while rest.len() > 0
        invariant
            k <= orig.len(),
            orig.len() == total,
            orig.len() == rest@.len() + k,
            rest@ == orig.skip(k as int),
            out@ == sorted_items(orig.take(k as int)),
        decreases rest.len(),
    {
        let x = rest.remove(0);
        assert(orig.take(k + 1).drop_last() =~= orig.take(k as int));
        assert(x == orig[k as int]);
        insert_in_order(&mut out, x);
        assert(rest@ =~= orig.skip(k + 1));
        k = k + 1;
    }
    assert(orig.take(k as int) =~= orig);
    out
}

/// One raw entry of a stage directory and what reading it gave: for a
/// directory the text of its `00-status.md`, for a file its own text.
#[derive(Debug)]
pub struct RawEntry {
    pub name: String,
    pub path: String,
    pub is_file: bool,
    pub is_dir: bool,
    pub content: Result<String, String>,
}

/// `Path::extension` / `Path::file_stem` of a file name: split at the last
/// `.` unless that is its first character.
pub open spec fn last_dot(name: Seq<char>) -> int {
    crate::checkpoint::rfind_char_before(name, '.', name.len() as int)
}

pub open spec fn has_md_extension(name: Seq<char>) -> bool {
    last_dot(name) > 0 && name.skip(last_dot(name) + 1) == "md"@
}

pub open spec fn file_stem_of(name: Seq<char>) -> Seq<char> {
    if last_dot(name) > 0 {
        name.take(last_dot(name))
    } else {
        name
    }
}

/// The item a raw entry of `stage_dir` becomes, if any.
pub open spec fn projected_item(stage_dir: StageDir, e: RawEntry, it: InventoryItem) -> bool {
    &&& it.stage_dir == stage_dir
    &&& it.path@ == e.path@
    &&& match stage_dir {
        StageDir::Pressed => {
            &&& it.kind == ItemKind::PressedDigest
            &&& it.slug@ == file_stem_of(e.name@)
            &&& match e.content {
                Ok(_) => summary_matches(it.status, Seq::empty(), stage_dir),
                Err(_) => it.status.parse_state == ParseState::Error && it.status.missing_fields@.len() == 0
                    && it.status.current_phase is None && it.status.current_gate is None
                    && it.status.stage is None,
            }
        },
        _ => {
            &&& it.kind == ItemKind::LeafWork
            &&& it.slug@ == e.name@
            &&& match e.content {
                Ok(c) => summary_matches(it.status, c@, stage_dir),
                Err(_) => it.status.parse_state == ParseState::Error && it.status.missing_fields@.len() == 0
                    && it.status.current_phase is None && it.status.current_gate is None
                    && it.status.stage is None,
            }
        },
    }
}

pub open spec fn becomes_item(stage_dir: StageDir, e: RawEntry) -> bool {
    match stage_dir {
        StageDir::Pressed => e.is_file && has_md_extension(e.name@),
        _ => e.is_dir,
    }
}

/// What a raw entry of `stage_dir` becomes: an item for a directory of a
/// lifecycle stage or a `.md` file of the pressed stage, else nothing.
pub fn project_entry(stage_dir: StageDir, entry: RawEntry) -> (r: Option<InventoryItem>)
    ensures
        match r {
            Some(it) => becomes_item(stage_dir, entry) && projected_item(stage_dir, entry, it),
            None => !becomes_item(stage_dir, entry),
        },
{
    let ghost e0 = entry;
    let RawEntry { name, path, is_file, is_dir, content } = entry;
    match stage_dir {
        StageDir::Pressed => {
            if !is_file {
                return None;
            }
            let n = chars_of(name.as_str());
            let nlen = n.len();
            proof {
                crate::checkpoint::lemma_rfind_bounds(n@, '.', n@.len() as int);
            }
            let k = match crate::checkpoint::rfind_char(n.as_slice(), '.') {
                Some(k) => k,
                None => {
                    return None;
                },
            };
            if k == 0 {
                return None;
            }
            let ext = slice_vec(n.as_slice(), k + 1, n.len());
            let md = chars_of("md");
            if !eq_chars(ext.as_slice(), md.as_slice()) {
                return None;
            }
            let stem = slice_vec(n.as_slice(), 0, k);
            let status = match content {
                Ok(_) => parse_status_summary("", stage_dir),
                Err(_) => StatusSummary::error(),
            };
            Some(InventoryItem {
                stage_dir,
                slug: string_of(stem.as_slice()),
                kind: ItemKind::PressedDigest,
                path,
                status,
            })
        },
        _ => {
            if !is_dir {
                return None;
            }
            let status = match &content {
                Ok(c) => parse_status_summary(c.as_str(), stage_dir),
                Err(_) => StatusSummary::error(),
            };
            Some(InventoryItem { stage_dir, slug: name, kind: ItemKind::LeafWork, path, status })
        },
    }
}

/// `items` are, in order, what the entries of `es` that become items project to.
pub open spec fn stage_items_match(d: StageDir, es: Seq<RawEntry>, items: Seq<InventoryItem>) -> bool
    decreases es.len(),
{
    if es.len() == 0 {
        items.len() == 0
    } else if becomes_item(d, es.last()) {
        items.len() > 0 && projected_item(d, es.last(), items.last()) && stage_items_match(
            d,
            es.drop_last(),
            items.drop_last(),
        )
    } else {
        stage_items_match(d, es.drop_last(), items)
    }
}

/// A stage inventory is what its entries make, in display order.
pub open spec fn stage_loaded(d: StageDir, es: Seq<RawEntry>, st: StageInventory) -> bool {
    &&& st.stage_dir == d
    &&& exists|pre: Seq<InventoryItem>| #[trigger] stage_items_match(d, es, pre) && st.items@ == sorted_items(pre)
}

/// Projects and sorts the entries of one stage directory.
pub fn load_stage(stage_dir: StageDir, entries: Vec<RawEntry>) -> (r: StageInventory)
    ensures
        stage_loaded(stage_dir, entries@, r),
{
    let ghost orig = entries@;
    let total = entries.len();
    let mut rest = entries;
    let mut items: Vec<InventoryItem> = Vec::new();
    let mut k: usize = 0;
    while rest.len() > 0
        invariant
            k <= orig.len(),
            orig.len() == total,
            orig.len() == rest@.len() + k,
            rest@ == orig.skip(k as int),
            stage_items_match(stage_dir, orig.take(k as int), items@),
        decreases rest.len(),
    {
        let e = rest.remove(0);
        assert(e == orig[k as int]);
        assert(orig.take(k + 1).drop_last() =~= orig.take(k as int));
        assert(orig.take(k + 1).last() == e);
        let ghost before = items@;
        match project_entry(stage_dir, e) {
            Some(it) => {
                items.push(it);
                assert(items@.drop_last() =~= before);
            },
            None => {},
        }
        assert(rest@ =~= orig.skip(k + 1));
        k = k + 1;
    }
    assert(orig.take(k as int) =~= orig);
    let ghost pre = items@;
    let sorted = sort_items(items);
    assert(stage_items_match(stage_dir, orig, pre));
    StageInventory { stage_dir, items: sorted }
}

pub open spec fn stage_dir_order() -> Seq<StageDir> {
    seq![StageDir::Sprouts, StageDir::Leaves, StageDir::Fallen]
}

/// Whether `st` is what the listing `o` of stage directory `d` makes.
pub open spec fn stage_ok(o: Result<Vec<RawEntry>, String>, d: StageDir, st: StageInventory) -> bool {
    match o {
        Ok(es) => stage_loaded(d, es@, st),
        Err(_) => false,
    }
}

/// The first listing that failed, if any.
pub open spec fn first_failure(ls: Seq<Result<Vec<RawEntry>, String>>, n: int) -> Option<Seq<char>>
    decreases n,
{
    if n <= 0 {
        None
    } else {
        match first_failure(ls, n - 1) {
            Some(e) => Some(e),
            None => match ls[n - 1] {
                Err(e) => Some(e@),
                Ok(_) => None,
            },
        }
    }
}

/// Builds the inventory of `.leaf/` from what was observed: what `.leaf` is,
/// and for each lifecycle stage directory (in order) its raw entries, or the
/// error that listing it gave (a missing stage directory is listed as empty).
pub fn load(leaf_root: &str, root: crate::fs_ext::DirectoryStatus, listings: Vec<Result<Vec<RawEntry>, String>>) -> (r: Result<Inventory, String>)
    requires
        root == crate::fs_ext::DirectoryStatus::Directory ==> listings@.len() == 3,
    ensures
        match root {
            crate::fs_ext::DirectoryStatus::NotDirectory => (r matches Err(e) && e@
                == "path exists but is not a directory: "@ + leaf_root@),
            crate::fs_ext::DirectoryStatus::Missing => (r matches Err(e) && e@
                == ".leaf/ is not initialized in this git repository\nhint: run `leaf init`"@),
            crate::fs_ext::DirectoryStatus::Directory => match first_failure(listings@, 3) {
                Some(m) => (r matches Err(e) && e@ == m),
                None => (r matches Ok(inv) && inv.leaf_root@ == leaf_root@ && inv.stages@.len() == 3
                    && forall|i: int|
                    0 <= i < 3 ==> stage_ok(listings@[i], stage_dir_order()[i], #[trigger] inv.stages@[i])),
            },
        },
{
    match root {
        crate::fs_ext::DirectoryStatus::Directory => {},
        crate::fs_ext::DirectoryStatus::NotDirectory => {
            let mut v: Vec<char> = Vec::new();
            crate::text::push_str(&mut v, "path exists but is not a directory: ");
            crate::text::push_str(&mut v, leaf_root);
            return Err(string_of(v.as_slice()));
        },
        crate::fs_ext::DirectoryStatus::Missing => {
            return Err(".leaf/ is not initialized in this git repository\nhint: run `leaf init`".to_string());
        },
    }
    let ghost orig = listings@;
    let mut rest = listings;
    let mut stages: Vec<StageInventory> = Vec::new();
    let dirs: [StageDir; 3] = [StageDir::Sprouts, StageDir::Leaves, StageDir::Fallen];
    assert(dirs@ =~= stage_dir_order());
    let mut i: usize = 0;
    while i < 3
        invariant
            i <= 3,
            orig.len() == 3,
            root == crate::fs_ext::DirectoryStatus::Directory,
            orig == listings@,
            rest@ == orig.skip(i as int),
            dirs@ == stage_dir_order(),
            first_failure(orig, i as int) is None,
            stages@.len() == i,
            forall|j: int| 0 <= j < i ==> stage_ok(orig[j], stage_dir_order()[j], #[trigger] stages@[j]),
        decreases 3 - i,
    {
        let listing = rest.remove(0);
        assert(listing == orig[i as int]);
        assert(rest@ =~= orig.skip(i + 1));
        match listing {
            Err(e) => {
                assert(first_failure(orig, i + 1) == Some(e@));
                proof {
                    lemma_first_failure_stays(orig, i + 1, 3);
                }
                return Err(e);
            },
            Ok(es) => {
                let ghost esv = es;
                let st = load_stage(dirs[i], es);
                let ghost before = stages@;
                stages.push(st);
                assert(orig[i as int] matches Ok(x) && x == esv);
                assert(stages@[i as int] == st);
                assert(dirs[i as int] == stage_dir_order()[i as int]);
                assert(stage_loaded(stage_dir_order()[i as int], esv@, stages@[i as int]));
                assert forall|j: int| 0 <= j < i + 1 implies stage_ok(orig[j], stage_dir_order()[j], #[trigger] stages@[j]) by {
                    if j < i {
                        assert(stages@[j] == before[j]);
                    }
                }
            },
        }
        i = i + 1;
    }
    assert(root == crate::fs_ext::DirectoryStatus::Directory);
    assert(root is Directory);
    Ok(Inventory { leaf_root: leaf_root.to_string(), stages })
}

proof fn lemma_first_failure_stays(ls: Seq<Result<Vec<RawEntry>, String>>, a: int, b: int)
    requires
        a <= b,
        first_failure(ls, a) is Some,
    ensures
        first_failure(ls, b) == first_failure(ls, a),
    decreases b - a,
{
    if a < b {
        lemma_first_failure_stays(ls, a, b - 1);
    }
}


/// The files a preview of an item reads: for leaf work its status and its
/// first three gate files, for a pressed digest the digest itself.
#[derive(Debug, Clone, PartialEq, Eq)]
pub enum PreviewSource {
    LeafWork { status_path: String, intent_path: String, unknowns_path: String, criteria_path: String },
    PressedDigest { digest_path: String },
}

impl InventoryItem {
    /// Where the preview of this item reads from, joined onto its path.
    pub fn preview(&self) -> (r: PreviewSource)
        ensures
            match self.kind {
                ItemKind::LeafWork => match r {
                    PreviewSource::LeafWork { status_path, intent_path, unknowns_path, criteria_path } => {
                        &&& status_path@ == crate::profile::path_join(self.path@, "00-status.md"@)
                        &&& intent_path@ == crate::profile::path_join(self.path@, "01-Learn/01-intent.md"@)
                        &&& unknowns_path@ == crate::profile::path_join(self.path@, "01-Learn/02-unknowns.md"@)
                        &&& criteria_path@ == crate::profile::path_join(self.path@, "02-Example/03-criteria.md"@)
                    },
                    _ => false,
                },
                ItemKind::PressedDigest => match r {
                    PreviewSource::PressedDigest { digest_path } => digest_path@ == self.path@,
                    _ => false,
                },
            },
    {
        match self.kind {
            ItemKind::LeafWork => PreviewSource::LeafWork {
                status_path: crate::profile::join_path(self.path.as_str(), "00-status.md"),
                intent_path: crate::profile::join_path(self.path.as_str(), "01-Learn/01-intent.md"),
                unknowns_path: crate::profile::join_path(self.path.as_str(), "01-Learn/02-unknowns.md"),
                criteria_path: crate::profile::join_path(self.path.as_str(), "02-Example/03-criteria.md"),
            },
            ItemKind::PressedDigest => PreviewSource::PressedDigest { digest_path: self.path.clone() },
        }
    }
}


/// Whether a file name has the extension `md` (`Path::extension`).
pub fn is_md_name(name: &str) -> (b: bool)
    ensures
        b == has_md_extension(name@),
{
    let n = chars_of(name);
    let nlen = n.len();
    proof {
        crate::checkpoint::lemma_rfind_bounds(n@, '.', n@.len() as int);
    }
    let k = match crate::checkpoint::rfind_char(n.as_slice(), '.') {
        Some(k) => k,
        None => {
            return false;
        },
    };
    if k == 0 {
        return false;
    }
    let ext = slice_vec(n.as_slice(), k + 1, n.len());
    let md = chars_of("md");
    eq_chars(ext.as_slice(), md.as_slice())
}

} // verus!
