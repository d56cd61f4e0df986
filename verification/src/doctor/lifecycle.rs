//! Stage directories and the `00-status.md` of every leaf-work item.
use crate::doctor::{
    cat2, cat3, cat4, cat5, finding_view, findings_view, push_finding, DoctorFinding,
    LocationView, Severity,
};
use crate::inventory::{
    expected_field_list, field_present, gate_index, parse_status_summary, projected_stage,
    stage_dir_dir_name, stage_label, status_field_label, status_triple_state, status_value,
    summary_matches, triple_keys, triple_unfilled, Stage, StageDir, StatusField,
};
pub use crate::fs_ext::DirectoryStatus;
use crate::doctor::pressed::{
    check_item_linked_metadata, check_item_pressed_digest, linked_report, pressed_report, FileProbe,
};
use crate::phase::{phase_dir, phase_from_value, phase_index, phase_name, phase_order, Phase};
use crate::text::{
    ascii_lower_seq, ascii_lowercase, chars_of, eq_chars, has_prefix, join, join_chars, lines,
    lines_of, seqs, split_once_at_char, split_once_char, squash_whitespace, squash_ws, starts_with,
    string_of, trim_start, trim_start_chars, chars_lt, text_lt,
};
use vstd::prelude::*;

verus! {

/// A finding as plain values.
pub type FindingView = (Severity, Seq<char>, Seq<char>, LocationView, Option<Seq<char>>);

/// What inspecting and listing one stage directory gave.
#[derive(Debug, Clone, PartialEq, Eq)]
pub enum StageDirState {
    Readable,
    Unreadable(String),
    NotDirectory,
    Missing,
}

pub open spec fn located(sev: Severity, code: Seq<char>, message: Seq<char>, path: Seq<char>) -> FindingView {
    (sev, code, message, LocationView::Path(path), None)
}

pub open spec fn one_if(cond: bool, f: FindingView) -> Seq<FindingView> {
    if cond {
        seq![f]
    } else {
        Seq::empty()
    }
}

/// The three stage directories, in lifecycle order.
pub open spec fn lifecycle_dirs() -> Seq<StageDir> {
    seq![StageDir::Sprouts, StageDir::Leaves, StageDir::Fallen]
}

pub fn stage_dirs() -> (r: [StageDir; 3])
    ensures
        r@ == lifecycle_dirs(),
{
    let r = [StageDir::Sprouts, StageDir::Leaves, StageDir::Fallen];
    assert(r@ =~= lifecycle_dirs());
    r
}

pub open spec fn expected_stage_of(d: StageDir) -> Option<Stage> {
    match d {
        StageDir::Sprouts => Some(Stage::Sprout),
        StageDir::Leaves => Some(Stage::Leaf),
        StageDir::Fallen => Some(Stage::Fallen),
        StageDir::Pressed => None,
    }
}

/// The canonical `stage` value expected for items living in `stage_dir`.
pub fn expected_stage(stage_dir: StageDir) -> (r: Option<Stage>)
    ensures
        r == expected_stage_of(stage_dir),
{
    match stage_dir {
        StageDir::Sprouts => Some(Stage::Sprout),
        StageDir::Leaves => Some(Stage::Leaf),
        StageDir::Fallen => Some(Stage::Fallen),
        StageDir::Pressed => None,
    }
}

/// Which gate a `current gate` label points at, if any.
pub fn parse_gate_index(value: &str) -> (r: Option<usize>)
    ensures
        match r {
            Some(n) => gate_index(value@) == Some(n as nat),
            None => gate_index(value@) is None,
        },
{
    crate::inventory::parse_gate_index(value)
}

// ---------------------------------------------------------------------------
// Status lines by key
// ---------------------------------------------------------------------------
/// Whether `line` is a `- key: value` line whose key, with runs of
/// whitespace squashed, equals `field` ignoring ASCII case.
pub open spec fn line_names_field(line: Seq<char>, field: Seq<char>) -> bool {
    let t = trim_start(line);
    starts_with(t, "- "@) && match split_once_char(t.skip(2), ':') {
        Some((k, _)) => ascii_lower_seq(squash_ws(k)) == ascii_lower_seq(field),
        None => false,
    }
}

pub open spec fn has_field_line(content: Seq<char>, field: Seq<char>) -> bool {
    exists|i: int| 0 <= i < lines(content).len() && line_names_field(#[trigger] lines(content)[i], field)
}

fn line_names_field_chars(line: &[char], field: &[char]) -> (b: bool)
    ensures
        b == line_names_field(line@, field@),
{
    let t = trim_start_chars(line);
    let dash = chars_of("- ");
    proof {
        reveal_strlit("- ");
    }
    if !has_prefix(t.as_slice(), dash.as_slice()) {
        return false;
    }
    let rest = crate::text::slice_vec(t.as_slice(), 2, t.len());
    assert(rest@ == t@.skip(2));
    match split_once_at_char(rest.as_slice(), ':') {
        Some((k, _)) => {
            let sq = squash_whitespace(k.as_slice());
            let a = ascii_lowercase(sq.as_slice());
            let b = ascii_lowercase(field);
            eq_chars(a.as_slice(), b.as_slice())
        },
        None => false,
    }
}

/// Whether any line of `content` is a `- <field>: ...` line.
pub fn has_status_field(content: &str, field: &str) -> (b: bool)
    ensures
        b == has_field_line(content@, field@),
{
    let c = chars_of(content);
    let f = chars_of(field);
    let ls = lines_of(c.as_slice());
    let ghost all = seqs(ls@);
    for i in 0..ls.len()
        invariant
            all == seqs(ls@),
            all == lines(content@),
            f@ == field@,
            forall|j: int| 0 <= j < i ==> !line_names_field(#[trigger] all[j], field@),
    {
        assert(all[i as int] == ls@[i as int]@);
        if line_names_field_chars(ls[i].as_slice(), f.as_slice()) {
            return true;
        }
    }
    false
}

// ---------------------------------------------------------------------------
// Stage directories
// ---------------------------------------------------------------------------
pub open spec fn leaf_path(name: Seq<char>) -> Seq<char> {
    ".leaf/"@ + name
}

/// The finding one stage directory gives, if any.
pub open spec fn stage_dir_findings(name: Seq<char>, st: StageDirState) -> Seq<FindingView> {
    match st {
        StageDirState::Readable => Seq::empty(),
        StageDirState::Unreadable(e) => seq![
            located(
                Severity::Error,
                "stage_dir_unreadable"@,
                "failed to read stage dir "@ + name + ": "@ + e@,
                leaf_path(name),
            ),
        ],
        StageDirState::NotDirectory => seq![
            located(
                Severity::Error,
                "stage_dir_not_directory"@,
                "stage dir "@ + name + " is not a directory"@,
                leaf_path(name),
            ),
        ],
        StageDirState::Missing => seq![
            located(
                Severity::Warn,
                "stage_dir_missing"@,
                "stage dir "@ + name + " is missing"@,
                leaf_path(name),
            ),
        ],
    }
}

/// The old directory names that are reported when present, with the stage
/// they belonged to: the old numbered names first, then the bare names.
pub open spec fn legacy_dirs() -> Seq<(StageDir, Seq<char>)> {
    seq![
        (StageDir::Sprouts, "01-seeds"@),
        (StageDir::Pressed, "04-pressed"@),
        (StageDir::Sprouts, "seeds"@),
        (StageDir::Leaves, "leaves"@),
        (StageDir::Fallen, "fallen"@),
        (StageDir::Pressed, "pressed"@),
    ]
}

pub fn legacy_stage_dirs() -> (r: Vec<(StageDir, &'static str)>)
    ensures
        r@.map_values(|p: (StageDir, &'static str)| (p.0, p.1@)) == legacy_dirs(),
{
    let r = vec![
        (StageDir::Sprouts, "01-seeds"),
        (StageDir::Pressed, "04-pressed"),
        (StageDir::Sprouts, "seeds"),
        (StageDir::Leaves, "leaves"),
        (StageDir::Fallen, "fallen"),
        (StageDir::Pressed, "pressed"),
    ];
    assert(r@.map_values(|p: (StageDir, &'static str)| (p.0, p.1@)) =~= legacy_dirs());
    r
}

pub open spec fn legacy_finding(d: StageDir, old_name: Seq<char>) -> FindingView {
    match d {
        StageDir::Pressed => located(
            Severity::Warn,
            "pressed_stage_dir_present"@,
            "top-level pressed dir is obsolete; move digests into matching leaf pressed.md"@,
            leaf_path(old_name),
        ),
        _ => located(
            Severity::Warn,
            "old_stage_dir_present"@,
            "old stage dir "@ + old_name + " is present; run the migration operator"@,
            leaf_path(old_name),
        ),
    }
}

/// Warns about an old stage directory when `.leaf/<old_name>` is a directory.
pub fn push_legacy_stage_dir_warning(
    old_dir_is_dir: bool,
    findings: &mut Vec<DoctorFinding>,
    stage_dir: StageDir,
    old_name: &str,
)
    ensures
        findings_view(final(findings)@) == findings_view(old(findings)@) + one_if(
            old_dir_is_dir,
            legacy_finding(stage_dir, old_name@),
        ),
{
    if !old_dir_is_dir {
        assert(findings_view(findings@) =~= findings_view(old(findings)@) + Seq::<FindingView>::empty());
        return;
    }
    let path = cat2(".leaf/", old_name);
    let f = match stage_dir {
        StageDir::Pressed => DoctorFinding::warn(
            "pressed_stage_dir_present",
            "top-level pressed dir is obsolete; move digests into matching leaf pressed.md",
        ),
        _ => {
            let message = cat3("old stage dir ", old_name, " is present; run the migration operator");
            DoctorFinding::warn("old_stage_dir_present", message.as_str())
        },
    };
    let f = f.with_path(path.as_str());
    push_finding(findings, f);
    assert(findings_view(findings@) =~= findings_view(old(findings)@) + one_if(
        old_dir_is_dir,
        legacy_finding(stage_dir, old_name@),
    ));
}

pub open spec fn stage_findings_upto(states: Seq<StageDirState>, n: int) -> Seq<FindingView>
    decreases n,
{
    if n <= 0 {
        Seq::empty()
    } else {
        stage_findings_upto(states, n - 1) + stage_dir_findings(
            stage_dir_dir_name(lifecycle_dirs()[n - 1]),
            states[n - 1],
        )
    }
}

pub open spec fn legacy_findings_upto(present: Seq<bool>, n: int) -> Seq<FindingView>
    decreases n,
{
    if n <= 0 {
        Seq::empty()
    } else {
        legacy_findings_upto(present, n - 1) + one_if(
            present[n - 1],
            legacy_finding(legacy_dirs()[n - 1].0, legacy_dirs()[n - 1].1),
        )
    }
}

pub open spec fn all_readable(states: Seq<StageDirState>) -> bool {
    forall|i: int| 0 <= i < states.len() ==> #[trigger] states[i] == StageDirState::Readable
}

/// Everything `check_stage_dirs` reports for the three stage directories and
/// the old directory names that are present.
pub open spec fn stage_dirs_report(states: Seq<StageDirState>, present: Seq<bool>) -> Seq<FindingView> {
    stage_findings_upto(states, 3) + legacy_findings_upto(present, 6) + one_if(
        all_readable(states),
        (Severity::Pass, "stage_dirs_readable"@, "stage dirs readable"@, LocationView::NoPath, None),
    )
}

fn stage_dir_finding_push(findings: &mut Vec<DoctorFinding>, name: &str, st: &StageDirState)
    ensures
        findings_view(final(findings)@) == findings_view(old(findings)@) + stage_dir_findings(name@, *st),
{
    let path = cat2(".leaf/", name);
    match st {
        StageDirState::Readable => {
            assert(findings_view(findings@) =~= findings_view(old(findings)@) + stage_dir_findings(name@, *st));
        },
        StageDirState::Unreadable(e) => {
            let m = cat4("failed to read stage dir ", name, ": ", e.as_str());
            push_finding(findings, DoctorFinding::error("stage_dir_unreadable", m.as_str()).with_path(path.as_str()));
        },
        StageDirState::NotDirectory => {
            let m = cat3("stage dir ", name, " is not a directory");
            push_finding(findings, DoctorFinding::error("stage_dir_not_directory", m.as_str()).with_path(path.as_str()));
        },
        StageDirState::Missing => {
            let m = cat3("stage dir ", name, " is missing");
            push_finding(findings, DoctorFinding::warn("stage_dir_missing", m.as_str()).with_path(path.as_str()));
        },
    }
}

/// Reports missing, unreadable or misplaced stage directories and old
/// directory names. `states` is what inspecting the three stage directories
/// gave, in lifecycle order; `legacy_present[i]` is whether the `i`-th of
/// [`legacy_stage_dirs`] is a directory under `.leaf/`.
pub fn check_stage_dirs(
    states: &[StageDirState],
    legacy_present: &[bool],
    findings: &mut Vec<DoctorFinding>,
)
    requires
        states.len() == 3,
        legacy_present.len() == 6,
    ensures
        findings_view(final(findings)@) == findings_view(old(findings)@) + stage_dirs_report(
            states@,
            legacy_present@,
        ),
{
    let ghost start = findings_view(findings@);
    let dirs = stage_dirs();
    let mut all_ok = true;
    for i in 0..3usize
        invariant
            states.len() == 3,
            dirs@ == lifecycle_dirs(),
            findings_view(findings@) == start + stage_findings_upto(states@, i as int),
            all_ok <==> (forall|j: int| 0 <= j < i ==> #[trigger] states@[j] == StageDirState::Readable),
    {
        let name = dirs[i].dir_name();
        match &states[i] {
            StageDirState::Readable => {},
            _ => {
                all_ok = false;
            },
        }
        let ghost before = findings_view(findings@);
        stage_dir_finding_push(findings, name, &states[i]);
        assert(findings_view(findings@) =~= start + stage_findings_upto(states@, i + 1));
    }
    let legacy = legacy_stage_dirs();
    assert(legacy@.map_values(|p: (StageDir, &'static str)| (p.0, p.1@)).len() == legacy@.len());
    let ghost mid = findings_view(findings@);
    for k in 0..6usize
        invariant
            legacy_present.len() == 6,
            legacy@.map_values(|p: (StageDir, &'static str)| (p.0, p.1@)) == legacy_dirs(),
            legacy@.len() == 6,
            findings_view(findings@) == mid + legacy_findings_upto(legacy_present@, k as int),
    {
        let (d, old_name) = legacy[k];
        assert(legacy_dirs()[k as int] == (d, old_name@));
        push_legacy_stage_dir_warning(legacy_present[k], findings, d, old_name);
        assert(findings_view(findings@) =~= mid + legacy_findings_upto(legacy_present@, k + 1));
    }
    let ghost end = findings_view(findings@);
    if all_ok {
        push_finding(findings, DoctorFinding::ok("stage_dirs_readable", "stage dirs readable"));
    }
    assert(all_ok == all_readable(states@));
    assert(findings_view(findings@) =~= start + stage_dirs_report(states@, legacy_present@));
}

// ---------------------------------------------------------------------------
// The status file of one item
// ---------------------------------------------------------------------------
pub open spec fn item_path(dir: Seq<char>, slug: Seq<char>) -> Seq<char> {
    ".leaf/"@ + dir + "/"@ + slug
}

pub open spec fn status_rel(dir: Seq<char>, slug: Seq<char>) -> Seq<char> {
    item_path(dir, slug) + "/00-status.md"@
}

/// The value a status preamble gives one field, as `parse_status_summary`
/// reads it.
pub open spec fn field_value(c: Seq<char>, d: StageDir, f: StatusField) -> Option<Seq<char>> {
    match f {
        StatusField::Stage => projected_stage(c, d),
        StatusField::FallenReason => status_value(c, "fallen reason"@, "fall reason"@),
        StatusField::CurrentPhase => status_value(c, "current phase"@, "current phase"@),
        StatusField::CurrentGate => status_value(c, "current gate"@, "current gate"@),
        StatusField::FirstMissingGate => status_value(
            c,
            "first missing gate"@,
            "first missing gate"@,
        ),
        StatusField::NextAction => status_value(c, "next action"@, "next action"@),
    }
}

pub open spec fn missing_fields_of(c: Seq<char>, d: StageDir) -> Seq<StatusField> {
    expected_field_list(d).filter(|f: StatusField| field_value(c, d, f) is None)
}

pub open spec fn labels_of(fs: Seq<StatusField>) -> Seq<Seq<char>> {
    fs.map_values(|f: StatusField| status_field_label(f))
}

pub open spec fn triple_missing(c: Seq<char>) -> Seq<Seq<char>> {
    triple_keys().filter(|k: Seq<char>| status_value(c, k, k) is None)
}

pub open spec fn triple_unfilled_keys(c: Seq<char>) -> Seq<Seq<char>> {
    triple_keys().filter(
        |k: Seq<char>| status_value(c, k, k) matches Some(v) && triple_unfilled(v),
    )
}

/// Whether the `current gate` of a leaf is still before ⑨.
pub open spec fn gate_before_feedback(c: Seq<char>) -> bool {
    match status_value(c, "current gate"@, "current gate"@) {
        Some(g) => match gate_index(g) {
            Some(n) => n < 9,
            None => false,
        },
        None => false,
    }
}

#[verifier::opaque]
pub open spec fn stage_mismatch(d: StageDir, dir: Seq<char>, c: Seq<char>, rel: Seq<char>) -> Seq<
    FindingView,
> {
    match expected_stage_of(d) {
        Some(e) => match projected_stage(c, d) {
            Some(a) => one_if(
                a != stage_label(e),
                located(
                    Severity::Error,
                    "stage_dir_mismatch"@,
                    "stage "@ + a + " conflicts with directory "@ + dir + "; expected "@
                        + stage_label(e),
                    rel,
                ),
            ),
            None => Seq::empty(),
        },
        None => Seq::empty(),
    }
}

#[verifier::opaque]
pub open spec fn missing_report(d: StageDir, c: Seq<char>, rel: Seq<char>) -> Seq<FindingView> {
    let missing = missing_fields_of(c, d);
    one_if(
        missing.len() > 0,
        located(
            if d == StageDir::Fallen {
                Severity::Error
            } else {
                Severity::Warn
            },
            "status_missing_fields"@,
            "missing status fields: "@ + join(labels_of(missing), ", "@),
            rel,
        ),
    )
}

#[verifier::opaque]
pub open spec fn legacy_fields_report(c: Seq<char>, rel: Seq<char>) -> Seq<FindingView> {
    one_if(
        status_value(c, "state"@, "state"@) is Some,
        located(
            Severity::Warn,
            "legacy_state_field"@,
            "status uses old state field; write canonical stage instead"@,
            rel,
        ),
    ) + one_if(
        has_field_line(c, "fall reason"@),
        located(
            Severity::Warn,
            "legacy_fall_reason_field"@,
            "status uses old fall reason field; write fallen reason instead"@,
            rel,
        ),
    )
}

#[verifier::opaque]
pub open spec fn feedback_report(d: StageDir, c: Seq<char>, rel: Seq<char>) -> Seq<FindingView> {
    one_if(
        d == StageDir::Leaves && gate_before_feedback(c),
        located(
            Severity::Warn,
            "leaf_before_feedback"@,
            "leaf stage is for work that has passed ⑧ and entered Feedback"@,
            rel,
        ),
    )
}

#[verifier::opaque]
pub open spec fn triple_report(d: StageDir, c: Seq<char>, rel: Seq<char>) -> Seq<FindingView> {
    one_if(
        (d == StageDir::Sprouts || d == StageDir::Leaves) && triple_missing(c).len() > 0,
        located(
            Severity::Warn,
            "status_triple_missing"@,
            "status is missing the "@ + join(triple_missing(c), ", "@)
                + " line(s); lock the why/what/wireframe triple with leaf:learn so the preview shows what this leaf is"@,
            rel,
        ),
    ) + one_if(
        d == StageDir::Leaves && triple_unfilled_keys(c).len() > 0,
        located(
            Severity::Warn,
            "status_triple_unfilled"@,
            "status triple "@ + join(triple_unfilled_keys(c), ", "@)
                + " still holds the scaffold placeholder; fill it with leaf:learn"@,
            rel,
        ),
    )
}

/// What a readable status file `c` of an item in `d` is reported for.
pub open spec fn status_report(d: StageDir, dir: Seq<char>, slug: Seq<char>, c: Seq<char>) -> Seq<
    FindingView,
> {
    let rel = status_rel(dir, slug);
    missing_report(d, c, rel) + legacy_fields_report(c, rel) + stage_mismatch(d, dir, c, rel)
        + feedback_report(d, c, rel) + triple_report(d, c, rel)
}

/// What reading the status file of an item gave, and what it is reported for.
pub open spec fn item_status_report(
    d: StageDir,
    dir: Seq<char>,
    slug: Seq<char>,
    status: Result<String, String>,
) -> Seq<FindingView> {
    match status {
        Err(e) => seq![
            located(
                Severity::Error,
                "status_unreadable"@,
                "failed to read status file "@ + status_rel(dir, slug) + ": "@ + e@,
                status_rel(dir, slug),
            ),
        ],
        Ok(c) => status_report(d, dir, slug, c@),
    }
}

fn joined_labels(fields: &Vec<StatusField>) -> (r: String)
    ensures
        r@ == join(labels_of(fields@), ", "@),
{
    let mut pieces: Vec<Vec<char>> = Vec::new();
    for i in 0..fields.len()
        invariant
            seqs(pieces@) == labels_of(fields@.take(i as int)),
    {
        let ghost before = seqs(pieces@);
        pieces.push(chars_of(fields[i].label()));
        assert(seqs(pieces@) =~= before.push(status_field_label(fields@[i as int])));
        assert(fields@.take(i + 1) =~= fields@.take(i as int).push(fields@[i as int]));
        assert(labels_of(fields@.take(i + 1)) =~= labels_of(fields@.take(i as int)).push(
            status_field_label(fields@[i as int]),
        ));
    }
    assert(fields@.take(fields@.len() as int) =~= fields@);
    let sep = chars_of(", ");
    let j = join_chars(&pieces, sep.as_slice());
    string_of(j.as_slice())
}

pub open spec fn static_strs(v: Seq<&'static str>) -> Seq<Seq<char>> {
    v.map_values(|s: &'static str| s@)
}

fn joined_strs(items: &Vec<&'static str>) -> (r: String)
    ensures
        r@ == join(static_strs(items@), ", "@),
{
    let mut pieces: Vec<Vec<char>> = Vec::new();
    for i in 0..items.len()
        invariant
            seqs(pieces@) == static_strs(items@.take(i as int)),
    {
        let ghost before = seqs(pieces@);
        pieces.push(chars_of(items[i]));
        assert(seqs(pieces@) =~= before.push(items@[i as int]@));
        assert(static_strs(items@.take(i + 1)) =~= static_strs(items@.take(i as int)).push(
            items@[i as int]@,
        ));
    }
    assert(items@.take(items@.len() as int) =~= items@);
    let sep = chars_of(", ");
    let j = join_chars(&pieces, sep.as_slice());
    string_of(j.as_slice())
}

fn same_text(a: &str, b: &str) -> (r: bool)
    ensures
        r == (a@ == b@),
{
    let x = chars_of(a);
    let y = chars_of(b);
    eq_chars(x.as_slice(), y.as_slice())
}

fn push_missing(
    stage_dir: StageDir,
    c: &str,
    summary: &crate::inventory::StatusSummary,
    rel: &str,
    findings: &mut Vec<DoctorFinding>,
)
    requires
        stage_dir != StageDir::Pressed,
        summary_matches(*summary, c@, stage_dir),
    ensures
        findings_view(final(findings)@) == findings_view(old(findings)@) + missing_report(
            stage_dir,
            c@,
            rel@,
        ),
{
    reveal(missing_report);
    let ghost d = stage_dir;
    proof {
        assert((|f: StatusField| !field_present(*summary, f)) =~= (|f: StatusField|
            field_value(c@, d, f) is None));
    }
    assert(summary.missing_fields@ == missing_fields_of(c@, stage_dir));
    if summary.missing_fields.len() > 0 {
        let labels = joined_labels(&summary.missing_fields);
        let m = cat2("missing status fields: ", labels.as_str());
        let sev = match stage_dir {
            StageDir::Fallen => Severity::Error,
            _ => Severity::Warn,
        };
        push_finding(
            findings,
            DoctorFinding::new(sev, "status_missing_fields", m.as_str()).with_path(rel),
        );
    }
    assert(findings_view(findings@) =~= findings_view(old(findings)@) + missing_report(
        stage_dir,
        c@,
        rel@,
    ));
}

fn push_legacy_fields(
    stage_dir: StageDir,
    c: &str,
    summary: &crate::inventory::StatusSummary,
    rel: &str,
    findings: &mut Vec<DoctorFinding>,
)
    requires
        stage_dir != StageDir::Pressed,
        summary_matches(*summary, c@, stage_dir),
    ensures
        findings_view(final(findings)@) == findings_view(old(findings)@) + legacy_fields_report(
            c@,
            rel@,
        ),
{
    reveal(legacy_fields_report);
    let ghost s0 = findings_view(findings@);
    if summary.legacy_state.is_some() {
        push_finding(
            findings,
            DoctorFinding::warn(
                "legacy_state_field",
                "status uses old state field; write canonical stage instead",
            ).with_path(rel),
        );
    }
    let ghost s1 = findings_view(findings@);
    if has_status_field(c, "fall reason") {
        push_finding(
            findings,
            DoctorFinding::warn(
                "legacy_fall_reason_field",
                "status uses old fall reason field; write fallen reason instead",
            ).with_path(rel),
        );
    }
    assert(findings_view(findings@) =~= s0 + legacy_fields_report(c@, rel@));
}

fn push_stage_mismatch(
    stage_dir: StageDir,
    dir_name: &str,
    c: &str,
    summary: &crate::inventory::StatusSummary,
    rel: &str,
    findings: &mut Vec<DoctorFinding>,
)
    requires
        stage_dir != StageDir::Pressed,
        summary_matches(*summary, c@, stage_dir),
    ensures
        findings_view(final(findings)@) == findings_view(old(findings)@) + stage_mismatch(
            stage_dir,
            dir_name@,
            c@,
            rel@,
        ),
{
    reveal(stage_mismatch);
    match (expected_stage(stage_dir), &summary.stage) {
        (Some(expected), Some(actual)) => {
            let label = expected.label();
            if !same_text(actual.as_str(), label) {
                let m = cat5(
                    "stage ",
                    actual.as_str(),
                    " conflicts with directory ",
                    dir_name,
                    "; expected ",
                );
                let m2 = cat2(m.as_str(), label);
                push_finding(
                    findings,
                    DoctorFinding::error("stage_dir_mismatch", m2.as_str()).with_path(rel),
                );
            }
        },
        _ => {},
    }
    assert(findings_view(findings@) =~= findings_view(old(findings)@) + stage_mismatch(
        stage_dir,
        dir_name@,
        c@,
        rel@,
    ));
}

fn push_feedback(
    stage_dir: StageDir,
    c: &str,
    summary: &crate::inventory::StatusSummary,
    rel: &str,
    findings: &mut Vec<DoctorFinding>,
)
    requires
        stage_dir != StageDir::Pressed,
        summary_matches(*summary, c@, stage_dir),
    ensures
        findings_view(final(findings)@) == findings_view(old(findings)@) + feedback_report(
            stage_dir,
            c@,
            rel@,
        ),
{
    reveal(feedback_report);
    let before_feedback = match &summary.current_gate {
        Some(g) => match parse_gate_index(g.as_str()) {
            Some(n) => n < 9,
            None => false,
        },
        None => false,
    };
    assert(before_feedback == gate_before_feedback(c@));
    if stage_dir == StageDir::Leaves && before_feedback {
        push_finding(
            findings,
            DoctorFinding::warn(
                "leaf_before_feedback",
                "leaf stage is for work that has passed ⑧ and entered Feedback",
            ).with_path(rel),
        );
    }
    assert(findings_view(findings@) =~= findings_view(old(findings)@) + feedback_report(
        stage_dir,
        c@,
        rel@,
    ));
}

fn push_triple(stage_dir: StageDir, c: &str, rel: &str, findings: &mut Vec<DoctorFinding>)
    ensures
        findings_view(final(findings)@) == findings_view(old(findings)@) + triple_report(
            stage_dir,
            c@,
            rel@,
        ),
{
    reveal(triple_report);
    let ghost s0 = findings_view(findings@);
    if stage_dir == StageDir::Sprouts || stage_dir == StageDir::Leaves {
        let triple = status_triple_state(c);
        if triple.missing.len() > 0 {
            let names = joined_strs(&triple.missing);
            let m = cat3(
                "status is missing the ",
                names.as_str(),
                " line(s); lock the why/what/wireframe triple with leaf:learn so the preview shows what this leaf is",
            );
            push_finding(
                findings,
                DoctorFinding::warn("status_triple_missing", m.as_str()).with_path(rel),
            );
        }
        let ghost s1 = findings_view(findings@);
        if stage_dir == StageDir::Leaves && triple.unfilled.len() > 0 {
            let names = joined_strs(&triple.unfilled);
            let m = cat3(
                "status triple ",
                names.as_str(),
                " still holds the scaffold placeholder; fill it with leaf:learn",
            );
            push_finding(
                findings,
                DoctorFinding::warn("status_triple_unfilled", m.as_str()).with_path(rel),
            );
        }
    }
    assert(findings_view(findings@) =~= s0 + triple_report(stage_dir, c@, rel@));
}

/// Validates the status file of one visible leaf-work directory, given what
/// reading `<item>/00-status.md` gave.
pub fn check_item_status(
    stage_dir: StageDir,
    dir_name: &str,
    slug: &str,
    status: &Result<String, String>,
    findings: &mut Vec<DoctorFinding>,
)
    requires
        stage_dir != StageDir::Pressed,
    ensures
        findings_view(final(findings)@) == findings_view(old(findings)@) + item_status_report(
            stage_dir,
            dir_name@,
            slug@,
            *status,
        ),
{
    let ghost start = findings_view(findings@);
    let item = cat4(".leaf/", dir_name, "/", slug);
    let rel = cat2(item.as_str(), "/00-status.md");
    let content = match status {
        Ok(c) => c,
        Err(e) => {
            let m = cat4("failed to read status file ", rel.as_str(), ": ", e.as_str());
            push_finding(
                findings,
                DoctorFinding::error("status_unreadable", m.as_str()).with_path(rel.as_str()),
            );
            assert(findings_view(findings@) =~= start + item_status_report(
                stage_dir,
                dir_name@,
                slug@,
                *status,
            ));
            return;
        },
    };
    let c = content.as_str();
    let summary = parse_status_summary(c, stage_dir);
    push_missing(stage_dir, c, &summary, rel.as_str(), findings);
    let ghost s1 = findings_view(findings@);
    push_legacy_fields(stage_dir, c, &summary, rel.as_str(), findings);
    let ghost s2 = findings_view(findings@);
    push_stage_mismatch(stage_dir, dir_name, c, &summary, rel.as_str(), findings);
    let ghost s3 = findings_view(findings@);
    push_feedback(stage_dir, c, &summary, rel.as_str(), findings);
    let ghost s4 = findings_view(findings@);
    push_triple(stage_dir, c, rel.as_str(), findings);
    assert(findings_view(findings@) =~= start + item_status_report(
        stage_dir,
        dir_name@,
        slug@,
        *status,
    ));
}

// ---------------------------------------------------------------------------
// Boundary polish
// ---------------------------------------------------------------------------
pub const BOUNDARY_POLISH_IMPACT: &'static str = "경계 polish 누락 — 누적 문서가 하나의 보고서로 다듬어지지 않은 채 다음 phase로 넘어갔다";

/// One warning for every phase before the `n`-th that is still unpolished.
pub open spec fn polish_upto(dir: Seq<char>, slug: Seq<char>, unpolished: Seq<bool>, n: int) -> Seq<
    FindingView,
>
    decreases n,
{
    if n <= 0 {
        Seq::empty()
    } else {
        let p = phase_order()[n - 1];
        polish_upto(dir, slug, unpolished, n - 1) + one_if(
            unpolished[n - 1],
            (
                Severity::Warn,
                "boundary_unpolished"@,
                "phase "@ + phase_name(p)
                    + " was left unpolished before the boundary; run leaf:polish on it, then remove its marker"@,
                LocationView::Path(item_path(dir, slug) + "/"@ + phase_dir(p)),
                Some(BOUNDARY_POLISH_IMPACT@),
            ),
        )
    }
}

/// What the polish markers of an item are reported for: every phase before
/// its current one whose folder still holds a marker (`unpolished[i]` for the
/// `i`-th phase), except in the fallen stage or when the status is unreadable.
pub open spec fn polish_report(
    d: StageDir,
    dir: Seq<char>,
    slug: Seq<char>,
    status: Result<String, String>,
    unpolished: Seq<bool>,
) -> Seq<FindingView> {
    if d == StageDir::Fallen {
        Seq::empty()
    } else {
        match status {
            Err(_) => Seq::empty(),
            Ok(c) => match status_value(c@, "current phase"@, "current phase"@) {
                None => Seq::empty(),
                Some(v) => match phase_from_value(v) {
                    None => Seq::empty(),
                    Some(cur) => polish_upto(dir, slug, unpolished, phase_index(cur) as int),
                },
            },
        }
    }
}

/// Reports every already-passed phase that still carries the polish-pending
/// marker. `unpolished[i]` says whether the folder of the `i`-th phase holds one.
pub fn check_item_boundary_polish(
    stage_dir: StageDir,
    dir_name: &str,
    slug: &str,
    status: &Result<String, String>,
    unpolished: &[bool],
    findings: &mut Vec<DoctorFinding>,
)
    requires
        unpolished.len() == 4,
        stage_dir != StageDir::Pressed,
    ensures
        findings_view(final(findings)@) == findings_view(old(findings)@) + polish_report(
            stage_dir,
            dir_name@,
            slug@,
            *status,
            unpolished@,
        ),
{
    let ghost s0 = findings_view(findings@);
    if stage_dir == StageDir::Fallen {
        assert(findings_view(findings@) =~= s0 + polish_report(stage_dir, dir_name@, slug@, *status, unpolished@));
        return;
    }
    let content = match status {
        Ok(c) => c,
        Err(_) => {
            assert(findings_view(findings@) =~= s0 + polish_report(stage_dir, dir_name@, slug@, *status, unpolished@));
            return;
        },
    };
    let summary = parse_status_summary(content.as_str(), stage_dir);
    let current = match &summary.current_phase {
        Some(v) => Phase::from_status_value(v.as_str()),
        None => None,
    };
    let current = match current {
        Some(p) => p,
        None => {
            assert(findings_view(findings@) =~= s0 + polish_report(stage_dir, dir_name@, slug@, *status, unpolished@));
            return;
        },
    };
    let item = cat4(".leaf/", dir_name, "/", slug);
    let limit = current.index();
    assert(summary.current_phase.deep_view() == status_value(content@, "current phase"@, "current phase"@));
    for k in 0..limit
        invariant
            unpolished.len() == 4,
            limit == phase_index(current),
            limit <= 3,
            findings_view(findings@) == s0 + polish_upto(dir_name@, slug@, unpolished@, k as int),
            item@ == item_path(dir_name@, slug@),
    {
        let phase = Phase::ORDER[k];
        assert(phase == phase_order()[k as int]);
        if unpolished[k] {
            let m = cat3(
                "phase ",
                phase.name(),
                " was left unpolished before the boundary; run leaf:polish on it, then remove its marker",
            );
            let path = cat3(item.as_str(), "/", phase.dir());
            push_finding(
                findings,
                DoctorFinding::warn("boundary_unpolished", m.as_str()).with_impact(
                    BOUNDARY_POLISH_IMPACT,
                ).with_path(path.as_str()),
            );
        }
        assert(findings_view(findings@) =~= s0 + polish_upto(dir_name@, slug@, unpolished@, k + 1));
    }
    assert(findings_view(findings@) =~= s0 + polish_report(stage_dir, dir_name@, slug@, *status, unpolished@));
}

// ---------------------------------------------------------------------------
// The entries of the stage directories
// ---------------------------------------------------------------------------
/// One raw entry of a stage directory, with what was read for it.
#[derive(Debug)]
pub struct StageEntry {
    pub name: String,
    pub is_dir: bool,
    /// What reading `<entry>/00-status.md` gave.
    pub status: Result<String, String>,
    /// Whether the folder of each phase, in order, holds a polish marker.
    pub unpolished: Vec<bool>,
    pub pressed: FileProbe,
    pub linked: FileProbe,
}

/// A stage directory's entries, or `Unreadable` when it could not be listed.
#[derive(Debug)]
pub enum StageListing {
    Unreadable,
    Entries(Vec<StageEntry>),
}

pub open spec fn entry_names(es: Seq<StageEntry>) -> Seq<Seq<char>> {
    es.map_values(|e: StageEntry| e.name@)
}

/// Inserts index `x` into `idx` after every index whose name does not sort
/// after `names[x]` (a stable insertion).
pub open spec fn insert_index(names: Seq<Seq<char>>, idx: Seq<int>, x: int) -> Seq<int>
    decreases idx.len(),
{
    if idx.len() == 0 {
        seq![x]
    } else if text_lt(names[x], names[idx.last()]) {
        insert_index(names, idx.drop_last(), x).push(idx.last())
    } else {
        idx.push(x)
    }
}

/// The positions `0..n` of `names`, stably sorted by name.
pub open spec fn sorted_indices(names: Seq<Seq<char>>, n: int) -> Seq<int>
    decreases n,
{
    if n <= 0 {
        Seq::empty()
    } else {
        insert_index(names, sorted_indices(names, n - 1), n - 1)
    }
}

/// What one entry of stage directory `dir` is reported for.
pub open spec fn entry_report(d: StageDir, dir: Seq<char>, e: StageEntry) -> Seq<FindingView> {
    if !e.is_dir {
        seq![
            located(
                Severity::Warn,
                "ignored_stage_entry"@,
                "ignored non-directory entry in "@ + dir + ": "@ + e.name@,
                ".leaf/"@ + dir + "/"@ + e.name@,
            ),
        ]
    } else {
        item_status_report(d, dir, e.name@, e.status) + polish_report(
            d,
            dir,
            e.name@,
            e.status,
            e.unpolished@,
        ) + pressed_report(d, dir, e.name@, e.pressed) + linked_report(
            d,
            dir,
            e.name@,
            e.linked,
            e.pressed,
        )
    }
}

/// The reports of the first `m` entries in sorted order.
pub open spec fn listing_report(d: StageDir, dir: Seq<char>, es: Seq<StageEntry>, idx: Seq<int>, m: int) -> Seq<
    FindingView,
>
    decreases m,
{
    if m <= 0 {
        Seq::empty()
    } else {
        listing_report(d, dir, es, idx, m - 1) + entry_report(d, dir, es[idx[m - 1]])
    }
}

/// The `(slug, path)` pairs of the directories among the first `m` sorted entries.
pub open spec fn listing_pairs(dir: Seq<char>, es: Seq<StageEntry>, idx: Seq<int>, m: int) -> Seq<
    (Seq<char>, Seq<char>),
>
    decreases m,
{
    if m <= 0 {
        Seq::empty()
    } else {
        let e = es[idx[m - 1]];
        listing_pairs(dir, es, idx, m - 1) + if e.is_dir {
            seq![(e.name@, ".leaf/"@ + dir + "/"@ + e.name@)]
        } else {
            Seq::empty()
        }
    }
}

pub open spec fn stage_name(i: int) -> Seq<char> {
    stage_dir_dir_name(lifecycle_dirs()[i])
}

pub open spec fn stages_report(ls: Seq<StageListing>, n: int) -> Seq<FindingView>
    decreases n,
{
    if n <= 0 {
        Seq::empty()
    } else {
        stages_report(ls, n - 1) + match ls[n - 1] {
            StageListing::Unreadable => Seq::empty(),
            StageListing::Entries(es) => listing_report(
                lifecycle_dirs()[n - 1],
                stage_name(n - 1),
                es@,
                sorted_indices(entry_names(es@), es@.len() as int),
                es@.len() as int,
            ),
        }
    }
}

pub open spec fn stages_pairs(ls: Seq<StageListing>, n: int) -> Seq<(Seq<char>, Seq<char>)>
    decreases n,
{
    if n <= 0 {
        Seq::empty()
    } else {
        stages_pairs(ls, n - 1) + match ls[n - 1] {
            StageListing::Unreadable => Seq::empty(),
            StageListing::Entries(es) => listing_pairs(
                stage_name(n - 1),
                es@,
                sorted_indices(entry_names(es@), es@.len() as int),
                es@.len() as int,
            ),
        }
    }
}

/// Adds `path` under `slug` to groups kept in ascending slug order.
pub open spec fn add_to_groups(
    g: Seq<(Seq<char>, Seq<Seq<char>>)>,
    slug: Seq<char>,
    path: Seq<char>,
) -> Seq<(Seq<char>, Seq<Seq<char>>)>
    decreases g.len(),
{
    if g.len() == 0 {
        seq![(slug, seq![path])]
    } else if g.last().0 == slug {
        g.drop_last().push((slug, g.last().1.push(path)))
    } else if text_lt(slug, g.last().0) {
        add_to_groups(g.drop_last(), slug, path).push(g.last())
    } else {
        g.push((slug, seq![path]))
    }
}

/// The paths of every slug, slugs in ascending order, paths in visiting order.
pub open spec fn slug_groups(pairs: Seq<(Seq<char>, Seq<char>)>) -> Seq<(Seq<char>, Seq<Seq<char>>)>
    decreases pairs.len(),
{
    if pairs.len() == 0 {
        Seq::empty()
    } else {
        add_to_groups(slug_groups(pairs.drop_last()), pairs.last().0, pairs.last().1)
    }
}

pub open spec fn duplicate_findings(g: Seq<(Seq<char>, Seq<Seq<char>>)>) -> Seq<FindingView>
    decreases g.len(),
{
    if g.len() == 0 {
        Seq::empty()
    } else {
        duplicate_findings(g.drop_last()) + one_if(
            g.last().1.len() > 1,
            (
                Severity::Warn,
                "duplicate_slug"@,
                "slug appears in more than one stage"@,
                LocationView::Paths(g.last().1),
                None,
            ),
        )
    }
}

/// Everything the walk over the stage directories reports.
pub open spec fn entries_report(ls: Seq<StageListing>) -> Seq<FindingView> {
    stages_report(ls, 3) + duplicate_findings(slug_groups(stages_pairs(ls, 3)))
}

pub open spec fn entries_well_formed(ls: Seq<StageListing>) -> bool {
    forall|i: int, j: int|
        #![trigger ls[i], ls[i]->Entries_0@[j]]
        0 <= i < ls.len() && ls[i] is Entries && 0 <= j < ls[i]->Entries_0@.len()
            ==> ls[i]->Entries_0@[j].unpolished@.len() == 4
}

fn insert_sorted_index(es: &Vec<StageEntry>, idx: &mut Vec<usize>, x: usize)
    requires
        x < es.len(),
        forall|k: int| 0 <= k < old(idx)@.len() ==> old(idx)@[k] < es.len(),
    ensures
        final(idx)@.map_values(|v: usize| v as int) == insert_index(
            entry_names(es@),
            old(idx)@.map_values(|v: usize| v as int),
            x as int,
        ),
        forall|k: int| 0 <= k < final(idx)@.len() ==> final(idx)@[k] < es.len(),
{
    let ghost names = entry_names(es@);
    let ghost orig = idx@.map_values(|v: usize| v as int);
    let mut p = idx.len();
    let xn = chars_of(es[x].name.as_str());
    let mut done = false;
    assert(orig.take(p as int) =~= orig);
    assert(orig.skip(p as int) =~= Seq::<int>::empty());
    assert(orig.len() == p);
    while p > 0 && !done
        invariant
            p <= idx.len(),
            idx@ == old(idx)@,
            orig == old(idx)@.map_values(|v: usize| v as int),
            names == entry_names(es@),
            x < es.len(),
            xn@ == es@[x as int].name@,
            forall|k: int| 0 <= k < idx@.len() ==> idx@[k] < es.len(),
            insert_index(names, orig, x as int) == insert_index(names, orig.take(p as int), x as int)
                + orig.skip(p as int),
            done ==> p > 0 && !text_lt(names[x as int], names[orig[p - 1]]),
        decreases p + (if done {
            0int
        } else {
            1int
        }),
    {
        let ghost q = (p - 1) as int;
        assert(names[orig[q]] == es@[idx@[q] as int].name@);
        let other = chars_of(es[idx[p - 1]].name.as_str());
        if chars_lt(xn.as_slice(), other.as_slice()) {
            assert(orig.take(p as int).drop_last() =~= orig.take(q));
            assert(orig.take(p as int).last() == orig[q]);
            assert(orig.take(q).push(orig[q]) =~= orig.take(p as int));
            assert(seq![orig[q]] + orig.skip(p as int) =~= orig.skip(q));
            p = p - 1;
        } else {
            done = true;
        }
    }
    proof {
        if p > 0 {
            assert(orig.take(p as int).last() == orig[p - 1]);
        }
    }
    idx.insert(p, x);
    assert(idx@.map_values(|v: usize| v as int) =~= insert_index(names, orig.take(p as int), x as int)
        + orig.skip(p as int));
}

fn sort_indices(es: &Vec<StageEntry>) -> (idx: Vec<usize>)
    ensures
        idx@.map_values(|v: usize| v as int) == sorted_indices(entry_names(es@), es@.len() as int),
        idx@.len() == es@.len(),
        forall|k: int| 0 <= k < idx@.len() ==> idx@[k] < es.len(),
{
    let mut idx: Vec<usize> = Vec::new();
    for x in 0..es.len()
        invariant
            idx@.map_values(|v: usize| v as int) == sorted_indices(entry_names(es@), x as int),
            idx@.len() == x,
            forall|k: int| 0 <= k < idx@.len() ==> idx@[k] < es.len(),
    {
        insert_sorted_index(es, &mut idx, x);
        proof {
            lemma_insert_index_len(entry_names(es@), sorted_indices(entry_names(es@), x as int), x as int);
        }
        assert(idx@.map_values(|v: usize| v as int).len() == idx@.len());
    }
    idx
}

proof fn lemma_insert_index_len(names: Seq<Seq<char>>, idx: Seq<int>, x: int)
    ensures
        insert_index(names, idx, x).len() == idx.len() + 1,
    decreases idx.len(),
{
    if idx.len() > 0 && text_lt(names[x], names[idx.last()]) {
        lemma_insert_index_len(names, idx.drop_last(), x);
    }
}

pub open spec fn groups_view(keys: Seq<Vec<char>>, paths: Seq<Vec<String>>) -> Seq<
    (Seq<char>, Seq<Seq<char>>),
> {
    Seq::new(keys.len(), |i: int| (keys[i]@, crate::doctor::strs(paths[i]@)))
}

fn add_group(keys: &mut Vec<Vec<char>>, paths: &mut Vec<Vec<String>>, slug: Vec<char>, path: String)
    requires
        old(keys)@.len() == old(paths)@.len(),
    ensures
        final(keys)@.len() == final(paths)@.len(),
        groups_view(final(keys)@, final(paths)@) == add_to_groups(
            groups_view(old(keys)@, old(paths)@),
            slug@,
            path@,
        ),
{
    let ghost g = groups_view(keys@, paths@);
    let mut p = keys.len();
    let mut done = false;
    assert(g.take(p as int) =~= g);
    assert(g.skip(p as int) =~= Seq::<(Seq<char>, Seq<Seq<char>>)>::empty());
    while p > 0 && !done
        invariant
            p <= keys.len(),
            keys@ == old(keys)@,
            paths@ == old(paths)@,
            keys@.len() == paths@.len(),
            g == groups_view(keys@, paths@),
            add_to_groups(g, slug@, path@) == add_to_groups(g.take(p as int), slug@, path@) + g.skip(
                p as int,
            ),
            done ==> p > 0 && g[p - 1].0 != slug@ && !text_lt(slug@, g[p - 1].0),
        decreases p + (if done {
            0int
        } else {
            1int
        }),
    {
        let ghost q = (p - 1) as int;
        assert(g.take(p as int).last() == g[q]);
        assert(g.take(p as int).drop_last() =~= g.take(q));
        if eq_chars(keys[p - 1].as_slice(), slug.as_slice()) {
            let ghost old_paths = paths@;
            let mut ps = paths.remove(p - 1);
            let ghost ps0 = ps@;
            assert(ps0 == old_paths[q]@);
            let ghost pv = path@;
            ps.push(path);
            let ghost psv = ps;
            assert(crate::doctor::strs(psv@) =~= crate::doctor::strs(ps0).push(pv));
            paths.insert(p - 1, ps);
            assert(paths@ =~= old_paths.update(q, psv));
            proof {
                let ng = groups_view(keys@, paths@);
                let target = g.take(q).push((slug@, g[q].1.push(pv))) + g.skip(p as int);
                assert(ng.len() == target.len());
                assert forall|j: int| 0 <= j < ng.len() implies ng[j] == target[j] by {
                    if j < q {
                        assert(target[j] == g[j]);
                    } else if j == q {
                        assert(keys@[q]@ == slug@);
                    } else {
                        assert(target[j] == g[j]);
                    }
                }
                assert(ng =~= target);
            }
            return;
        } else if chars_lt(slug.as_slice(), keys[p - 1].as_slice()) {
            assert(g.take(q).push(g[q]) =~= g.take(p as int));
            assert(seq![g[q]] + g.skip(p as int) =~= g.skip(q));
            p = p - 1;
        } else {
            done = true;
        }
    }
    let ghost sl = slug@;
    let ghost pv = path@;
    let ghost old_keys = keys@;
    let ghost old_paths = paths@;
    keys.insert(p, slug);
    let mut one: Vec<String> = Vec::new();
    one.push(path);
    assert(crate::doctor::strs(one@) =~= seq![pv]);
    let ghost onev = one;
    paths.insert(p, one);
    proof {
        let ng = groups_view(keys@, paths@);
        let target = g.take(p as int).push((sl, seq![pv])) + g.skip(p as int);
        assert(keys@ == old_keys.insert(p as int, keys@[p as int]));
        assert(ng.len() == target.len());
        assert forall|j: int| 0 <= j < ng.len() implies ng[j] == target[j] by {
            if j < p {
                assert(keys@[j] == old_keys[j]);
                assert(paths@[j] == old_paths[j]);
                assert(target[j] == g[j]);
            } else if j == p {
                assert(paths@[j] == onev);
            } else {
                assert(keys@[j] == old_keys[j - 1]);
                assert(paths@[j] == old_paths[j - 1]);
                assert(target[j] == g[j - 1]);
            }
        }
        assert(ng =~= target);
        if p > 0 {
            assert(g.take(p as int).last() == g[p - 1]);
        }
    }
}

fn clone_strings(v: &Vec<String>) -> (r: Vec<String>)
    ensures
        crate::doctor::strs(r@) == crate::doctor::strs(v@),
{
    let mut r: Vec<String> = Vec::new();
    for i in 0..v.len()
        invariant
            crate::doctor::strs(r@) == crate::doctor::strs(v@.take(i as int)),
    {
        let ghost before = crate::doctor::strs(r@);
        r.push(v[i].clone());
        assert(crate::doctor::strs(r@) =~= before.push(v@[i as int]@));
        assert(crate::doctor::strs(v@.take(i + 1)) =~= crate::doctor::strs(v@.take(i as int)).push(
            v@[i as int]@,
        ));
    }
    assert(v@.take(v@.len() as int) =~= v@);
    r
}

fn check_entry(
    stage_dir: StageDir,
    dir_name: &str,
    e: &StageEntry,
    findings: &mut Vec<DoctorFinding>,
)
    requires
        stage_dir != StageDir::Pressed,
        e.unpolished@.len() == 4,
    ensures
        findings_view(final(findings)@) == findings_view(old(findings)@) + entry_report(
            stage_dir,
            dir_name@,
            *e,
        ),
{
    let ghost s0 = findings_view(findings@);
    if !e.is_dir {
        let m = cat4("ignored non-directory entry in ", dir_name, ": ", e.name.as_str());
        let path = cat4(".leaf/", dir_name, "/", e.name.as_str());
        push_finding(
            findings,
            DoctorFinding::warn("ignored_stage_entry", m.as_str()).with_path(path.as_str()),
        );
        assert(findings_view(findings@) =~= s0 + entry_report(stage_dir, dir_name@, *e));
        return;
    }
    let slug = e.name.as_str();
    check_item_status(stage_dir, dir_name, slug, &e.status, findings);
    let ghost s1 = findings_view(findings@);
    check_item_boundary_polish(stage_dir, dir_name, slug, &e.status, e.unpolished.as_slice(), findings);
    let ghost s2 = findings_view(findings@);
    check_item_pressed_digest(stage_dir, dir_name, slug, &e.pressed, findings);
    let ghost s3 = findings_view(findings@);
    check_item_linked_metadata(stage_dir, dir_name, slug, &e.linked, &e.pressed, findings);
    assert(findings_view(findings@) =~= s0 + entry_report(stage_dir, dir_name@, *e));
}

/// Walks the entries of the three stage directories (`listings`, in lifecycle
/// order): every stray file is reported, every item directory is validated,
/// and slugs found in more than one stage are reported last.
pub fn check_entries(listings: &[StageListing], findings: &mut Vec<DoctorFinding>)
    requires
        listings.len() == 3,
        entries_well_formed(listings@),
    ensures
        findings_view(final(findings)@) == findings_view(old(findings)@) + entries_report(
            listings@,
        ),
{
    let ghost s0 = findings_view(findings@);
    let dirs = stage_dirs();
    let mut keys: Vec<Vec<char>> = Vec::new();
    let mut paths: Vec<Vec<String>> = Vec::new();
    assert(groups_view(keys@, paths@) =~= slug_groups(stages_pairs(listings@, 0)));
    for i in 0..3usize
        invariant
            listings.len() == 3,
            entries_well_formed(listings@),
            dirs@ == lifecycle_dirs(),
            keys@.len() == paths@.len(),
            findings_view(findings@) == s0 + stages_report(listings@, i as int),
            groups_view(keys@, paths@) == slug_groups(stages_pairs(listings@, i as int)),
    {
        let d = dirs[i];
        let dir_name = d.dir_name();
        assert(dir_name@ == stage_name(i as int));
        match &listings[i] {
            StageListing::Unreadable => {
                assert(findings_view(findings@) =~= s0 + stages_report(listings@, i + 1));
                assert(stages_pairs(listings@, i + 1) =~= stages_pairs(listings@, i as int));
            },
            StageListing::Entries(es) => {
                let idx = sort_indices(es);
                let ghost ix = idx@.map_values(|v: usize| v as int);
                let ghost base_f = findings_view(findings@);
                let ghost base_p = stages_pairs(listings@, i as int);
                assert(base_p + listing_pairs(dir_name@, es@, ix, 0) =~= base_p);
                assert(base_f + listing_report(d, dir_name@, es@, ix, 0) =~= base_f);
                for m in 0..es.len()
                    invariant
                        listings.len() == 3,
                        entries_well_formed(listings@),
                        listings@[i as int] == StageListing::Entries(*es),
                        i < 3,
                        d == lifecycle_dirs()[i as int],
                        d != StageDir::Pressed,
                        dir_name@ == stage_name(i as int),
                        ix == idx@.map_values(|v: usize| v as int),
                        idx@.len() == es@.len(),
                        forall|k: int| 0 <= k < idx@.len() ==> idx@[k] < es.len(),
                        keys@.len() == paths@.len(),
                        findings_view(findings@) == base_f + listing_report(d, dir_name@, es@, ix, m as int),
                        groups_view(keys@, paths@) == slug_groups(
                            base_p + listing_pairs(dir_name@, es@, ix, m as int),
                        ),
                {
                    let e = &es[idx[m]];
                    assert(ix[m as int] == idx@[m as int] as int);
                    assert(listings@[i as int]->Entries_0@[idx@[m as int] as int] == *e);
                    let ghost before_pairs = base_p + listing_pairs(dir_name@, es@, ix, m as int);
                    if e.is_dir {
                        let item = cat4(".leaf/", dir_name, "/", e.name.as_str());
                        let slug = chars_of(e.name.as_str());
                        add_group(&mut keys, &mut paths, slug, item);
                        assert(before_pairs.push((e.name@, ".leaf/"@ + dir_name@ + "/"@ + e.name@)).drop_last() =~= before_pairs);
                        assert(base_p + listing_pairs(dir_name@, es@, ix, m + 1) =~= before_pairs.push(
                            (e.name@, ".leaf/"@ + dir_name@ + "/"@ + e.name@),
                        ));
                    } else {
                        assert(base_p + listing_pairs(dir_name@, es@, ix, m + 1) =~= before_pairs);
                    }
                    check_entry(d, dir_name, e, findings);
                    assert(findings_view(findings@) =~= base_f + listing_report(d, dir_name@, es@, ix, m + 1));
                }
                assert(ix =~= sorted_indices(entry_names(es@), es@.len() as int));
                assert(findings_view(findings@) =~= s0 + stages_report(listings@, i + 1));
                assert(stages_pairs(listings@, i + 1) =~= base_p + listing_pairs(dir_name@, es@, ix, es@.len() as int));
            },
        }
    }
    let ghost mid = findings_view(findings@);
    let ghost gv = groups_view(keys@, paths@);
    for k in 0..keys.len()
        invariant
            keys@.len() == paths@.len(),
            gv == groups_view(keys@, paths@),
            findings_view(findings@) == mid + duplicate_findings(gv.take(k as int)),
    {
        assert(gv.take(k + 1).drop_last() =~= gv.take(k as int));
        assert(gv.take(k + 1).last() == gv[k as int]);
        if paths[k].len() > 1 {
            let ps = clone_strings(&paths[k]);
            push_finding(
                findings,
                DoctorFinding::warn("duplicate_slug", "slug appears in more than one stage").with_paths(
                    ps,
                ),
            );
        }
        assert(findings_view(findings@) =~= mid + duplicate_findings(gv.take(k + 1)));
    }
    assert(gv.take(keys@.len() as int) =~= gv);
    assert(findings_view(findings@) =~= s0 + entries_report(listings@));
}

} // verus!
