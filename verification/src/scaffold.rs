//! What a new sprout and each of its phases are scaffolded with.
use crate::phase::Phase;
use crate::text::{push_str, string_of};
use vstd::prelude::*;

verus! {

/// `00-status.md` body, written once at sprout creation.
pub const STATUS_TEMPLATE: &'static str = "# Sprout Status\n\n- why: TODO state the problem this LEAF exists to solve — keep it sharp\n- what: TODO name the deliverable this LEAF is aiming at (or `none — <reason>`)\n- wireframe: TODO name the cheap-preview form of that deliverable (or `none — <reason>`)\n- stage: sprout\n- current phase: Learn\n- current gate: ① Intent\n- first missing gate: ① Intent\n- next action: draft the one-sentence intent in 01-Learn/01-intent.md\n\n## Overview\n\n- request: TODO capture the user's request in the user's words\n- current scope: TODO state what is included, excluded, split, or still undecided\n- consistency rule: update why / what / wireframe and this overview whenever intent, scope, output, or gate files change what this LEAF is doing\n\n## Document Map\n\n- ① Intent: `01-Learn/01-intent.md`\n- ② Unknowns & Context: `01-Learn/02-unknowns.md`\n- ③ Criteria: `02-Example/03-criteria.md`\n- ④ Wireframe: `02-Example/04-wireframe.md`\n- ⑤ Design / ⑦ Tasks: `03-Architect/05-design.md`, `03-Architect/07-tasks.md`\n- ⑨ Review / ⑩ Retrospect: `04-Feedback/`\n";

pub const UNKNOWNS_BODY: &'static str = "# Unknowns And Context\n\n② is gathered by four parallel scouts; keep what each finds under the\nmatching heading, then summarize the load-bearing answers here with their\nsource.\n\n## A. Terrain — what exists (refs, concepts, internal assets, tools)\n\n## B. Method — how it's done (best practice, cases, anti-patterns)\n\n## C. Judgment — where it forks (trade-offs, debates, hidden premises)\n\n## D. Context — why it's this way (history, recent change, analogies, stakeholders)\n";

pub const REFERENCES_BODY: &'static str = "# References\n\nLearn always builds context here — this is not a lazy, fill-when-stuck\nfolder. ② runs as four parallel scouts, each writing what it finds to this\nfolder, one file per topic named for what it covers:\n\n- A. Terrain — what exists: external refs (comparable cases, prior art,\nauthoritative sources), domain concepts, internal assets (your own\ndocuments, data, prior decisions), tools.\n- B. Method — how it's done: best practices, real cases/benchmarks,\nfailure cases and anti-patterns.\n- C. Judgment — where it forks: trade-offs and selection criteria, live\ndebates, hidden premises. Never skip this one — it is what turns\ncollected material into a decision.\n- D. Context — why it's this way: history, recent changes, analogies from\nadjacent fields, stakeholders.\n\nEach scout returns grounds (what it found and where), not a verdict. Then\nsummarize only what the work truly needs out into ../02-unknowns.md, with\nits source, as a reading map rather than an answer.\n";

pub const FEEDBACK_BODY: &'static str = "# Feedback\n\n이 phase의 exit는 close-out이다. ⑩ Retrospect 후 keep/press/fall 결정 전에, 누적 전체\n(Learn→Feedback)를 하나의 보고서로 `leaf:polish`하여 최종 산출물이 draft 상태로\n마감되지 않게 한다. ⑨ Review는 `09-review.md`, ⑩ Retrospect는 `10-retrospect.md`에 쓴다.\n";

pub const INTENT_BODY: &'static str = "# Intent\n\nCapture the raw idea and the current one-sentence intent here.\n";

pub const CRITERIA_BODY: &'static str = "# Criteria\n\nState purpose, constraints, and observable acceptance checks here.\n";

pub const WIREFRAME_BODY: &'static str = "# Wireframe\n\nUse a concrete text-first example before generalizing the work.\n";

pub const DESIGN_BODY: &'static str = "# Design\n\nRecord the implementation-facing design after the concrete example holds.\n";

pub const TASKS_BODY: &'static str = "# Tasks\n\nBreak the work into reviewable implementation slices.\n";

/// Block scaffolded into each phase's first gate file: the machine token and
/// a human-readable reminder.
pub const POLISH_PENDING_BLOCK: &'static str = "<!-- leaf:polish-pending -->\n<!-- 이 phase를 마치면 leaf:polish로 누적 전체를 다듬고 위 토큰 줄을 지운 뒤 `leaf next` 하세요. -->\n\n";

pub open spec fn phase_dir_list(p: Phase) -> Seq<Seq<char>> {
    match p {
        Phase::Learn => seq!["01-Learn"@, "01-Learn/02-references"@],
        Phase::Example => seq!["02-Example"@],
        Phase::Architect => seq!["03-Architect"@],
        Phase::Feedback => seq!["04-Feedback"@],
    }
}

pub open spec fn phase_file_list(p: Phase) -> Seq<(Seq<char>, Seq<char>)> {
    match p {
        Phase::Learn => seq![
            ("01-Learn/01-intent.md"@, INTENT_BODY@),
            ("01-Learn/02-unknowns.md"@, UNKNOWNS_BODY@),
            ("01-Learn/02-references/README.md"@, REFERENCES_BODY@),
        ],
        Phase::Example => seq![
            ("02-Example/03-criteria.md"@, CRITERIA_BODY@),
            ("02-Example/04-wireframe.md"@, WIREFRAME_BODY@),
        ],
        Phase::Architect => seq![
            ("03-Architect/05-design.md"@, DESIGN_BODY@),
            ("03-Architect/07-tasks.md"@, TASKS_BODY@),
        ],
        Phase::Feedback => seq![("04-Feedback/README.md"@, FEEDBACK_BODY@)],
    }
}

/// Directories created when a phase is scaffolded, relative to the sprout.
pub fn phase_dirs(phase: Phase) -> (r: &'static [&'static str])
    ensures
        r@.map_values(|d: &'static str| d@) == phase_dir_list(phase),
{
    let r: &'static [&'static str] = match phase {
        Phase::Learn => &["01-Learn", "01-Learn/02-references"],
        Phase::Example => &["02-Example"],
        Phase::Architect => &["03-Architect"],
        Phase::Feedback => &["04-Feedback"],
    };
    assert(r@.map_values(|d: &'static str| d@) =~= phase_dir_list(phase));
    r
}

/// Gate files created when a phase is scaffolded, with their bodies; the
/// first is the phase's marker file.
pub fn phase_files(phase: Phase) -> (r: &'static [(&'static str, &'static str)])
    ensures
        r@.map_values(|f: (&'static str, &'static str)| (f.0@, f.1@)) == phase_file_list(phase),
{
    let r: &'static [(&'static str, &'static str)] = match phase {
        Phase::Learn => &[
            ("01-Learn/01-intent.md", INTENT_BODY),
            ("01-Learn/02-unknowns.md", UNKNOWNS_BODY),
            ("01-Learn/02-references/README.md", REFERENCES_BODY),
        ],
        Phase::Example => &[
            ("02-Example/03-criteria.md", CRITERIA_BODY),
            ("02-Example/04-wireframe.md", WIREFRAME_BODY),
        ],
        Phase::Architect => &[
            ("03-Architect/05-design.md", DESIGN_BODY),
            ("03-Architect/07-tasks.md", TASKS_BODY),
        ],
        Phase::Feedback => &[("04-Feedback/README.md", FEEDBACK_BODY)],
    };
    assert(r@.map_values(|f: (&'static str, &'static str)| (f.0@, f.1@)) =~= phase_file_list(phase));
    r
}

/// The files to write for a phase, given which of its gate files already
/// exist: every missing one, the first with the polish-pending block before
/// its body.
pub open spec fn scaffold_writes(files: Seq<(Seq<char>, Seq<char>)>, exists: Seq<bool>, n: int) -> Seq<(Seq<char>, Seq<char>)>
    decreases n,
{
    if n <= 0 {
        Seq::empty()
    } else {
        scaffold_writes(files, exists, n - 1) + if exists[n - 1] {
            Seq::empty()
        } else {
            seq![(files[n - 1].0, if n - 1 == 0 {
                POLISH_PENDING_BLOCK@ + files[n - 1].1
            } else {
                files[n - 1].1
            })]
        }
    }
}

pub fn scaffold_plan(phase: Phase, exists: &[bool]) -> (r: Vec<(String, String)>)
    requires
        exists.len() == phase_file_list(phase).len(),
    ensures
        r@.map_values(|w: (String, String)| (w.0@, w.1@)) == scaffold_writes(
            phase_file_list(phase),
            exists@,
            exists@.len() as int,
        ),
{
    let files = phase_files(phase);
    let ghost fl = phase_file_list(phase);
    assert(files@.len() == fl.len()) by {
        assert(files@.map_values(|f: (&'static str, &'static str)| (f.0@, f.1@)).len() == files@.len());
    }
    let mut out: Vec<(String, String)> = Vec::new();
    for i in 0..files.len()
        invariant
            fl == phase_file_list(phase),
            files@.map_values(|f: (&'static str, &'static str)| (f.0@, f.1@)) == fl,
            files@.len() == fl.len(),
            exists.len() == fl.len(),
            out@.map_values(|w: (String, String)| (w.0@, w.1@)) == scaffold_writes(fl, exists@, i as int),
    {
        let (path, body) = files[i];
        assert(fl[i as int] == (path@, body@));
        if !exists[i] {
            let content = if i == 0 {
                let mut v: Vec<char> = Vec::new();
                push_str(&mut v, POLISH_PENDING_BLOCK);
                push_str(&mut v, body);
                string_of(v.as_slice())
            } else {
                body.to_string()
            };
            let ghost before = out@.map_values(|w: (String, String)| (w.0@, w.1@));
            out.push((path.to_string(), content));
            assert(out@.map_values(|w: (String, String)| (w.0@, w.1@)) =~= before.push(
                (out@.last().0@, out@.last().1@),
            ));
        }
        assert(out@.map_values(|w: (String, String)| (w.0@, w.1@)) =~= scaffold_writes(fl, exists@, i + 1));
    }
    out
}

} // verus!
