//! The decisions of the command line: which gate a checkpoint names, which
//! leaf work a slug means, and the lines each command prints.
//!
//! Paths here are `/`-separated text without trailing separators, as the
//! inventory and the lifecycle operations produce them.
use crate::checkpoint::{first_selected, gate_spec, is_gate, normalized_gate_flag, selects_gate, GateSpec};
use crate::inventory::{Inventory, InventoryItem, ItemKind, StageInventory};
use crate::checkpoint::{rfind_char, rfind_char_before};
use crate::text::{append, chars_of, eq_chars, has_prefix, join, join_chars, push_str, seqs, slice_vec, starts_with, string_of};
use vstd::prelude::*;

verus! {

// ---------------------------------------------------------------------------
// Checkpoint gate flags
// ---------------------------------------------------------------------------
/// Switches of `leaf checkpoint` that pick a gate: `--gate <gate>`, one switch per
/// gate name and one per gate number.
pub struct GateFlags {
    pub gate: Option<String>,
    pub intent: bool,
    pub unknowns: bool,
    pub criteria: bool,
    pub wireframe: bool,
    pub design: bool,
    pub critic: bool,
    pub tasks: bool,
    pub execution: bool,
    pub review: bool,
    pub retrospect: bool,
    pub gate_1: bool,
    pub gate_2: bool,
    pub gate_3: bool,
    pub gate_4: bool,
    pub gate_5: bool,
    pub gate_6: bool,
    pub gate_7: bool,
    pub gate_8: bool,
    pub gate_9: bool,
    pub gate_10: bool,
}

pub open spec fn pick(on: bool, name: Seq<char>) -> Seq<Seq<char>> {
    if on {
        seq![name]
    } else {
        Seq::empty()
    }
}

/// Each switch with what it names, in switch order: the names,
/// then the numbers.
pub open spec fn switches(f: GateFlags) -> Seq<(bool, &'static str)> {
    seq![
        (f.intent, "intent"),
        (f.unknowns, "unknowns"),
        (f.criteria, "criteria"),
        (f.wireframe, "wireframe"),
        (f.design, "design"),
        (f.critic, "critic"),
        (f.tasks, "tasks"),
        (f.execution, "execution"),
        (f.review, "review"),
        (f.retrospect, "retrospect"),
        (f.gate_1, "1"),
        (f.gate_2, "2"),
        (f.gate_3, "3"),
        (f.gate_4, "4"),
        (f.gate_5, "5"),
        (f.gate_6, "6"),
        (f.gate_7, "7"),
        (f.gate_8, "8"),
        (f.gate_9, "9"),
        (f.gate_10, "10"),
    ]
}

/// What the switches that are on name, in order.
pub open spec fn switched_on(s: Seq<(bool, &'static str)>) -> Seq<Seq<char>>
    decreases s.len(),
{
    if s.len() == 0 {
        Seq::empty()
    } else {
        switched_on(s.drop_last()) + pick(s.last().0, s.last().1@)
    }
}

/// What the switches name, in switch order: `--gate` first, then the
/// names, then the numbers.
pub open spec fn selected_gate_flags(f: GateFlags) -> Seq<Seq<char>> {
    (match f.gate {
        Some(g) => seq![g@],
        None => Seq::empty(),
    }) + switched_on(switches(f))
}

/// The names of the selected switches, in switch order.
pub fn selected_gates(f: &GateFlags) -> (r: Vec<String>)
    ensures
        r.deep_view() == selected_gate_flags(*f),
{
    let mut v: Vec<String> = Vec::new();
    match &f.gate {
        Some(g) => {
            v.push(g.clone());
            assert(v.deep_view() =~= seq![g@]);
        },
        None => {
            assert(v.deep_view() =~= Seq::<Seq<char>>::empty());
        },
    }
    let ghost v1 = v.deep_view();
    let sw: Vec<(bool, &'static str)> = vec![
        (f.intent, "intent"),
        (f.unknowns, "unknowns"),
        (f.criteria, "criteria"),
        (f.wireframe, "wireframe"),
        (f.design, "design"),
        (f.critic, "critic"),
        (f.tasks, "tasks"),
        (f.execution, "execution"),
        (f.review, "review"),
        (f.retrospect, "retrospect"),
        (f.gate_1, "1"),
        (f.gate_2, "2"),
        (f.gate_3, "3"),
        (f.gate_4, "4"),
        (f.gate_5, "5"),
        (f.gate_6, "6"),
        (f.gate_7, "7"),
        (f.gate_8, "8"),
        (f.gate_9, "9"),
        (f.gate_10, "10"),
    ];
    assert(sw@ =~= switches(*f));
    let mut i: usize = 0;
    assert(sw@.take(0) =~= Seq::<(bool, &'static str)>::empty());
    assert(v.deep_view() =~= v1 + switched_on(sw@.take(0)));
    while i < sw.len()
        invariant
            i <= sw.len(),
            v.deep_view() == v1 + switched_on(sw@.take(i as int)),
        decreases sw.len() - i,
    {
        let (on, name) = sw[i];
        let ghost before = v.deep_view();
        assert(sw@.take(i + 1).drop_last() =~= sw@.take(i as int));
        if on {
            v.push(name.to_owned());
        }
        assert(v.deep_view() =~= before + pick(on, name@));
        i = i + 1;
    }
    assert(sw@.take(sw@.len() as int) =~= sw@);
    v
}

/// Exactly one switch must be given; what it names is resolved as
/// `checkpoint::gate_spec` resolves it.
pub fn checkpoint_gate(f: &GateFlags) -> (r: Result<GateSpec, String>)
    ensures
        selected_gate_flags(*f).len() == 0 ==> (r matches Err(e) && e@
            == "missing gate flag; use --criteria, --3, or --gate <gate>"@),
        selected_gate_flags(*f).len() > 1 ==> (r matches Err(e) && e@
            == "choose exactly one gate flag"@),
        selected_gate_flags(*f).len() == 1 ==> match r {
            Ok(g) => is_gate(g, g.index - 1) && first_selected(
                normalized_gate_flag(selected_gate_flags(*f)[0]),
                g.index - 1,
            ),
            Err(e) => (forall|k: int|
                0 <= k < 10 ==> !selects_gate(normalized_gate_flag(selected_gate_flags(*f)[0]), k))
                && e@ == "unknown gate: "@ + selected_gate_flags(*f)[0],
        },
{
    let sel = selected_gates(f);
    if sel.len() == 0 {
        Err("missing gate flag; use --criteria, --3, or --gate <gate>".to_owned())
    } else if sel.len() == 1 {
        assert(sel.deep_view()[0] == sel@[0]@);
        gate_spec(sel[0].as_str())
    } else {
        Err("choose exactly one gate flag".to_owned())
    }
}

// ---------------------------------------------------------------------------
// Paths
// ---------------------------------------------------------------------------
/// The parent of `p`: `None` for `""` and `"/"`, `""` for a bare name, `"/"`
/// for a name directly under the root, otherwise everything before the last
/// `/`.
pub open spec fn parent_dir(p: Seq<char>) -> Option<Seq<char>> {
    let k = rfind_char_before(p, '/', p.len() as int);
    if p.len() == 0 || p == seq!['/'] {
        None
    } else if k < 0 {
        Some(Seq::empty())
    } else if k == 0 {
        Some(seq!['/'])
    } else {
        Some(p.take(k))
    }
}

pub fn parent_of(p: &str) -> (r: Option<String>)
    ensures
        match r {
            Some(q) => parent_dir(p@) == Some(q@),
            None => parent_dir(p@) is None,
        },
{
    let v = chars_of(p);
    if v.len() == 0 || (v.len() == 1 && v[0] == '/') {
        assert(v.len() == 1 ==> v@ =~= seq!['/']);
        return None;
    }
    assert(v@ != seq!['/']) by {
        if v@ =~= seq!['/'] {
            assert(v.len() == 1 && v@[0] == '/');
        }
    }
    match rfind_char(v.as_slice(), '/') {
        None => Some(String::new()),
        Some(k) => {
            if k == 0 {
                proof {
                    reveal_strlit("/");
                }
                Some("/".to_owned())
            } else {
                let head = slice_vec(v.as_slice(), 0, k);
                Some(string_of(head.as_slice()))
            }
        },
    }
}

/// `path` relative to `root` when it lies under it (`""` for `root` itself),
/// `path` unchanged otherwise.
pub open spec fn relative_to(root: Seq<char>, path: Seq<char>) -> Seq<char> {
    if path == root {
        Seq::empty()
    } else if root.len() > 0 && root.last() == '/' && starts_with(path, root) {
        path.skip(root.len() as int)
    } else if root.len() > 0 && starts_with(path, root.push('/')) {
        path.skip(root.len() as int + 1)
    } else {
        path
    }
}

pub fn repo_relative(repo_root: &str, path: &str) -> (r: String)
    ensures
        r@ == relative_to(repo_root@, path@),
{
    let root = chars_of(repo_root);
    let p = chars_of(path);
    if eq_chars(p.as_slice(), root.as_slice()) {
        assert(path@ =~= repo_root@);
        return String::new();
    }
    if root.len() > 0 && root[root.len() - 1] == '/' && has_prefix(p.as_slice(), root.as_slice()) {
        let rest = slice_vec(p.as_slice(), root.len(), p.len());
        assert(rest@ =~= path@.skip(repo_root@.len() as int));
        return string_of(rest.as_slice());
    }
    let mut with_sep = slice_vec(root.as_slice(), 0, root.len());
    with_sep.push('/');
    assert(root@.take(root.len() as int) =~= root@);
    if root.len() > 0 && has_prefix(p.as_slice(), with_sep.as_slice()) {
        let rest = slice_vec(p.as_slice(), with_sep.len(), p.len());
        assert(rest@ =~= path@.skip(repo_root@.len() as int + 1));
        return string_of(rest.as_slice());
    }
    path.to_owned()
}

// ---------------------------------------------------------------------------
// Leaf work by slug
// ---------------------------------------------------------------------------
/// The items of all stages, stage by stage.
pub open spec fn stage_items(stages: Seq<StageInventory>) -> Seq<InventoryItem>
    decreases stages.len(),
{
    if stages.len() == 0 {
        Seq::empty()
    } else {
        stage_items(stages.drop_last()) + stages.last().items@
    }
}

pub open spec fn is_leaf_work_named(it: InventoryItem, slug: Seq<char>) -> bool {
    it.kind == ItemKind::LeafWork && it.slug@ == slug
}

/// The paths of the leaf-work items named `slug`, in inventory order.
pub open spec fn leaf_work_paths(items: Seq<InventoryItem>, slug: Seq<char>) -> Seq<Seq<char>>
    decreases items.len(),
{
    if items.len() == 0 {
        Seq::empty()
    } else {
        leaf_work_paths(items.drop_last(), slug) + (if is_leaf_work_named(items.last(), slug) {
            seq![items.last().path@]
        } else {
            Seq::empty()
        })
    }
}

pub open spec fn relatives(root: Seq<char>, paths: Seq<Seq<char>>) -> Seq<Seq<char>> {
    Seq::new(paths.len(), |i: int| relative_to(root, paths[i]))
}

/// The paths of the leaf work named `slug`, in inventory order.
pub fn leaf_work_paths_for_slug(inventory: &Inventory, slug: &str) -> (r: Vec<String>)
    ensures
        r.deep_view() == leaf_work_paths(stage_items(inventory.stages@), slug@),
{
    let mut out: Vec<String> = Vec::new();
    let want = chars_of(slug);
    let mut s: usize = 0;
    assert(inventory.stages@.take(0) =~= Seq::<StageInventory>::empty());
    while s < inventory.stages.len()
        invariant
            s <= inventory.stages.len(),
            out.deep_view() == leaf_work_paths(stage_items(inventory.stages@.take(s as int)), slug@),
            want@ == slug@,
        decreases inventory.stages.len() - s,
    {
        let stage = &inventory.stages[s];
        let ghost before = stage_items(inventory.stages@.take(s as int));
        assert(inventory.stages@.take(s + 1).drop_last() =~= inventory.stages@.take(s as int));
        let mut j: usize = 0;
        assert(before + stage.items@.take(0) =~= before);
        while j < stage.items.len()
            invariant
                j <= stage.items.len(),
                out.deep_view() == leaf_work_paths(before + stage.items@.take(j as int), slug@),
                want@ == slug@,
            decreases stage.items.len() - j,
        {
            let it = &stage.items[j];
            assert((before + stage.items@.take(j + 1)).drop_last() =~= before + stage.items@.take(
                j as int,
            ));
            assert((before + stage.items@.take(j + 1)).last() == stage.items@[j as int]);
            let ghost prev = out.deep_view();
            let name = chars_of(it.slug.as_str());
            if it.kind == ItemKind::LeafWork && eq_chars(name.as_slice(), want.as_slice()) {
                out.push(it.path.clone());
                assert(out.deep_view() =~= prev + seq![it.path@]);
            }
            j = j + 1;
        }
        assert(stage.items@.take(stage.items.len() as int) =~= stage.items@);
        s = s + 1;
    }
    assert(inventory.stages@.take(inventory.stages.len() as int) =~= inventory.stages@);
    out
}

/// The one leaf-work directory named `slug`. No match, several matches
/// (listed relative to the repository, the leaf root's parent), and a leaf
/// root without a parent are errors.
pub fn leaf_work_path_for_slug(inventory: &Inventory, slug: &str) -> (r: Result<String, String>)
    ensures
        ({
            let m = leaf_work_paths(stage_items(inventory.stages@), slug@);
            match r {
                Ok(p) => m.len() == 1 && p@ == m[0],
                Err(e) => (m.len() == 0 && e@ == "leaf work does not exist: "@ + slug@) || (m.len()
                    > 1 && match parent_dir(inventory.leaf_root@) {
                    None => e@ == "inventory leaf root has no parent"@,
                    Some(root) => e@ == "leaf work slug is ambiguous: "@ + slug@ + " ("@ + join(
                        relatives(root, m),
                        ", "@,
                    ) + ")"@,
                }),
            }
        }),
{
    let m = leaf_work_paths_for_slug(inventory, slug);
    if m.len() == 0 {
        let mut msg: Vec<char> = Vec::new();
        push_str(&mut msg, "leaf work does not exist: ");
        push_str(&mut msg, slug);
        return Err(string_of(msg.as_slice()));
    }
    if m.len() == 1 {
        assert(m.deep_view()[0] == m@[0]@);
        return Ok(m[0].clone());
    }
    let root = match parent_of(inventory.leaf_root.as_str()) {
        Some(root) => root,
        None => {
            return Err("inventory leaf root has no parent".to_owned());
        },
    };
    let mut rel: Vec<Vec<char>> = Vec::new();
    let mut i: usize = 0;
    while i < m.len()
        invariant
            i <= m.len(),
            rel@.len() == i,
            forall|k: int| 0 <= k < i ==> #[trigger] rel@[k]@ == relative_to(root@, m.deep_view()[k]),
        decreases m.len() - i,
    {
        let r = repo_relative(root.as_str(), m[i].as_str());
        assert(m.deep_view()[i as int] == m@[i as int]@);
        rel.push(chars_of(r.as_str()));
        i = i + 1;
    }
    let sep = chars_of(", ");
    let joined = join_chars(&rel, sep.as_slice());
    assert(seqs(rel@) =~= relatives(root@, m.deep_view()));
    let mut msg: Vec<char> = Vec::new();
    push_str(&mut msg, "leaf work slug is ambiguous: ");
    push_str(&mut msg, slug);
    push_str(&mut msg, " (");
    append(&mut msg, joined.as_slice());
    push_str(&mut msg, ")");
    Err(string_of(msg.as_slice()))
}

// ---------------------------------------------------------------------------
// What the commands print
// ---------------------------------------------------------------------------
/// `leaf init`: whether `.leaf/` had to be set up.
pub fn init_message(changed: bool) -> (r: String)
    ensures
        r@ == (if changed {
            "initialized .leaf/"@
        } else {
            ".leaf/ already initialized"@
        }),
{
    if changed {
        "initialized .leaf/".to_owned()
    } else {
        ".leaf/ already initialized".to_owned()
    }
}

/// `leaf new`: the directory of the new sprout.
pub fn created_message(slug: &str) -> (r: String)
    ensures
        r@ == "created .leaf/01-sprouts/"@ + slug@ + "/"@,
{
    let mut out: Vec<char> = Vec::new();
    push_str(&mut out, "created .leaf/01-sprouts/");
    push_str(&mut out, slug);
    push_str(&mut out, "/");
    string_of(out.as_slice())
}

/// `leaf fall`: where the item moved, relative to the repository.
pub fn fall_message(repo_root: &str, source: &str, destination: &str) -> (r: String)
    ensures
        r@ == "moved "@ + relative_to(repo_root@, source@) + "/ to "@ + relative_to(
            repo_root@,
            destination@,
        ) + "/"@,
{
    let a = repo_relative(repo_root, source);
    let b = repo_relative(repo_root, destination);
    let mut out: Vec<char> = Vec::new();
    push_str(&mut out, "moved ");
    push_str(&mut out, a.as_str());
    push_str(&mut out, "/ to ");
    push_str(&mut out, b.as_str());
    push_str(&mut out, "/");
    string_of(out.as_slice())
}

pub open spec fn keep_warning_text(slug: Seq<char>, phase: Seq<char>) -> Seq<char> {
    "⚠ "@ + slug + "는 아직 Feedback에 도달하지 않았습니다 (current phase: "@
        + phase
        + "). 완료 전 keep일 수 있습니다 — 그래도 진행합니다."@
}

/// `leaf keep` on a sprout that has not reached Feedback: the warning
/// printed before the move goes ahead.
pub fn keep_warning(slug: &str, phase: &str) -> (r: String)
    ensures
        r@ == keep_warning_text(slug@, phase@),
{
    let mut out: Vec<char> = Vec::new();
    push_str(&mut out, "⚠ ");
    push_str(&mut out, slug);
    push_str(
        &mut out,
        "는 아직 Feedback에 도달하지 않았습니다 (current phase: ",
    );
    push_str(&mut out, phase);
    push_str(
        &mut out,
        "). 완료 전 keep일 수 있습니다 — 그래도 진행합니다.",
    );
    string_of(out.as_slice())
}

/// `leaf keep`: the sprout became a leaf, and where it moved.
pub fn keep_message(repo_root: &str, slug: &str, source: &str, destination: &str) -> (r: String)
    ensures
        r@ == "✓ "@ + slug@ + ": sprout → leaf\n  "@ + relative_to(repo_root@, source@)
            + "/ → "@ + relative_to(repo_root@, destination@)
            + "/\n  stage: sprout → leaf"@,
{
    let a = repo_relative(repo_root, source);
    let b = repo_relative(repo_root, destination);
    let mut out: Vec<char> = Vec::new();
    push_str(&mut out, "✓ ");
    push_str(&mut out, slug);
    push_str(&mut out, ": sprout → leaf\n  ");
    push_str(&mut out, a.as_str());
    push_str(&mut out, "/ → ");
    push_str(&mut out, b.as_str());
    push_str(&mut out, "/\n  stage: sprout → leaf");
    string_of(out.as_slice())
}

/// `leaf checkpoint`: one line per preserved document.
pub fn checkpoint_message(repo_root: &str, source: &str, checkpoint: &str) -> (r: String)
    ensures
        r@ == "checkpointed "@ + relative_to(repo_root@, source@) + " to "@ + relative_to(
            repo_root@,
            checkpoint@,
        ),
{
    let a = repo_relative(repo_root, source);
    let b = repo_relative(repo_root, checkpoint);
    let mut out: Vec<char> = Vec::new();
    push_str(&mut out, "checkpointed ");
    push_str(&mut out, a.as_str());
    push_str(&mut out, " to ");
    push_str(&mut out, b.as_str());
    string_of(out.as_slice())
}

/// The width `leaf tree` draws at: the terminal's columns (at least one)
/// when standard output is a terminal whose size is known, 112 otherwise.
pub fn tree_output_width(stdout_is_terminal: bool, columns: Option<u16>) -> (r: usize)
    ensures
        r == (match columns {
            Some(c) if stdout_is_terminal => if c >= 1 {
                c as int
            } else {
                1
            },
            _ => 112,
        }),
{
    if stdout_is_terminal {
        if let Some(c) = columns {
            return if c >= 1 {
                c as usize
            } else {
                1
            };
        }
    }
    112
}

} // verus!
