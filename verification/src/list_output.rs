//! `leaf list` output: the plain-text table and the JSON inventory.
use crate::doctor::srp_sidecar::path_components;
use crate::doctor_output::display_path_text;
use crate::inventory::{
    Inventory, InventoryItem, ItemKind, ParseState, StageDir, StageInventory, StatusField,
    StatusSummary, status_field_label,
};
use crate::list_columns::{parse_state_label, parse_state_text, text_table, text_table_text, ListColumn, ListColumnRow, LIST_COLUMNS};
use crate::review::{parse_gate_index, review_gate_index};
use crate::text::{
    append, chars_of, contains, decimal, decimal_chars, eq_chars, has_seq, join, join_chars,
    push_str, seqs, string_of, to_lowercase, unicode_lower,
};
use vstd::prelude::*;

verus! {

pub open spec fn stage_singular(d: StageDir) -> Seq<char> {
    match d {
        StageDir::Sprouts => "sprout"@,
        StageDir::Leaves => "leaf"@,
        StageDir::Fallen => "fallen"@,
        StageDir::Pressed => "pressed"@,
    }
}

pub open spec fn stage_plural(d: StageDir) -> Seq<char> {
    match d {
        StageDir::Sprouts => "sprouts"@,
        StageDir::Leaves => "leaves"@,
        StageDir::Fallen => "fallen"@,
        StageDir::Pressed => "pressed"@,
    }
}

/// What one item of a stage is called.
pub fn stage_label_singular(stage_dir: StageDir) -> (r: &'static str)
    ensures
        r@ == stage_singular(stage_dir),
{
    match stage_dir {
        StageDir::Sprouts => "sprout",
        StageDir::Leaves => "leaf",
        StageDir::Fallen => "fallen",
        StageDir::Pressed => "pressed",
    }
}

/// What the items of a stage are called together.
pub fn stage_label_plural(stage_dir: StageDir) -> (r: &'static str)
    ensures
        r@ == stage_plural(stage_dir),
{
    match stage_dir {
        StageDir::Sprouts => "sprouts",
        StageDir::Leaves => "leaves",
        StageDir::Fallen => "fallen",
        StageDir::Pressed => "pressed",
    }
}

pub open spec fn item_kind_text(k: ItemKind) -> Seq<char> {
    match k {
        ItemKind::LeafWork => "leaf_work"@,
        ItemKind::PressedDigest => "pressed_digest"@,
    }
}

pub fn item_kind_label(kind: ItemKind) -> (r: &'static str)
    ensures
        r@ == item_kind_text(kind),
{
    match kind {
        ItemKind::LeafWork => "leaf_work",
        ItemKind::PressedDigest => "pressed_digest",
    }
}

pub open spec fn or_fallback(value: Option<String>, fallback: Seq<char>) -> Seq<char> {
    match value {
        Some(v) => v@,
        None => fallback,
    }
}

/// The value, or `fallback` when there is none.
pub fn display_optional(value: &Option<String>, fallback: &str) -> (r: String)
    ensures
        r@ == or_fallback(*value, fallback@),
{
    match value {
        Some(v) => v.clone(),
        None => fallback.to_string(),
    }
}

/// One row of `leaf list`.
#[derive(Debug)]
pub struct ListRow {
    pub stage_label: String,
    pub slug: String,
    pub phase: String,
    pub gate: String,
    pub parse_state: ParseState,
}

pub open spec fn row_of(it: InventoryItem, r: ListRow) -> bool {
    &&& r.stage_label@ == stage_singular(it.stage_dir)
    &&& r.slug@ == it.slug@
    &&& r.phase@ == or_fallback(it.status.current_phase, "-"@)
    &&& r.gate@ == or_fallback(it.status.current_gate, "-"@)
    &&& r.parse_state == it.status.parse_state
}

impl ListRow {
    pub fn from_item(item: &InventoryItem) -> (r: ListRow)
        ensures
            row_of(*item, r),
    {
        ListRow {
            stage_label: stage_label_singular(item.stage_dir).to_string(),
            slug: item.slug.clone(),
            phase: display_optional(&item.status.current_phase, "-"),
            gate: display_optional(&item.status.current_gate, "-"),
            parse_state: item.status.parse_state,
        }
    }

    /// The row as the list columns read it.
    pub fn columns(&self) -> (r: ListColumnRow)
        ensures
            r.bucket_label@ == self.stage_label@,
            r.phase@ == self.phase@,
            r.gate@ == self.gate@,
            r.slug@ == self.slug@,
            r.parse_state == self.parse_state,
    {
        ListColumnRow {
            bucket_label: self.stage_label.clone(),
            phase: self.phase.clone(),
            gate: self.gate.clone(),
            slug: self.slug.clone(),
            parse_state: self.parse_state,
        }
    }
}

/// The items listed, stage by stage, leaving out the pressed stage.
pub open spec fn listed_items(stages: Seq<StageInventory>) -> Seq<InventoryItem>
    decreases stages.len(),
{
    if stages.len() == 0 {
        Seq::empty()
    } else {
        listed_items(stages.drop_last()) + if stages.last().stage_dir == StageDir::Pressed {
            Seq::empty()
        } else {
            stages.last().items@
        }
    }
}

/// The rows of `leaf list`: one per listed item, in order.
pub fn list_rows(inventory: &Inventory) -> (r: Vec<ListRow>)
    ensures
        r@.len() == listed_items(inventory.stages@).len(),
        forall|i: int| 0 <= i < r@.len() ==> row_of(listed_items(inventory.stages@)[i], #[trigger] r@[i]),
{
    let stages = &inventory.stages;
    let mut rows: Vec<ListRow> = Vec::new();
    for s in 0..stages.len()
        invariant
            rows@.len() == listed_items(stages@.take(s as int)).len(),
            forall|i: int| 0 <= i < rows@.len() ==> row_of(listed_items(stages@.take(s as int))[i], #[trigger] rows@[i]),
    {
        assert(stages@.take(s + 1).drop_last() =~= stages@.take(s as int));
        let ghost prev = listed_items(stages@.take(s as int));
        let st = &stages[s];
        if st.stage_dir != StageDir::Pressed {
            let ghost base = rows@.len();
            for k in 0..st.items.len()
                invariant
                    prev == listed_items(stages@.take(s as int)),
                    base == prev.len(),
                    rows@.len() == base + k,
                    forall|i: int| 0 <= i < rows@.len() ==> row_of((prev + st.items@)[i], #[trigger] rows@[i]),
            {
                let ghost before = rows@;
                rows.push(ListRow::from_item(&st.items[k]));
                assert forall|i: int| 0 <= i < rows@.len() implies row_of((prev + st.items@)[i], #[trigger] rows@[i]) by {
                    if i < before.len() {
                        assert(rows@[i] == before[i]);
                    }
                }
            }
            assert(listed_items(stages@.take(s + 1)) == prev + st.items@);
        } else {
            assert(listed_items(stages@.take(s + 1)) =~= prev);
        }
    }
    assert(stages@.take(stages@.len() as int) =~= stages@);
    rows
}

/// The stages (other than the pressed one) without items, by plural name.
pub open spec fn empty_stage_names(stages: Seq<StageInventory>) -> Seq<Seq<char>>
    decreases stages.len(),
{
    if stages.len() == 0 {
        Seq::empty()
    } else {
        let st = stages.last();
        empty_stage_names(stages.drop_last()) + if st.stage_dir != StageDir::Pressed
            && st.items@.len() == 0 {
            seq![stage_plural(st.stage_dir)]
        } else {
            Seq::empty()
        }
    }
}

pub open spec fn list_text_of(table: Seq<char>, stages: Seq<StageInventory>) -> Seq<char> {
    let empties = empty_stage_names(stages);
    table + "\n"@ + if empties.len() > 0 {
        "\nempty: "@ + join(empties, ", "@) + "\n"@
    } else {
        Seq::empty()
    }
}

/// `leaf list` as text: the table of rows, then the empty stages.
pub fn write_text(inventory: &Inventory) -> (r: String)
    ensures
        exists|cols: Seq<ListColumnRow>|
            cols.len() == listed_items(inventory.stages@).len() && (forall|i: int|
                0 <= i < cols.len() ==> {
                    let it = listed_items(inventory.stages@)[i];
                    &&& (#[trigger] cols[i]).bucket_label@ == stage_singular(it.stage_dir)
                    &&& cols[i].slug@ == it.slug@
                    &&& cols[i].phase@ == or_fallback(it.status.current_phase, "-"@)
                    &&& cols[i].gate@ == or_fallback(it.status.current_gate, "-"@)
                    &&& cols[i].parse_state == it.status.parse_state
                }) && r@ == list_text_of(text_table_text(LIST_COLUMNS@, cols), inventory.stages@),
{
    let rows = list_rows(inventory);
    let mut cols: Vec<ListColumnRow> = Vec::new();
    for i in 0..rows.len()
        invariant
            cols@.len() == i,
            rows@.len() == listed_items(inventory.stages@).len(),
            forall|j: int| 0 <= j < rows@.len() ==> row_of(listed_items(inventory.stages@)[j], #[trigger] rows@[j]),
            forall|j: int| 0 <= j < i ==> {
                let it = listed_items(inventory.stages@)[j];
                &&& (#[trigger] cols@[j]).bucket_label@ == stage_singular(it.stage_dir)
                &&& cols@[j].slug@ == it.slug@
                &&& cols@[j].phase@ == or_fallback(it.status.current_phase, "-"@)
                &&& cols@[j].gate@ == or_fallback(it.status.current_gate, "-"@)
                &&& cols@[j].parse_state == it.status.parse_state
            },
    {
        assert(row_of(listed_items(inventory.stages@)[i as int], rows@[i as int]));
        cols.push(rows[i].columns());
    }
    let table = text_table(&LIST_COLUMNS, cols.as_slice());
    let mut v: Vec<char> = Vec::new();
    push_str(&mut v, table.as_str());
    push_str(&mut v, "\n");
    let stages = &inventory.stages;
    let mut pieces: Vec<Vec<char>> = Vec::new();
    for s in 0..stages.len()
        invariant
            seqs(pieces@) == empty_stage_names(stages@.take(s as int)),
    {
        assert(stages@.take(s + 1).drop_last() =~= stages@.take(s as int));
        let st = &stages[s];
        if st.stage_dir != StageDir::Pressed && st.items.len() == 0 {
            let ghost before = seqs(pieces@);
            pieces.push(chars_of(stage_label_plural(st.stage_dir)));
            assert(seqs(pieces@) =~= before.push(stage_plural(st.stage_dir)));
        }
        assert(seqs(pieces@) =~= empty_stage_names(stages@.take(s + 1)));
    }
    assert(stages@.take(stages@.len() as int) =~= stages@);
    if pieces.len() > 0 {
        push_str(&mut v, "\nempty: ");
        let sep = chars_of(", ");
        let j = join_chars(&pieces, sep.as_slice());
        append(&mut v, j.as_slice());
        push_str(&mut v, "\n");
    }
    assert(v@ =~= list_text_of(text_table_text(LIST_COLUMNS@, cols@), inventory.stages@));
    string_of(v.as_slice())
}

// ---------------------------------------------------------------------------
// Progress
// ---------------------------------------------------------------------------
pub open spec fn terminal_needles() -> Seq<Seq<char>> {
    seq!["완료"@, "pressed"@, "leaf-done"@, "done"@, "complete"@]
}

/// Whether a phase/gate text says the work is finished.
pub open spec fn terminal_text(text: Seq<char>) -> bool {
    exists|i: int|
        0 <= i < terminal_needles().len() && contains(unicode_lower(text), #[trigger] terminal_needles()[i])
}

pub fn is_terminal_progress(text: &str) -> (b: bool)
    ensures
        b == terminal_text(text@),
{
    let t = chars_of(text);
    let low = to_lowercase(t.as_slice());
    let needles: [&'static str; 5] = ["완료", "pressed", "leaf-done", "done", "complete"];
    assert(needles@.map_values(|n: &'static str| n@) =~= terminal_needles());
    let mut i: usize = 0;
    while i < 5
        invariant
            i <= 5,
            low@ == unicode_lower(text@),
            needles@.map_values(|n: &'static str| n@) == terminal_needles(),
            forall|j: int| 0 <= j < i ==> !contains(unicode_lower(text@), terminal_needles()[j]),
        decreases 5 - i,
    {
        let n = chars_of(needles[i]);
        assert(needles@[i as int]@ == terminal_needles()[i as int]);
        if has_seq(low.as_slice(), n.as_slice()) {
            return true;
        }
        i = i + 1;
    }
    false
}

pub const PROGRESS_TOTAL: usize = 10;

/// Progress through the ten gates, as the JSON reports it.
#[derive(Debug)]
pub struct ProgressJson {
    pub done: usize,
    pub current: Option<usize>,
    pub total: usize,
    pub label: String,
}

pub open spec fn progress_text(s: StatusSummary) -> Seq<char> {
    or_fallback(s.current_phase, Seq::empty()) + " "@ + or_fallback(s.current_gate, Seq::empty())
}

pub open spec fn progress_matches(s: StatusSummary, p: ProgressJson) -> bool {
    if terminal_text(progress_text(s)) {
        &&& p.done == 10 && p.current is None && p.total == 10
        &&& p.label@ == "10/10"@
    } else {
        let current = match s.current_gate {
            Some(g) => review_gate_index(g@),
            None => None,
        };
        &&& p.total == 10
        &&& match current {
            Some(g) => p.current == Some(g as usize) && p.done == g - 1 && p.label@ == decimal(g)
                + "/10"@,
            None => p.current is None && p.done == 0 && p.label@ == "—/10"@,
        }
    }
}

impl ProgressJson {
    pub fn from_summary(status: &StatusSummary) -> (r: ProgressJson)
        ensures
            progress_matches(*status, r),
    {
        let mut t: Vec<char> = Vec::new();
        match &status.current_phase {
            Some(p) => push_str(&mut t, p.as_str()),
            None => {},
        }
        push_str(&mut t, " ");
        match &status.current_gate {
            Some(g) => push_str(&mut t, g.as_str()),
            None => {},
        }
        assert(t@ =~= progress_text(*status));
        let text = string_of(t.as_slice());
        if is_terminal_progress(text.as_str()) {
            return ProgressJson {
                done: PROGRESS_TOTAL,
                current: None,
                total: PROGRESS_TOTAL,
                label: "10/10".to_string(),
            };
        }
        let current = match &status.current_gate {
            Some(g) => parse_gate_index(g.as_str()),
            None => None,
        };
        match current {
            Some(gate) => {
                let mut l = decimal_chars(gate as u64);
                push_str(&mut l, "/10");
                ProgressJson {
                    done: if gate >= 1 { gate - 1 } else { 0 },
                    current: Some(gate),
                    total: PROGRESS_TOTAL,
                    label: string_of(l.as_slice()),
                }
            },
            None => ProgressJson {
                done: 0,
                current: None,
                total: PROGRESS_TOTAL,
                label: "—/10".to_string(),
            },
        }
    }
}

// ---------------------------------------------------------------------------
// JSON inventory
// ---------------------------------------------------------------------------
#[derive(Debug)]
pub struct JsonStatus {
    pub parse_state: &'static str,
    pub stage: Option<String>,
    pub fallen_reason: Option<String>,
    pub current_phase: Option<String>,
    pub current_gate: Option<String>,
    pub progress_done: usize,
    pub progress_current: Option<usize>,
    pub progress_total: usize,
    pub progress_label: String,
    pub first_missing_gate: Option<String>,
    pub next_action: Option<String>,
    pub missing_fields: Vec<&'static str>,
}

pub open spec fn opt_text(o: Option<String>) -> Option<Seq<char>> {
    match o {
        Some(s) => Some(s@),
        None => None,
    }
}

fn clone_opt(o: &Option<String>) -> (r: Option<String>)
    ensures
        opt_text(r) == opt_text(*o),
{
    match o {
        Some(s) => Some(s.clone()),
        None => None,
    }
}

pub open spec fn json_status_matches(s: StatusSummary, j: JsonStatus) -> bool {
    &&& j.parse_state@ == parse_state_text(s.parse_state)
    &&& opt_text(j.stage) == opt_text(s.stage)
    &&& opt_text(j.fallen_reason) == opt_text(s.fallen_reason)
    &&& opt_text(j.current_phase) == opt_text(s.current_phase)
    &&& opt_text(j.current_gate) == opt_text(s.current_gate)
    &&& opt_text(j.first_missing_gate) == opt_text(s.first_missing_gate)
    &&& opt_text(j.next_action) == opt_text(s.next_action)
    &&& j.missing_fields@.map_values(|l: &'static str| l@) == s.missing_fields@.map_values(
        |f: StatusField| status_field_label(f),
    )
    &&& exists|p: ProgressJson|
        progress_matches(s, p) && j.progress_done == p.done && j.progress_current == p.current
            && j.progress_total == p.total && j.progress_label@ == (#[trigger] p.label)@
}

impl JsonStatus {
    pub fn from_summary(status: &StatusSummary) -> (r: JsonStatus)
        ensures
            json_status_matches(*status, r),
    {
        let progress = ProgressJson::from_summary(status);
        let ghost pg = progress;
        let mut labels: Vec<&'static str> = Vec::new();
        for i in 0..status.missing_fields.len()
            invariant
                labels@.map_values(|l: &'static str| l@) == status.missing_fields@.take(i as int).map_values(
                    |f: StatusField| status_field_label(f),
                ),
        {
            let ghost before = labels@.map_values(|l: &'static str| l@);
            let ghost mf = status.missing_fields@;
            labels.push(status.missing_fields[i].label());
            assert(labels@.map_values(|l: &'static str| l@) =~= before.push(status_field_label(mf[i as int])));
            assert(mf.take(i + 1) =~= mf.take(i as int).push(mf[i as int]));
            assert(labels@.map_values(|l: &'static str| l@) =~= status.missing_fields@.take(i + 1).map_values(
                |f: StatusField| status_field_label(f),
            ));
        }
        assert(status.missing_fields@.take(status.missing_fields@.len() as int) =~= status.missing_fields@);
        let ProgressJson { done, current, total, label } = progress;
        let r = JsonStatus {
            parse_state: parse_state_label(status.parse_state),
            stage: clone_opt(&status.stage),
            fallen_reason: clone_opt(&status.fallen_reason),
            current_phase: clone_opt(&status.current_phase),
            current_gate: clone_opt(&status.current_gate),
            progress_done: done,
            progress_current: current,
            progress_total: total,
            progress_label: label,
            first_missing_gate: clone_opt(&status.first_missing_gate),
            next_action: clone_opt(&status.next_action),
            missing_fields: labels,
        };
        assert(progress_matches(*status, pg) && r.progress_label@ == pg.label@);
        r
    }
}

pub open spec fn inventory_rel_path(leaf_root: Seq<char>, path: Seq<char>) -> Result<Seq<char>, Seq<char>> {
    let lc = path_components(leaf_root);
    if lc.len() == 0 || (lc.len() == 1 && lc[0] == "/"@) {
        Err("inventory leaf root has no parent"@)
    } else {
        let parent = lc.drop_last();
        let pc = path_components(path);
        if parent.len() <= pc.len() && pc.take(parent.len() as int) == parent {
            Ok(display_path_text(join(pc.skip(parent.len() as int), "/"@)))
        } else {
            Err("path "@ + path + " is outside repo root"@)
        }
    }
}

fn components(p: &str) -> (r: Vec<Vec<char>>)
    ensures
        seqs(r@) == path_components(p@),
{
    crate::doctor::srp_sidecar::path_components_of(p)
}

/// `path` relative to the repository holding the inventory's `.leaf`.
pub fn relative_leaf_path(inventory: &Inventory, path: &str) -> (r: Result<String, String>)
    ensures
        match inventory_rel_path(inventory.leaf_root@, path@) {
            Ok(t) => r matches Ok(s) && s@ == t,
            Err(m) => r matches Err(e) && e@ == m,
        },
{
    let lc = components(inventory.leaf_root.as_str());
    let ghost ls = seqs(lc@);
    let slash = chars_of("/");
    if lc.len() == 0 || (lc.len() == 1 && eq_chars(lc[0].as_slice(), slash.as_slice())) {
        assert(lc.len() == 1 ==> ls[0] == lc@[0]@);
        return Err("inventory leaf root has no parent".to_string());
    }
    assert(lc.len() == 1 ==> ls[0] == lc@[0]@);
    let plen = lc.len() - 1;
    let pc = components(path);
    let ghost ps = seqs(pc@);
    let ghost parent = ls.drop_last();
    let mut ok = plen <= pc.len();
    let mut k: usize = 0;
    while ok && k < plen
        invariant
            ls == seqs(lc@),
            ps == seqs(pc@),
            plen == lc@.len() - 1,
            parent == ls.drop_last(),
            k <= plen,
            ok ==> plen <= pc.len(),
            ok ==> forall|j: int| 0 <= j < k ==> parent[j] == ps[j],
            !ok ==> !(parent.len() <= ps.len() && ps.take(parent.len() as int) == parent),
        decreases plen - k, (if ok {
            1int
        } else {
            0int
        }),
    {
        assert(parent[k as int] == lc@[k as int]@ && ps[k as int] == pc@[k as int]@);
        if !eq_chars(lc[k].as_slice(), pc[k].as_slice()) {
            ok = false;
            proof {
                if parent.len() <= ps.len() && ps.take(parent.len() as int) == parent {
                    assert(ps.take(parent.len() as int)[k as int] == ps[k as int]);
                }
            }
        } else {
            k = k + 1;
        }
    }
    if !ok {
        let mut m: Vec<char> = Vec::new();
        push_str(&mut m, "path ");
        push_str(&mut m, path);
        push_str(&mut m, " is outside repo root");
        return Err(string_of(m.as_slice()));
    }
    assert(ps.take(parent.len() as int) =~= parent);
    let mut rest: Vec<Vec<char>> = Vec::new();
    for j in plen..pc.len()
        invariant
            ps == seqs(pc@),
            plen <= pc.len(),
            seqs(rest@) == ps.skip(plen as int).take(j - plen),
    {
        let ghost before = seqs(rest@);
        let piece = crate::text::slice_vec(pc[j].as_slice(), 0, pc[j].len());
        assert(piece@ =~= pc@[j as int]@);
        rest.push(piece);
        assert(seqs(rest@) =~= before.push(ps[j as int]));
        assert(ps.skip(plen as int).take(j + 1 - plen) =~= ps.skip(plen as int).take(j - plen).push(ps[j as int]));
    }
    assert(ps.skip(plen as int).take(pc.len() - plen) =~= ps.skip(plen as int));
    let sep = chars_of("/");
    let joined = join_chars(&rest, sep.as_slice());
    let js = string_of(joined.as_slice());
    Ok(crate::doctor_output::display_path(js.as_str()))
}

#[derive(Debug)]
pub struct JsonItem {
    pub stage: &'static str,
    pub slug: String,
    pub kind: &'static str,
    pub path: String,
    pub status: JsonStatus,
}

pub open spec fn json_item_matches(inv: Inventory, it: InventoryItem, j: JsonItem) -> bool {
    &&& j.stage@ == stage_singular(it.stage_dir)
    &&& j.slug@ == it.slug@
    &&& j.kind@ == item_kind_text(it.kind)
    &&& inventory_rel_path(inv.leaf_root@, it.path@) == Ok::<Seq<char>, Seq<char>>(j.path@)
    &&& json_status_matches(it.status, j.status)
}

impl JsonItem {
    pub fn from_item(inventory: &Inventory, item: &InventoryItem) -> (r: Result<JsonItem, String>)
        ensures
            match r {
                Ok(j) => json_item_matches(*inventory, *item, j),
                Err(e) => inventory_rel_path(inventory.leaf_root@, item.path@) == Err::<Seq<char>, Seq<char>>(e@),
            },
    {
        let path = match relative_leaf_path(inventory, item.path.as_str()) {
            Ok(p) => p,
            Err(e) => {
                return Err(e);
            },
        };
        Ok(JsonItem {
            stage: stage_label_singular(item.stage_dir),
            slug: item.slug.clone(),
            kind: item_kind_label(item.kind),
            path,
            status: JsonStatus::from_summary(&item.status),
        })
    }
}

#[derive(Debug)]
pub struct JsonStage {
    pub count: usize,
    pub items: Vec<JsonItem>,
}

/// The position of the first stage inventory of `d`, if any.
pub open spec fn stage_position(stages: Seq<StageInventory>, d: StageDir, n: int) -> Option<int>
    decreases n,
{
    if n <= 0 {
        None
    } else {
        match stage_position(stages, d, n - 1) {
            Some(i) => Some(i),
            None => if stages[n - 1].stage_dir == d {
                Some(n - 1)
            } else {
                None
            },
        }
    }
}

/// The first item of `items[..n]` whose path is outside the repository, if any.
pub open spec fn first_path_error(inv: Inventory, items: Seq<InventoryItem>, n: int) -> Option<Seq<char>>
    decreases n,
{
    if n <= 0 {
        None
    } else {
        match first_path_error(inv, items, n - 1) {
            Some(e) => Some(e),
            None => match inventory_rel_path(inv.leaf_root@, items[n - 1].path@) {
                Err(e) => Some(e),
                Ok(_) => None,
            },
        }
    }
}

/// Why the JSON of stage `d` cannot be made, if it cannot.
pub open spec fn stage_error(inv: Inventory, d: StageDir) -> Option<Seq<char>> {
    match stage_position(inv.stages@, d, inv.stages@.len() as int) {
        None => Some("missing inventory stage "@ + stage_plural(d)),
        Some(i) => first_path_error(inv, inv.stages@[i].items@, inv.stages@[i].items@.len() as int),
    }
}

pub open spec fn json_stage_ok(inv: Inventory, d: StageDir, js: JsonStage) -> bool {
    match stage_position(inv.stages@, d, inv.stages@.len() as int) {
        None => false,
        Some(i) => {
            let items = inv.stages@[i].items@;
            &&& js.count == items.len()
            &&& js.items@.len() == items.len()
            &&& forall|k: int|
                0 <= k < items.len() ==> json_item_matches(inv, items[k], #[trigger] js.items@[k])
        },
    }
}

pub open spec fn json_stage_matches(inv: Inventory, d: StageDir, r: Result<JsonStage, String>) -> bool {
    match stage_error(inv, d) {
        Some(m) => r matches Err(e) && e@ == m,
        None => r matches Ok(js) && json_stage_ok(inv, d, js),
    }
}

proof fn lemma_first_path_error_stays(inv: Inventory, items: Seq<InventoryItem>, a: int, b: int)
    requires
        a <= b,
        first_path_error(inv, items, a) is Some,
    ensures
        first_path_error(inv, items, b) == first_path_error(inv, items, a),
    decreases b - a,
{
    if a < b {
        lemma_first_path_error_stays(inv, items, a, b - 1);
    }
}

proof fn lemma_stage_position_stays(stages: Seq<StageInventory>, d: StageDir, a: int, b: int)
    requires
        a <= b,
        stage_position(stages, d, a) is Some,
    ensures
        stage_position(stages, d, b) == stage_position(stages, d, a),
    decreases b - a,
{
    if a < b {
        lemma_stage_position_stays(stages, d, a, b - 1);
    }
}

/// The JSON of one stage: its items, in order.
pub fn json_stage(inventory: &Inventory, stage_dir: StageDir) -> (r: Result<JsonStage, String>)
    ensures
        json_stage_matches(*inventory, stage_dir, r),
{
    let stages = &inventory.stages;
    let mut found: Option<usize> = None;
    let mut s: usize = 0;
    while s < stages.len() && found.is_none()
        invariant
            s <= stages.len(),
            match found {
                None => stage_position(stages@, stage_dir, s as int) is None,
                Some(i) => stage_position(stages@, stage_dir, s as int) == Some(i as int) && i < stages.len(),
            },
        decreases stages.len() - s, (if found.is_none() {
            1int
        } else {
            0int
        }),
    {
        if stages[s].stage_dir == stage_dir {
            found = Some(s);
        }
        s = s + 1;
    }
    let i = match found {
        None => {
            assert(s == stages.len());
            let mut m: Vec<char> = Vec::new();
            push_str(&mut m, "missing inventory stage ");
            push_str(&mut m, stage_label_plural(stage_dir));
            return Err(string_of(m.as_slice()));
        },
        Some(i) => i,
    };
    proof {
        lemma_stage_position_stays(stages@, stage_dir, s as int, stages@.len() as int);
    }
    let items = &stages[i].items;
    let mut out: Vec<JsonItem> = Vec::new();
    for k in 0..items.len()
        invariant
            i < stages@.len(),
            stages == &inventory.stages,
            stage_position(stages@, stage_dir, stages@.len() as int) == Some(i as int),
            items@ == inventory.stages@[i as int].items@,
            first_path_error(*inventory, items@, k as int) is None,
            out@.len() == k,
            forall|j: int| 0 <= j < k ==> json_item_matches(*inventory, items@[j], #[trigger] out@[j]),
    {
        match JsonItem::from_item(inventory, &items[k]) {
            Ok(j) => {
                out.push(j);
            },
            Err(e) => {
                assert(first_path_error(*inventory, items@, k + 1) == Some(e@));
                proof {
                    lemma_first_path_error_stays(*inventory, items@, k + 1, items@.len() as int);
                }
                return Err(e);
            },
        }
    }
    let count = out.len();
    Ok(JsonStage { count, items: out })
}

#[derive(Debug)]
pub struct JsonStages {
    pub sprouts: JsonStage,
    pub leaves: JsonStage,
    pub fallen: JsonStage,
}

#[derive(Debug)]
pub struct JsonInventory {
    pub leaf_root: String,
    pub stages: JsonStages,
}

impl JsonInventory {
    /// The JSON of an inventory: its three lifecycle stages.
    pub fn from_inventory(inventory: &Inventory) -> (r: Result<JsonInventory, String>)
        ensures
            match stage_error(*inventory, StageDir::Sprouts) {
                Some(m) => (r matches Err(e) && e@ == m),
                None => match stage_error(*inventory, StageDir::Leaves) {
                    Some(m) => (r matches Err(e) && e@ == m),
                    None => match stage_error(*inventory, StageDir::Fallen) {
                        Some(m) => (r matches Err(e) && e@ == m),
                        None => (r matches Ok(j) && j.leaf_root@ == ".leaf"@ && json_stage_ok(
                            *inventory,
                            StageDir::Sprouts,
                            j.stages.sprouts,
                        ) && json_stage_ok(*inventory, StageDir::Leaves, j.stages.leaves)
                            && json_stage_ok(*inventory, StageDir::Fallen, j.stages.fallen)),
                    },
                },
            },
    {
        let sprouts = match json_stage(inventory, StageDir::Sprouts) {
            Ok(s) => s,
            Err(e) => {
                return Err(e);
            },
        };
        let leaves = match json_stage(inventory, StageDir::Leaves) {
            Ok(s) => s,
            Err(e) => {
                return Err(e);
            },
        };
        let fallen = match json_stage(inventory, StageDir::Fallen) {
            Ok(s) => s,
            Err(e) => {
                return Err(e);
            },
        };
        Ok(JsonInventory { leaf_root: ".leaf".to_string(), stages: JsonStages { sprouts, leaves, fallen } })
    }
}

} // verus!
