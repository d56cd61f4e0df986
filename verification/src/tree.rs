//! The `leaf tree` picture: a deterministic tree drawn from the inventory,
//! with one marker per leaf and legends for pressed, ordinary, sprouting and
//! fallen items.
use crate::inventory::{Inventory, StageDir};
use crate::text::{
    append, chars_of, decimal, decimal_chars, eq_chars, push_str, string_of, text_lt, trim, trim_chars,
    trim_end, trim_end_chars,
};
use vstd::prelude::*;
use vstd::string::StringSliceAdditionalSpecFns;
use vstd::utf8::encode_utf8;

verus! {

/// The seed used wherever a seed of zero would stall the generator.
pub const NON_ZERO_SEED: u64 = 0x9e37_79b9_7f4a_7c15;

/// FNV-1a 64-bit offset basis and prime.
pub const FNV_OFFSET: u64 = 0xcbf2_9ce4_8422_2325;

pub const FNV_PRIME: u64 = 0x0000_0100_0000_01b3;

/// A leaf of the tree: its slug and whether it has a pressed digest.
#[derive(Debug, Clone)]
pub struct TreeLeaf {
    pub slug: String,
    pub pressed: bool,
}

/// What the tree shows: leaves, active sprouts and fallen items, each sorted.
#[derive(Debug)]
pub struct TreeModel {
    pub leaves: Vec<TreeLeaf>,
    pub sprouts: Vec<String>,
    pub fallen: Vec<String>,
}

/// How the picture is rendered: with ANSI colour or not, and for how many
/// terminal columns.
pub struct TreeRenderOptions {
    pub color: bool,
    pub width: usize,
}

// ---------------------------------------------------------------------------
// Stable ordering
// ---------------------------------------------------------------------------
/// Inserts `x` after every text of `s` it does not sort before.
pub open spec fn insert_text(s: Seq<Seq<char>>, x: Seq<char>) -> Seq<Seq<char>>
    decreases s.len(),
{
    if s.len() == 0 {
        seq![x]
    } else if text_lt(x, s.last()) {
        insert_text(s.drop_last(), x).push(s.last())
    } else {
        s.push(x)
    }
}

/// `s` sorted ascending by code point, equal texts in their first order.
pub open spec fn sorted_texts(s: Seq<Seq<char>>) -> Seq<Seq<char>>
    decreases s.len(),
{
    if s.len() == 0 {
        Seq::empty()
    } else {
        insert_text(sorted_texts(s.drop_last()), s.last())
    }
}

/// Code-point order on texts is transitive.
pub proof fn lemma_text_lt_transitive(a: Seq<char>, b: Seq<char>, c: Seq<char>)
    requires
        text_lt(a, b),
        text_lt(b, c),
    ensures
        text_lt(a, c),
    decreases a.len(),
{
    if a.len() > 0 && b.len() > 0 && c.len() > 0 && a[0] == b[0] && b[0] == c[0] {
        lemma_text_lt_transitive(a.drop_first(), b.drop_first(), c.drop_first());
    }
}

/// No text sorts both before and after another.
pub proof fn lemma_text_lt_asymmetric(a: Seq<char>, b: Seq<char>)
    requires
        text_lt(a, b),
    ensures
        !text_lt(b, a),
    decreases a.len(),
{
    if a.len() > 0 && b.len() > 0 && a[0] == b[0] {
        lemma_text_lt_asymmetric(a.drop_first(), b.drop_first());
    }
}

/// Two texts neither of which sorts before the other are equal.
pub proof fn lemma_text_lt_total(a: Seq<char>, b: Seq<char>)
    requires
        !text_lt(a, b),
        !text_lt(b, a),
    ensures
        a == b,
    decreases a.len(),
{
    if a.len() > 0 && b.len() > 0 {
        if a[0] == b[0] {
            lemma_text_lt_total(a.drop_first(), b.drop_first());
            assert(a =~= seq![a[0]] + a.drop_first());
            assert(b =~= seq![b[0]] + b.drop_first());
        } else {
            let ca = a[0];
            let cb = b[0];
            vstd::utf8::char_u32_cast(ca, ca as u32);
            vstd::utf8::char_u32_cast(cb, cb as u32);
        }
    } else {
        assert(a.len() == 0 && b.len() == 0);
        assert(a =~= b);
    }
}

/// Texts in ascending code-point order (equal texts allowed).
pub open spec fn ascending(s: Seq<Seq<char>>) -> bool {
    forall|i: int, j: int| 0 <= i < j < s.len() ==> !text_lt(#[trigger] s[j], #[trigger] s[i])
}

proof fn lemma_insert_text_contents(s: Seq<Seq<char>>, x: Seq<char>)
    ensures
        insert_text(s, x).to_multiset() == s.to_multiset().insert(x),
        insert_text(s, x).len() == s.len() + 1,
        forall|k: int| 0 <= k < insert_text(s, x).len() ==> #[trigger] insert_text(s, x)[k] == x || s.contains(insert_text(s, x)[k]),
    decreases s.len(),
{
    broadcast use vstd::seq_lib::group_to_multiset_ensures;

    if s.len() == 0 {
        assert(seq![x] =~= Seq::<Seq<char>>::empty().push(x));
    } else if text_lt(x, s.last()) {
        let d = s.drop_last();
        lemma_insert_text_contents(d, x);
        assert(s =~= d.push(s.last()));
        let r = insert_text(d, x).push(s.last());
        assert forall|k: int| 0 <= k < r.len() implies #[trigger] r[k] == x || s.contains(r[k]) by {
            if k < r.len() - 1 {
                if r[k] != x {
                    let w = choose|w: int| 0 <= w < d.len() && d[w] == r[k];
                    assert(s[w] == r[k]);
                }
            } else {
                assert(s[s.len() - 1] == r[k]);
            }
        }
    } else {
        assert forall|k: int| 0 <= k < s.push(x).len() implies #[trigger] s.push(x)[k] == x || s.contains(s.push(x)[k]) by {
            if k < s.len() {
                assert(s[k] == s.push(x)[k]);
            }
        }
    }
}

proof fn lemma_insert_text_ascending(s: Seq<Seq<char>>, x: Seq<char>)
    requires
        ascending(s),
    ensures
        ascending(insert_text(s, x)),
    decreases s.len(),
{
    if s.len() == 0 {
    } else if text_lt(x, s.last()) {
        let d = s.drop_last();
        assert(ascending(d));
        lemma_insert_text_ascending(d, x);
        lemma_insert_text_contents(d, x);
        let m = insert_text(d, x);
        let r = m.push(s.last());
        assert forall|i: int, j: int| 0 <= i < j < r.len() implies !text_lt(#[trigger] r[j], #[trigger] r[i]) by {
            if j == r.len() - 1 {
                assert(r[j] == s.last());
                if r[i] == x {
                    lemma_text_lt_asymmetric(x, s.last());
                } else {
                    assert(d.contains(r[i]));
                    let w = choose|w: int| 0 <= w < d.len() && d[w] == r[i];
                    assert(s[w] == r[i]);
                    assert(!text_lt(s[s.len() - 1], s[w]));
                }
            } else {
                assert(r[i] == m[i] && r[j] == m[j]);
            }
        }
    } else {
        let r = s.push(x);
        assert forall|i: int, j: int| 0 <= i < j < r.len() implies !text_lt(#[trigger] r[j], #[trigger] r[i]) by {
            if j == r.len() - 1 {
                assert(r[j] == x);
                assert(r[i] == s[i]);
                if i < s.len() - 1 {
                    assert(!text_lt(s[s.len() - 1], s[i]));
                    if text_lt(x, s[i]) {
                        if text_lt(s[i], s[s.len() - 1]) {
                            lemma_text_lt_transitive(x, s[i], s[s.len() - 1]);
                        } else {
                            lemma_text_lt_total(s[i], s[s.len() - 1]);
                        }
                    }
                }
            } else {
                assert(r[i] == s[i] && r[j] == s[j]);
            }
        }
    }
}

/// Sorting texts gives them in ascending order, and the same texts as
/// before, each as often.
pub proof fn lemma_sorted_texts_sorted(s: Seq<Seq<char>>)
    ensures
        ascending(sorted_texts(s)),
        sorted_texts(s).to_multiset() == s.to_multiset(),
    decreases s.len(),
{
    broadcast use vstd::seq_lib::group_to_multiset_ensures;

    if s.len() > 0 {
        let d = s.drop_last();
        lemma_sorted_texts_sorted(d);
        lemma_insert_text_ascending(sorted_texts(d), s.last());
        lemma_insert_text_contents(sorted_texts(d), s.last());
        assert(s =~= d.push(s.last()));
    } else {
        assert(sorted_texts(s) =~= Seq::<Seq<char>>::empty());
        assert(s =~= Seq::<Seq<char>>::empty());
    }
}

pub open spec fn strings_view(v: Seq<String>) -> Seq<Seq<char>> {
    v.map_values(|x: String| x@)
}

fn text_less(a: &String, b: &String) -> (r: bool)
    ensures
        r == text_lt(a@, b@),
{
    let x = chars_of(a.as_str());
    let y = chars_of(b.as_str());
    crate::text::chars_lt(x.as_slice(), y.as_slice())
}

fn insert_string(out: &mut Vec<String>, x: String)
    ensures
        strings_view(final(out)@) == insert_text(strings_view(old(out)@), x@),
{
    let ghost orig = strings_view(out@);
    let mut p = out.len();
    let mut done = false;
    assert(orig.take(p as int) =~= orig);
    assert(orig.skip(p as int) =~= Seq::<Seq<char>>::empty());
    while p > 0 && !done
        invariant
            p <= out.len(),
            strings_view(out@) == orig,
            insert_text(orig, x@) == insert_text(orig.take(p as int), x@) + orig.skip(p as int),
            done ==> p > 0 && !text_lt(x@, orig[p - 1]),
        decreases p + (if done {
            0int
        } else {
            1int
        }),
    {
        let ghost q = (p - 1) as int;
        assert(orig[q] == out@[q]@);
        if text_less(&x, &out[p - 1]) {
            assert(orig.take(p as int).drop_last() =~= orig.take(q));
            assert(orig.take(p as int).last() == orig[q]);
            assert(orig.take(q).push(orig[q]) =~= orig.take(p as int));
            assert(seq![orig[q]] + orig.skip(p as int) =~= orig.skip(q));
            p = p - 1;
        } else {
            done = true;
        }
    }
    proof {
        if p > 0 {
            assert(orig.take(p as int).last() == orig[p - 1]);
        }
    }
    let ghost xv = x@;
    out.insert(p, x);
    assert(strings_view(out@) =~= insert_text(orig.take(p as int), xv) + orig.skip(p as int));
}

/// Sorts texts ascending, as `Vec::sort` does for strings.
pub fn sort_strings(items: Vec<String>) -> (r: Vec<String>)
    ensures
        strings_view(r@) == sorted_texts(strings_view(items@)),
{
    let ghost orig = strings_view(items@);
    let total = items.len();
    let mut rest = items;
    let mut out: Vec<String> = Vec::new();
    let mut k: usize = 0;
    while rest.len() > 0
        invariant
            k <= orig.len(),
            orig.len() == total,
            orig.len() == rest@.len() + k,
            strings_view(rest@) == orig.skip(k as int),
            strings_view(out@) == sorted_texts(orig.take(k as int)),
        decreases rest.len(),
    {
        let ghost r0 = rest@;
        let x = rest.remove(0);
        assert(strings_view(r0)[0] == x@);
        assert(orig.skip(k as int)[0] == orig[k as int]);
        assert(orig.take(k + 1).drop_last() =~= orig.take(k as int));
        assert(x@ == orig[k as int]);
        assert(strings_view(rest@) =~= strings_view(r0).drop_first());
        insert_string(&mut out, x);
        assert(strings_view(rest@) =~= orig.skip(k + 1));
        k = k + 1;
    }
    assert(orig.take(k as int) =~= orig);
    out
}

/// A leaf as the ordering sees it: its slug and pressed flag.
pub open spec fn leaf_pairs(v: Seq<TreeLeaf>) -> Seq<(Seq<char>, bool)> {
    v.map_values(|l: TreeLeaf| (l.slug@, l.pressed))
}

/// Inserts leaf `x` after every leaf of `s` whose slug it does not sort before.
pub open spec fn insert_leaf(s: Seq<(Seq<char>, bool)>, x: (Seq<char>, bool)) -> Seq<(Seq<char>, bool)>
    decreases s.len(),
{
    if s.len() == 0 {
        seq![x]
    } else if text_lt(x.0, s.last().0) {
        insert_leaf(s.drop_last(), x).push(s.last())
    } else {
        s.push(x)
    }
}

/// Leaves sorted by slug, equal slugs in their first order.
pub open spec fn sorted_leaves(s: Seq<(Seq<char>, bool)>) -> Seq<(Seq<char>, bool)>
    decreases s.len(),
{
    if s.len() == 0 {
        Seq::empty()
    } else {
        insert_leaf(sorted_leaves(s.drop_last()), s.last())
    }
}

fn insert_leaf_in_order(out: &mut Vec<TreeLeaf>, x: TreeLeaf)
    ensures
        leaf_pairs(final(out)@) == insert_leaf(leaf_pairs(old(out)@), (x.slug@, x.pressed)),
{
    let ghost orig = leaf_pairs(out@);
    let ghost xp = (x.slug@, x.pressed);
    let mut p = out.len();
    let mut done = false;
    assert(orig.take(p as int) =~= orig);
    assert(orig.skip(p as int) =~= Seq::<(Seq<char>, bool)>::empty());
    while p > 0 && !done
        invariant
            p <= out.len(),
            leaf_pairs(out@) == orig,
            xp == (x.slug@, x.pressed),
            insert_leaf(orig, xp) == insert_leaf(orig.take(p as int), xp) + orig.skip(p as int),
            done ==> p > 0 && !text_lt(xp.0, orig[p - 1].0),
        decreases p + (if done {
            0int
        } else {
            1int
        }),
    {
        let ghost q = (p - 1) as int;
        assert(orig[q] == (out@[q].slug@, out@[q].pressed));
        if text_less(&x.slug, &out[p - 1].slug) {
            assert(orig.take(p as int).drop_last() =~= orig.take(q));
            assert(orig.take(p as int).last() == orig[q]);
            assert(orig.take(q).push(orig[q]) =~= orig.take(p as int));
            assert(seq![orig[q]] + orig.skip(p as int) =~= orig.skip(q));
            p = p - 1;
        } else {
            done = true;
        }
    }
    proof {
        if p > 0 {
            assert(orig.take(p as int).last() == orig[p - 1]);
        }
    }
    out.insert(p, x);
    assert(leaf_pairs(out@) =~= insert_leaf(orig.take(p as int), xp) + orig.skip(p as int));
}

/// Sorts leaves by slug.
pub fn sort_leaves(items: Vec<TreeLeaf>) -> (r: Vec<TreeLeaf>)
    ensures
        leaf_pairs(r@) == sorted_leaves(leaf_pairs(items@)),
{
    let ghost orig = leaf_pairs(items@);
    let total = items.len();
    let mut rest = items;
    let mut out: Vec<TreeLeaf> = Vec::new();
    let mut k: usize = 0;
    while rest.len() > 0
        invariant
            k <= orig.len(),
            orig.len() == total,
            orig.len() == rest@.len() + k,
            leaf_pairs(rest@) == orig.skip(k as int),
            leaf_pairs(out@) == sorted_leaves(orig.take(k as int)),
        decreases rest.len(),
    {
        let ghost r0 = rest@;
        let x = rest.remove(0);
        assert(leaf_pairs(r0)[0] == (x.slug@, x.pressed));
        assert(orig.skip(k as int)[0] == orig[k as int]);
        assert(orig.take(k + 1).drop_last() =~= orig.take(k as int));
        assert((x.slug@, x.pressed) == orig[k as int]);
        assert(leaf_pairs(rest@) =~= leaf_pairs(r0).drop_first());
        insert_leaf_in_order(&mut out, x);
        assert(leaf_pairs(rest@) =~= orig.skip(k + 1));
        k = k + 1;
    }
    assert(orig.take(k as int) =~= orig);
    out
}

// ---------------------------------------------------------------------------
// The model
// ---------------------------------------------------------------------------
/// The slugs of the items of every stage in `dir`, in inventory order.
pub open spec fn stage_slugs(stages: Seq<crate::inventory::StageInventory>, dir: StageDir) -> Seq<
    Seq<char>,
>
    decreases stages.len(),
{
    if stages.len() == 0 {
        Seq::empty()
    } else {
        let last = stages.last();
        stage_slugs(stages.drop_last(), dir) + if last.stage_dir == dir {
            last.items@.map_values(|it: crate::inventory::InventoryItem| it.slug@)
        } else {
            Seq::empty()
        }
    }
}

/// The leaves of a model before sorting: each leaf slug in inventory order,
/// pressed when its slug is among `pressed`.
pub open spec fn unsorted_leaves(slugs: Seq<Seq<char>>, pressed: Seq<Seq<char>>) -> Seq<(Seq<char>, bool)> {
    slugs.map_values(|s: Seq<char>| (s, pressed.contains(s)))
}

fn is_listed(names: &[String], name: &String) -> (b: bool)
    ensures
        b == strings_view(names@).contains(name@),
{
    let target = chars_of(name.as_str());
    let mut i: usize = 0;
    while i < names.len()
        invariant
            0 <= i <= names@.len(),
            target@ == name@,
            forall|j: int| 0 <= j < i ==> names@[j]@ != name@,
        decreases names@.len() - i,
    {
        let c = chars_of(names[i].as_str());
        if crate::text::eq_chars(c.as_slice(), target.as_slice()) {
            assert(strings_view(names@)[i as int] == name@);
            return true;
        }
        i = i + 1;
    }
    proof {
        if strings_view(names@).contains(name@) {
            let j = choose|j: int| 0 <= j < strings_view(names@).len() && strings_view(names@)[j] == name@;
            assert(names@[j]@ == name@);
        }
    }
    false
}

impl TreeModel {
    /// Project an inventory onto the tree: the leaves (pressed when their
    /// slug is in `pressed_slugs`, the leaves whose `pressed.md` is a file),
    /// the sprouts and the fallen items, each sorted by slug.
    pub fn from_inventory(inventory: &Inventory, pressed_slugs: &[String]) -> (r: TreeModel)
        ensures
            leaf_pairs(r.leaves@) == sorted_leaves(
                unsorted_leaves(stage_slugs(inventory.stages@, StageDir::Leaves), strings_view(pressed_slugs@)),
            ),
            strings_view(r.sprouts@) == sorted_texts(stage_slugs(inventory.stages@, StageDir::Sprouts)),
            strings_view(r.fallen@) == sorted_texts(stage_slugs(inventory.stages@, StageDir::Fallen)),
            ascending(strings_view(r.sprouts@)),
            strings_view(r.sprouts@).to_multiset() == stage_slugs(inventory.stages@, StageDir::Sprouts).to_multiset(),
            ascending(strings_view(r.fallen@)),
            strings_view(r.fallen@).to_multiset() == stage_slugs(inventory.stages@, StageDir::Fallen).to_multiset(),
    {
        let ghost stages = inventory.stages@;
        let ghost pressed = strings_view(pressed_slugs@);
        let mut leaves: Vec<TreeLeaf> = Vec::new();
        let mut sprouts: Vec<String> = Vec::new();
        let mut fallen: Vec<String> = Vec::new();
        let mut s: usize = 0;
        while s < inventory.stages.len()
            invariant
                stages == inventory.stages@,
                pressed == strings_view(pressed_slugs@),
                0 <= s <= stages.len(),
                leaf_pairs(leaves@) == unsorted_leaves(stage_slugs(stages.take(s as int), StageDir::Leaves), pressed),
                strings_view(sprouts@) == stage_slugs(stages.take(s as int), StageDir::Sprouts),
                strings_view(fallen@) == stage_slugs(stages.take(s as int), StageDir::Fallen),
            decreases stages.len() - s,
        {
            let stage = &inventory.stages[s];
            let ghost items = stage.items@.map_values(|it: crate::inventory::InventoryItem| it.slug@);
            assert(stages.take(s + 1).drop_last() =~= stages.take(s as int));
            assert(stages.take(s + 1).last() == *stage);
            let ghost l0 = leaf_pairs(leaves@);
            let ghost sp0 = strings_view(sprouts@);
            let ghost fa0 = strings_view(fallen@);
            let mut i: usize = 0;
            while i < stage.items.len()
                invariant
                    *stage == inventory.stages@[s as int],
                    items == stage.items@.map_values(|it: crate::inventory::InventoryItem| it.slug@),
                    pressed == strings_view(pressed_slugs@),
                    0 <= i <= stage.items@.len(),
                    leaf_pairs(leaves@) == l0 + (if stage.stage_dir == StageDir::Leaves {
                        unsorted_leaves(items.take(i as int), pressed)
                    } else {
                        Seq::empty()
                    }),
                    strings_view(sprouts@) == sp0 + (if stage.stage_dir == StageDir::Sprouts {
                        items.take(i as int)
                    } else {
                        Seq::empty()
                    }),
                    strings_view(fallen@) == fa0 + (if stage.stage_dir == StageDir::Fallen {
                        items.take(i as int)
                    } else {
                        Seq::empty()
                    }),
                decreases stage.items@.len() - i,
            {
                let slug = stage.items[i].slug.clone();
                assert(slug@ == items[i as int]);
                assert(items.take(i + 1) =~= items.take(i as int).push(items[i as int]));
                match stage.stage_dir {
                    StageDir::Leaves => {
                        let p = is_listed(pressed_slugs, &slug);
                        let ghost before = leaf_pairs(leaves@);
                        leaves.push(TreeLeaf { slug, pressed: p });
                        assert(unsorted_leaves(items.take(i + 1), pressed) =~= unsorted_leaves(
                            items.take(i as int),
                            pressed,
                        ).push((items[i as int], pressed.contains(items[i as int]))));
                        assert(leaf_pairs(leaves@) =~= before.push((items[i as int], p)));
                    },
                    StageDir::Sprouts => {
                        let ghost before = strings_view(sprouts@);
                        sprouts.push(slug);
                        assert(strings_view(sprouts@) =~= before.push(items[i as int]));
                    },
                    StageDir::Fallen => {
                        let ghost before = strings_view(fallen@);
                        fallen.push(slug);
                        assert(strings_view(fallen@) =~= before.push(items[i as int]));
                    },
                    StageDir::Pressed => {},
                }
                i = i + 1;
            }
            assert(items.take(i as int) =~= items);
            proof {
                let prev = stage_slugs(stages.take(s as int), StageDir::Leaves);
                let added = if stage.stage_dir == StageDir::Leaves { items } else { Seq::empty() };
                assert(unsorted_leaves(prev + added, pressed) =~= unsorted_leaves(prev, pressed) + unsorted_leaves(added, pressed));
            }
            s = s + 1;
        }
        assert(stages.take(s as int) =~= stages);
        proof {
            lemma_sorted_texts_sorted(stage_slugs(stages, StageDir::Sprouts));
            lemma_sorted_texts_sorted(stage_slugs(stages, StageDir::Fallen));
        }
        TreeModel { leaves: sort_leaves(leaves), sprouts: sort_strings(sprouts), fallen: sort_strings(fallen) }
    }
}


// ---------------------------------------------------------------------------
// Counts, seed and the stable generator
// ---------------------------------------------------------------------------
/// How many of the leaves are pressed.
pub open spec fn count_pressed(v: Seq<(Seq<char>, bool)>) -> nat
    decreases v.len(),
{
    if v.len() == 0 {
        0
    } else {
        count_pressed(v.drop_last()) + if v.last().1 {
            1nat
        } else {
            0nat
        }
    }
}

/// One FNV-1a step: mix in `b`, then multiply by the prime, wrapping.
pub open spec fn fnv_step(h: u64, b: u8) -> u64 {
    vstd::wrapping::u64_specs::wrapping_mul(h ^ (b as u64), FNV_PRIME)
}

/// FNV-1a of the bytes `s`, starting from `h`.
pub open spec fn fnv_bytes(h: u64, s: Seq<u8>) -> u64
    decreases s.len(),
{
    if s.len() == 0 {
        h
    } else {
        fnv_step(fnv_bytes(h, s.drop_last()), s.last())
    }
}

/// FNV-1a of the parts `ps` one after another, starting from `h`.
pub open spec fn fnv_parts(h: u64, ps: Seq<Seq<u8>>) -> u64
    decreases ps.len(),
{
    if ps.len() == 0 {
        h
    } else {
        fnv_bytes(fnv_parts(h, ps.drop_last()), ps.last())
    }
}

/// `"leaf-tree-v1"`, `"\xffleaf"`, `"\x00pressed"`, `"\xffsprout"` and
/// `"\xfffallen"` as bytes.
pub open spec fn seed_header() -> Seq<u8> {
    seq![108u8, 101, 97, 102, 45, 116, 114, 101, 101, 45, 118, 49]
}

pub open spec fn leaf_tag() -> Seq<u8> {
    seq![255u8, 108, 101, 97, 102]
}

pub open spec fn pressed_tag() -> Seq<u8> {
    seq![0u8, 112, 114, 101, 115, 115, 101, 100]
}

pub open spec fn sprout_tag() -> Seq<u8> {
    seq![255u8, 115, 112, 114, 111, 117, 116]
}

pub open spec fn fallen_tag() -> Seq<u8> {
    seq![255u8, 102, 97, 108, 108, 101, 110]
}

/// The parts hashed for each leaf: tag, slug, pressed tag, `1` or `0`.
pub open spec fn leaf_seed_parts(v: Seq<(Seq<char>, bool)>) -> Seq<Seq<u8>>
    decreases v.len(),
{
    if v.len() == 0 {
        Seq::empty()
    } else {
        leaf_seed_parts(v.drop_last()).push(leaf_tag()).push(encode_utf8(v.last().0)).push(
            pressed_tag(),
        ).push(
            seq![if v.last().1 {
                49u8
            } else {
                48u8
            }],
        )
    }
}

/// The parts hashed for each sprout or fallen item: the tag, then the slug.
pub open spec fn tagged_parts(tag: Seq<u8>, v: Seq<Seq<char>>) -> Seq<Seq<u8>>
    decreases v.len(),
{
    if v.len() == 0 {
        Seq::empty()
    } else {
        tagged_parts(tag, v.drop_last()).push(tag).push(encode_utf8(v.last()))
    }
}

pub open spec fn seed_parts(
    leaves: Seq<(Seq<char>, bool)>,
    sprouts: Seq<Seq<char>>,
    fallen: Seq<Seq<char>>,
) -> Seq<Seq<u8>> {
    seq![seed_header()] + leaf_seed_parts(leaves) + tagged_parts(sprout_tag(), sprouts)
        + tagged_parts(fallen_tag(), fallen)
}

/// The seed of a model: FNV-1a of its parts, never zero.
pub open spec fn seed_of(
    leaves: Seq<(Seq<char>, bool)>,
    sprouts: Seq<Seq<char>>,
    fallen: Seq<Seq<char>>,
) -> u64 {
    let h = fnv_parts(FNV_OFFSET, seed_parts(leaves, sprouts, fallen));
    if h == 0 {
        NON_ZERO_SEED
    } else {
        h
    }
}

/// A model's seed is never zero, and two models with the same leaves
/// (slug and pressed flag, in order), sprouts and fallen items have the
/// same seed.
pub proof fn lemma_seed_nonzero_and_determined(
    leaves: Seq<(Seq<char>, bool)>,
    sprouts: Seq<Seq<char>>,
    fallen: Seq<Seq<char>>,
    leaves2: Seq<(Seq<char>, bool)>,
    sprouts2: Seq<Seq<char>>,
    fallen2: Seq<Seq<char>>,
)
    ensures
        seed_of(leaves, sprouts, fallen) != 0,
        leaves == leaves2 && sprouts == sprouts2 && fallen == fallen2 ==> seed_of(leaves, sprouts, fallen)
            == seed_of(leaves2, sprouts2, fallen2),
{
}

proof fn lemma_fnv_parts_push(h: u64, ps: Seq<Seq<u8>>, p: Seq<u8>)
    ensures
        fnv_parts(h, ps.push(p)) == fnv_bytes(fnv_parts(h, ps), p),
{
    assert(ps.push(p).drop_last() =~= ps);
}

/// FNV-1a over `bytes`, continuing from `h`.
pub fn fnv_extend(h: u64, bytes: &[u8]) -> (r: u64)
    ensures
        r == fnv_bytes(h, bytes@),
{
    let mut acc = h;
    let mut i: usize = 0;
    while i < bytes.len()
        invariant
            0 <= i <= bytes@.len(),
            acc == fnv_bytes(h, bytes@.take(i as int)),
        decreases bytes@.len() - i,
    {
        assert(bytes@.take(i + 1).drop_last() =~= bytes@.take(i as int));
        acc = (acc ^ (bytes[i] as u64)).wrapping_mul(FNV_PRIME);
        i = i + 1;
    }
    assert(bytes@.take(i as int) =~= bytes@);
    acc
}

fn slug_bytes(s: &String) -> (b: Vec<u8>)
    ensures
        b@ == encode_utf8(s@),
{
    let r = s.as_str();
    let v = r.as_bytes();
    assert(r.spec_bytes() == encode_utf8(r@));
    let mut out: Vec<u8> = Vec::new();
    let mut i: usize = 0;
    while i < v.len()
        invariant
            0 <= i <= v@.len(),
            out@ == v@.take(i as int),
        decreases v@.len() - i,
    {
        out.push(v[i]);
        assert(v@.take(i + 1) =~= v@.take(i as int).push(v@[i as int]));
        i = i + 1;
    }
    assert(v@.take(i as int) =~= v@);
    out
}

fn hash_tagged(h: u64, tag: &[u8], items: &Vec<String>, Ghost(ps): Ghost<Seq<Seq<u8>>>) -> (r: u64)
    requires
        h == fnv_parts(FNV_OFFSET, ps),
    ensures
        r == fnv_parts(FNV_OFFSET, ps + tagged_parts(tag@, strings_view(items@))),
{
    let ghost v = strings_view(items@);
    let mut acc = h;
    let mut i: usize = 0;
    assert(ps + tagged_parts(tag@, v.take(0)) =~= ps);
    while i < items.len()
        invariant
            0 <= i <= items@.len(),
            v == strings_view(items@),
            acc == fnv_parts(FNV_OFFSET, ps + tagged_parts(tag@, v.take(i as int))),
        decreases items@.len() - i,
    {
        acc = fnv_extend(acc, tag);
        let b = slug_bytes(&items[i]);
        acc = fnv_extend(acc, b.as_slice());
        proof {
            assert(v.take(i + 1).drop_last() =~= v.take(i as int));
            assert(v.take(i + 1).last() == items@[i as int]@);
            let base = ps + tagged_parts(tag@, v.take(i as int));
            lemma_fnv_parts_push(FNV_OFFSET, base, tag@);
            lemma_fnv_parts_push(FNV_OFFSET, base.push(tag@), encode_utf8(v[i as int]));
            assert(ps + tagged_parts(tag@, v.take(i + 1)) =~= base.push(tag@).push(
                encode_utf8(v[i as int]),
            ));
        }
        i = i + 1;
    }
    assert(v.take(i as int) =~= v);
    acc
}

impl TreeModel {
    pub fn leaf_count(&self) -> (n: usize)
        ensures
            n == self.leaves@.len(),
    {
        self.leaves.len()
    }

    pub fn pressed_count(&self) -> (n: usize)
        ensures
            n == count_pressed(leaf_pairs(self.leaves@)),
            n <= self.leaves@.len(),
    {
        let ghost v = leaf_pairs(self.leaves@);
        let mut n: usize = 0;
        let mut i: usize = 0;
        while i < self.leaves.len()
            invariant
                0 <= i <= self.leaves@.len(),
                v == leaf_pairs(self.leaves@),
                n == count_pressed(v.take(i as int)),
                n <= i,
            decreases self.leaves@.len() - i,
        {
            assert(v.take(i + 1).drop_last() =~= v.take(i as int));
            if self.leaves[i].pressed {
                n = n + 1;
            }
            i = i + 1;
        }
        assert(v.take(i as int) =~= v);
        n
    }

    /// A seed that depends only on the model: FNV-1a over a versioned header
    /// and every leaf (with its pressed flag), sprout and fallen slug.
    pub fn stable_seed(&self) -> (s: u64)
        ensures
            s == seed_of(leaf_pairs(self.leaves@), strings_view(self.sprouts@), strings_view(self.fallen@)),
    {
        let ghost lv = leaf_pairs(self.leaves@);
        let header: Vec<u8> = vec![108u8, 101, 97, 102, 45, 116, 114, 101, 101, 45, 118, 49];
        let ltag: Vec<u8> = vec![255u8, 108, 101, 97, 102];
        let ptag: Vec<u8> = vec![0u8, 112, 114, 101, 115, 115, 101, 100];
        let stag: Vec<u8> = vec![255u8, 115, 112, 114, 111, 117, 116];
        let ftag: Vec<u8> = vec![255u8, 102, 97, 108, 108, 101, 110];
        assert(header@ == seed_header());
        let mut h = fnv_extend(FNV_OFFSET, header.as_slice());
        proof {
            lemma_fnv_parts_push(FNV_OFFSET, Seq::empty(), seed_header());
            assert(Seq::<Seq<u8>>::empty().push(seed_header()) =~= seq![seed_header()]);
        }
        let mut i: usize = 0;
        while i < self.leaves.len()
            invariant
                0 <= i <= self.leaves@.len(),
                lv == leaf_pairs(self.leaves@),
                ltag@ == leaf_tag(),
                ptag@ == pressed_tag(),
                h == fnv_parts(FNV_OFFSET, seq![seed_header()] + leaf_seed_parts(lv.take(i as int))),
            decreases self.leaves@.len() - i,
        {
            let ghost h0 = h;
            h = fnv_extend(h, ltag.as_slice());
            let b = slug_bytes(&self.leaves[i].slug);
            h = fnv_extend(h, b.as_slice());
            h = fnv_extend(h, ptag.as_slice());
            let flag: Vec<u8> = if self.leaves[i].pressed {
                vec![49u8]
            } else {
                vec![48u8]
            };
            h = fnv_extend(h, flag.as_slice());
            proof {
                let base = seq![seed_header()] + leaf_seed_parts(lv.take(i as int));
                let x = lv[i as int];
                assert(lv.take(i + 1).drop_last() =~= lv.take(i as int));
                assert(lv.take(i + 1).last() == x);
                let fl = seq![if x.1 {
                    49u8
                } else {
                    48u8
                }];
                assert(flag@ == fl);
                lemma_fnv_parts_push(FNV_OFFSET, base, leaf_tag());
                lemma_fnv_parts_push(FNV_OFFSET, base.push(leaf_tag()), encode_utf8(x.0));
                lemma_fnv_parts_push(FNV_OFFSET, base.push(leaf_tag()).push(encode_utf8(x.0)), pressed_tag());
                lemma_fnv_parts_push(
                    FNV_OFFSET,
                    base.push(leaf_tag()).push(encode_utf8(x.0)).push(pressed_tag()),
                    fl,
                );
                assert(seq![seed_header()] + leaf_seed_parts(lv.take(i + 1)) =~= base.push(leaf_tag()).push(
                    encode_utf8(x.0),
                ).push(pressed_tag()).push(fl));
            }
            i = i + 1;
        }
        assert(lv.take(i as int) =~= lv);
        let ghost p1 = seq![seed_header()] + leaf_seed_parts(lv);
        assert(stag@ == sprout_tag());
        assert(ftag@ == fallen_tag());
        let h2 = hash_tagged(h, stag.as_slice(), &self.sprouts, Ghost(p1));
        assert(h2 == fnv_parts(FNV_OFFSET, p1 + tagged_parts(sprout_tag(), strings_view(self.sprouts@))));
        let ghost p2 = p1 + tagged_parts(sprout_tag(), strings_view(self.sprouts@));
        let h3 = hash_tagged(h2, ftag.as_slice(), &self.fallen, Ghost(p2));
        assert(h3 == fnv_parts(FNV_OFFSET, p2 + tagged_parts(fallen_tag(), strings_view(self.fallen@))));
        assert(p2 + tagged_parts(fallen_tag(), strings_view(self.fallen@)) =~= seed_parts(
            lv,
            strings_view(self.sprouts@),
            strings_view(self.fallen@),
        ));
        if h3 == 0 {
            NON_ZERO_SEED
        } else {
            h3
        }
    }
}

/// One xorshift64 step.
pub open spec fn xorshift(v: u64) -> u64 {
    let a = v ^ (v << 13u64);
    let b = a ^ (a >> 7u64);
    b ^ (b << 17u64)
}

/// A small deterministic generator (xorshift64), so the same model always
/// draws the same tree.
pub struct StableRng {
    state: u64,
}

impl StableRng {
    pub closed spec fn state(&self) -> u64 {
        self.state
    }

    pub fn new(seed: u64) -> (r: StableRng)
        ensures
            r.state() == if seed == 0 {
                NON_ZERO_SEED
            } else {
                seed
            },
    {
        let state = if seed == 0 {
            NON_ZERO_SEED
        } else {
            seed
        };
        StableRng { state }
    }

    pub fn next_u64(&mut self) -> (v: u64)
        ensures
            v == xorshift(old(self).state()),
            final(self).state() == v,
    {
        let mut value = self.state;
        value ^= value << 13u64;
        value ^= value >> 7u64;
        value ^= value << 17u64;
        self.state = value;
        value
    }
}


// ---------------------------------------------------------------------------
// The canvas
// ---------------------------------------------------------------------------
#[derive(Clone, Copy, Debug, PartialEq, Eq, Structural)]
pub enum Style {
    Plain,
    Trunk,
    Foliage,
    Pressed,
    Ordinary,
    Sprout,
    Fallen,
}

/// One character of the picture and how it is coloured.
#[derive(Clone, Copy, Debug, PartialEq, Eq, Structural)]
pub struct Cell {
    pub ch: char,
    pub style: Style,
}

impl Cell {
    pub fn blank() -> (c: Cell)
        ensures
            c == (Cell { ch: ' ', style: Style::Plain }),
    {
        Cell { ch: ' ', style: Style::Plain }
    }
}

pub open spec fn canvas_view(c: Seq<Vec<Cell>>) -> Seq<Seq<Cell>> {
    c.map_values(|row: Vec<Cell>| row@)
}

/// The canvas with `cell` written at column `x` of row `y`; a position
/// outside the canvas changes nothing.
pub open spec fn put(c: Seq<Seq<Cell>>, x: int, y: int, cell: Cell) -> Seq<Seq<Cell>> {
    if 0 <= y < c.len() && 0 <= x < c[y].len() {
        c.update(y, c[y].update(x, cell))
    } else {
        c
    }
}

/// The canvas after each write of `puts`, in order.
pub open spec fn paint(c: Seq<Seq<Cell>>, puts: Seq<(int, int, Cell)>) -> Seq<Seq<Cell>>
    decreases puts.len(),
{
    if puts.len() == 0 {
        c
    } else {
        let p = puts.last();
        put(paint(c, puts.drop_last()), p.0, p.1, p.2)
    }
}

proof fn lemma_paint_push(c: Seq<Seq<Cell>>, puts: Seq<(int, int, Cell)>, p: (int, int, Cell))
    ensures
        paint(c, puts.push(p)) == put(paint(c, puts), p.0, p.1, p.2),
{
    assert(puts.push(p).drop_last() =~= puts);
}

/// Write one cell, ignoring positions outside the canvas.
pub fn put_cell(canvas: &mut Vec<Vec<Cell>>, x: usize, y: usize, ch: char, style: Style)
    ensures
        canvas_view(final(canvas)@) == put(canvas_view(old(canvas)@), x as int, y as int, Cell { ch, style }),
{
    let ghost before = canvas_view(canvas@);
    if y < canvas.len() && x < canvas[y].len() {
        let mut row = canvas.remove(y);
        row.set(x, Cell { ch, style });
        let ghost r = row@;
        canvas.insert(y, row);
        assert(canvas_view(canvas@) =~= before.update(y as int, before[y as int].update(x as int, Cell { ch, style })));
    }
}

pub open spec fn sat(a: int, b: int) -> int {
    if a - b < 0 {
        0
    } else {
        a - b
    }
}

/// The branch writes of one layer at row `y`, for offsets `1..=n`: every
/// even offset puts `/` to the left of `center` and `\` to its right.
pub open spec fn layer_puts(center: int, y: int, n: nat) -> Seq<(int, int, Cell)>
    decreases n,
{
    if n == 0 {
        Seq::empty()
    } else {
        let rest = layer_puts(center, y, (n - 1) as nat);
        if n % 2 == 0 {
            rest.push((sat(center, n as int), y, Cell { ch: '/', style: Style::Trunk })).push(
                (center + n, y, Cell { ch: '\\', style: Style::Trunk }),
            )
        } else {
            rest
        }
    }
}

/// The branch writes of the first `layers` layers: layer `l` sits
/// `2 + 3l` rows above the crown's bottom and spans `5 + 5l` columns.
pub open spec fn branch_puts(center: int, crown_height: int, layers: nat) -> Seq<(int, int, Cell)>
    decreases layers,
{
    if layers == 0 {
        Seq::empty()
    } else {
        let l = layers - 1;
        branch_puts(center, crown_height, (layers - 1) as nat) + layer_puts(
            center,
            sat(crown_height, 2 + l * 3),
            (5 + l * 5) as nat,
        )
    }
}

/// The two trunk columns on rows `from .. from + n`.
pub open spec fn trunk_puts(center: int, from: int, n: nat) -> Seq<(int, int, Cell)>
    decreases n,
{
    if n == 0 {
        Seq::empty()
    } else {
        let y = from + n - 1;
        trunk_puts(center, from, (n - 1) as nat).push(
            (sat(center, 1), y, Cell { ch: '|', style: Style::Trunk }),
        ).push((center, y, Cell { ch: '|', style: Style::Trunk }))
    }
}

pub open spec fn tree_frame_puts(center: int, crown_height: int, trunk_height: int, layers: nat) -> Seq<
    (int, int, Cell),
> {
    let from = sat(crown_height, 2);
    let to = crown_height + trunk_height;
    branch_puts(center, crown_height, layers) + trunk_puts(
        center,
        from,
        if to > from {
            (to - from) as nat
        } else {
            0nat
        },
    )
}

/// Draw the branch layers and the two-column trunk.
pub fn draw_branches_and_trunk(
    canvas: &mut Vec<Vec<Cell>>,
    center: usize,
    crown_height: usize,
    trunk_height: usize,
    branch_layers: usize,
)
    requires
        branch_layers <= 1000,
        center + 6000 <= usize::MAX,
        crown_height + trunk_height <= usize::MAX,
    ensures
        canvas_view(final(canvas)@) == paint(
            canvas_view(old(canvas)@),
            tree_frame_puts(center as int, crown_height as int, trunk_height as int, branch_layers as nat),
        ),
{
    let ghost c0 = canvas_view(canvas@);
    let mut layer: usize = 0;
    while layer < branch_layers
        invariant
            branch_layers <= 1000,
            center + 6000 <= usize::MAX,
            0 <= layer <= branch_layers,
            canvas_view(canvas@) == paint(c0, branch_puts(center as int, crown_height as int, layer as nat)),
        decreases branch_layers - layer,
    {
        let y = crown_height.saturating_sub(2 + layer * 3);
        let span = 5 + layer * 5;
        let ghost done = branch_puts(center as int, crown_height as int, layer as nat);
        let mut offset: usize = 1;
        assert(done + layer_puts(center as int, y as int, 0) =~= done);
        while offset <= span
            invariant
                1 <= offset <= span + 1,
                span == 5 + layer * 5,
                layer < branch_layers <= 1000,
                center + 6000 <= usize::MAX,
                canvas_view(canvas@) == paint(c0, done + layer_puts(center as int, y as int, (offset - 1) as nat)),
            decreases span + 1 - offset,
        {
            let ghost prev = done + layer_puts(center as int, y as int, (offset - 1) as nat);
            if offset % 2 == 0 {
                put_cell(canvas, center.saturating_sub(offset), y, '/', Style::Trunk);
                proof {
                    lemma_paint_push(c0, prev, (sat(center as int, offset as int), y as int, Cell { ch: '/', style: Style::Trunk }));
                }
                put_cell(canvas, center + offset, y, '\\', Style::Trunk);
                proof {
                    let p1 = prev.push((sat(center as int, offset as int), y as int, Cell { ch: '/', style: Style::Trunk }));
                    lemma_paint_push(c0, p1, (center + offset, y as int, Cell { ch: '\\', style: Style::Trunk }));
                    assert(done + layer_puts(center as int, y as int, offset as nat) =~= p1.push(
                        (center + offset, y as int, Cell { ch: '\\', style: Style::Trunk }),
                    ));
                }
            } else {
                assert(done + layer_puts(center as int, y as int, offset as nat) =~= prev);
            }
            offset = offset + 1;
        }
        assert(branch_puts(center as int, crown_height as int, (layer + 1) as nat) =~= done + layer_puts(
            center as int,
            y as int,
            span as nat,
        ));
        layer = layer + 1;
    }
    let from = crown_height.saturating_sub(2);
    let to = crown_height + trunk_height;
    let ghost bp = branch_puts(center as int, crown_height as int, branch_layers as nat);
    let mut y = from;
    assert(bp + trunk_puts(center as int, from as int, 0) =~= bp);
    while y < to
        invariant
            from <= y,
            y <= to || to <= from,
            (to <= from ==> y == from),
            center + 6000 <= usize::MAX,
            canvas_view(canvas@) == paint(c0, bp + trunk_puts(center as int, from as int, (y - from) as nat)),
        decreases to - y,
    {
        let ghost prev = bp + trunk_puts(center as int, from as int, (y - from) as nat);
        put_cell(canvas, center.saturating_sub(1), y, '|', Style::Trunk);
        put_cell(canvas, center, y, '|', Style::Trunk);
        proof {
            let a = (sat(center as int, 1), y as int, Cell { ch: '|', style: Style::Trunk });
            let b = (center as int, y as int, Cell { ch: '|', style: Style::Trunk });
            lemma_paint_push(c0, prev, a);
            lemma_paint_push(c0, prev.push(a), b);
            assert(bp + trunk_puts(center as int, from as int, (y + 1 - from) as nat) =~= prev.push(a).push(b));
        }
        y = y + 1;
    }
    proof {
        if to > from {
            assert(y == to);
        }
    }
}


/// The generator's state after `n` steps from `s0`.
pub open spec fn rng_state(s0: u64, n: nat) -> u64
    decreases n,
{
    if n == 0 {
        s0
    } else {
        xorshift(rng_state(s0, (n - 1) as nat))
    }
}

pub open spec fn start_state(seed: u64) -> u64 {
    if seed == 0 {
        NON_ZERO_SEED
    } else {
        seed
    }
}

/// A candidate position with the random score it is ordered by.
#[derive(Clone, Copy, Debug, PartialEq, Eq, Structural)]
pub struct Scored {
    pub score: u64,
    pub x: usize,
    pub y: usize,
    pub ch: char,
}

/// Inserts `e` after every entry of `s` whose score it is not below.
pub open spec fn insert_scored(s: Seq<Scored>, e: Scored) -> Seq<Scored>
    decreases s.len(),
{
    if s.len() == 0 {
        seq![e]
    } else if e.score < s.last().score {
        insert_scored(s.drop_last(), e).push(s.last())
    } else {
        s.push(e)
    }
}

/// `s` sorted by score, equal scores in their first order.
pub open spec fn sorted_scored(s: Seq<Scored>) -> Seq<Scored>
    decreases s.len(),
{
    if s.len() == 0 {
        Seq::empty()
    } else {
        insert_scored(sorted_scored(s.drop_last()), s.last())
    }
}

fn insert_scored_in_order(out: &mut Vec<Scored>, e: Scored)
    ensures
        final(out)@ == insert_scored(old(out)@, e),
{
    let ghost orig = out@;
    let mut p = out.len();
    let mut done = false;
    assert(orig.take(p as int) =~= orig);
    assert(orig.skip(p as int) =~= Seq::<Scored>::empty());
    while p > 0 && !done
        invariant
            p <= out.len(),
            out@ == orig,
            insert_scored(orig, e) == insert_scored(orig.take(p as int), e) + orig.skip(p as int),
            done ==> p > 0 && !(e.score < orig[p - 1].score),
        decreases p + (if done {
            0int
        } else {
            1int
        }),
    {
        let ghost q = (p - 1) as int;
        if e.score < out[p - 1].score {
            assert(orig.take(p as int).drop_last() =~= orig.take(q));
            assert(orig.take(p as int).last() == orig[q]);
            assert(orig.take(q).push(orig[q]) =~= orig.take(p as int));
            assert(seq![orig[q]] + orig.skip(p as int) =~= orig.skip(q));
            p = p - 1;
        } else {
            done = true;
        }
    }
    proof {
        if p > 0 {
            assert(orig.take(p as int).last() == orig[p - 1]);
        }
    }
    out.insert(p, e);
    assert(out@ =~= insert_scored(orig.take(p as int), e) + orig.skip(p as int));
}

/// Sorts candidates by score, keeping ties in order (a stable sort by key).
pub fn sort_scored(items: Vec<Scored>) -> (r: Vec<Scored>)
    ensures
        r@ == sorted_scored(items@),
{
    let ghost orig = items@;
    let total = items.len();
    let mut rest = items;
    let mut out: Vec<Scored> = Vec::new();
    let mut k: usize = 0;
    while rest.len() > 0
        invariant
            k <= orig.len(),
            orig.len() == total,
            orig.len() == rest@.len() + k,
            rest@ == orig.skip(k as int),
            out@ == sorted_scored(orig.take(k as int)),
        decreases rest.len(),
    {
        let x = rest.remove(0);
        assert(orig.take(k + 1).drop_last() =~= orig.take(k as int));
        assert(x == orig[k as int]);
        insert_scored_in_order(&mut out, x);
        assert(rest@ =~= orig.skip(k + 1));
        k = k + 1;
    }
    assert(orig.take(k as int) =~= orig);
    out
}

/// The foliage glyph for `k % 4`.
pub open spec fn foliage_char(k: int) -> char {
    if k == 0 {
        '&'
    } else if k == 1 {
        '%'
    } else if k == 2 {
        '#'
    } else {
        '@'
    }
}

fn foliage_glyph(k: usize) -> (c: char)
    ensures
        c == foliage_char(k as int),
{
    if k == 0 {
        '&'
    } else if k == 1 {
        '%'
    } else if k == 2 {
        '#'
    } else {
        '@'
    }
}

/// Each crown position scored by two draws: the score, then the glyph.
pub open spec fn scored_crown(cells: Seq<(usize, usize)>, s0: u64) -> Seq<Scored> {
    Seq::new(
        cells.len(),
        |i: int|
            Scored {
                score: rng_state(s0, (2 * i + 1) as nat),
                x: cells[i].0,
                y: cells[i].1,
                ch: foliage_char(((rng_state(s0, (2 * i + 2) as nat) as usize) % 4) as int),
            },
    )
}

pub open spec fn min_nat(a: int, b: int) -> int {
    if a < b {
        a
    } else {
        b
    }
}

/// The writes of a list of scored glyphs in the given style.
pub open spec fn scored_puts(s: Seq<Scored>, style: Style) -> Seq<(int, int, Cell)> {
    s.map_values(|e: Scored| (e.x as int, e.y as int, Cell { ch: e.ch, style }))
}

pub open spec fn positions_of(s: Seq<Scored>) -> Seq<(usize, usize)> {
    s.map_values(|e: Scored| (e.x, e.y))
}

/// The foliage kept: the `budget` lowest-scored crown positions.
pub open spec fn foliage_kept(cells: Seq<(usize, usize)>, budget: int, seed: u64) -> Seq<Scored> {
    if budget == 0 {
        Seq::empty()
    } else {
        let sorted = sorted_scored(scored_crown(cells, start_state(seed)));
        sorted.take(min_nat(budget, sorted.len() as int))
    }
}

/// Scatter foliage over the crown: every crown position (in the order
/// given) draws a score and a glyph from a generator seeded with `seed`, and
/// the `budget` lowest scores are drawn. Returns the drawn positions.
pub fn place_foliage(
    canvas: &mut Vec<Vec<Cell>>,
    crown_cells: &[(usize, usize)],
    budget: usize,
    seed: u64,
) -> (r: Vec<(usize, usize)>)
    requires
        crown_cells@.len() * 2 + 2 <= usize::MAX,
    ensures
        r@ == positions_of(foliage_kept(crown_cells@, budget as int, seed)),
        canvas_view(final(canvas)@) == paint(
            canvas_view(old(canvas)@),
            scored_puts(foliage_kept(crown_cells@, budget as int, seed), Style::Foliage),
        ),
{
    let ghost c0 = canvas_view(canvas@);
    if budget == 0 {
        assert(scored_puts(Seq::<Scored>::empty(), Style::Foliage) =~= Seq::<(int, int, Cell)>::empty());
        assert(positions_of(Seq::<Scored>::empty()) =~= Seq::<(usize, usize)>::empty());
        return Vec::new();
    }
    let ghost s0 = start_state(seed);
    let mut rng = StableRng::new(seed);
    let mut candidates: Vec<Scored> = Vec::new();
    let mut i: usize = 0;
    while i < crown_cells.len()
        invariant
            0 <= i <= crown_cells@.len(),
            rng.state() == rng_state(s0, (2 * i) as nat),
            candidates@ == scored_crown(crown_cells@, s0).take(i as int),
        decreases crown_cells@.len() - i,
    {
        let score = rng.next_u64();
        let draw = rng.next_u64();
        assert(rng_state(s0, (2 * i + 1) as nat) == xorshift(rng_state(s0, (2 * i) as nat)));
        assert(rng_state(s0, (2 * i + 2) as nat) == xorshift(rng_state(s0, (2 * i + 1) as nat)));
        let ch = foliage_glyph(#[verifier::truncate] (draw as usize) % 4);
        let (x, y) = crown_cells[i];
        candidates.push(Scored { score, x, y, ch });
        assert(candidates@ =~= scored_crown(crown_cells@, s0).take(i + 1));
        i = i + 1;
    }
    assert(scored_crown(crown_cells@, s0).take(i as int) =~= scored_crown(crown_cells@, s0));
    let sorted = sort_scored(candidates);
    let n = if budget < sorted.len() {
        budget
    } else {
        sorted.len()
    };
    let ghost kept = foliage_kept(crown_cells@, budget as int, seed);
    assert(kept == sorted@.take(n as int));
    let mut selected: Vec<(usize, usize)> = Vec::new();
    let mut k: usize = 0;
    while k < n
        invariant
            0 <= k <= n,
            n <= sorted@.len(),
            kept == sorted@.take(n as int),
            selected@ == positions_of(kept.take(k as int)),
            canvas_view(canvas@) == paint(c0, scored_puts(kept.take(k as int), Style::Foliage)),
        decreases n - k,
    {
        let e = sorted[k];
        put_cell(canvas, e.x, e.y, e.ch, Style::Foliage);
        selected.push((e.x, e.y));
        proof {
            assert(kept[k as int] == e);
            let before = scored_puts(kept.take(k as int), Style::Foliage);
            lemma_paint_push(c0, before, (e.x as int, e.y as int, Cell { ch: e.ch, style: Style::Foliage }));
            assert(scored_puts(kept.take(k + 1), Style::Foliage) =~= before.push(
                (e.x as int, e.y as int, Cell { ch: e.ch, style: Style::Foliage }),
            ));
            assert(positions_of(kept.take(k + 1)) =~= positions_of(kept.take(k as int)).push((e.x, e.y)));
        }
        k = k + 1;
    }
    assert(kept.take(n as int) =~= kept);
    selected
}

/// The marker alphabet: one character per leaf, in leaf order.
pub open spec fn marker_alphabet() -> Seq<char> {
    "1234567890ABCDEFGHIJKLMNOPQRSTUVWXYZabcdefghijklmnopqrstuvwxyz"@
}

/// How many leaves can have a marker.
pub const MARKER_COUNT: usize = 62;

pub fn marker_char(index: usize) -> (c: char)
    requires
        index < MARKER_COUNT,
    ensures
        c == marker_alphabet()[index as int],
{
    let a = chars_of("1234567890ABCDEFGHIJKLMNOPQRSTUVWXYZabcdefghijklmnopqrstuvwxyz");
    proof {
        reveal_strlit("1234567890ABCDEFGHIJKLMNOPQRSTUVWXYZabcdefghijklmnopqrstuvwxyz");
    }
    a[index]
}

/// Each foliage position scored by one draw, for choosing marker spots.
pub open spec fn scored_spots(spots: Seq<(usize, usize)>, s0: u64) -> Seq<Scored> {
    Seq::new(
        spots.len(),
        |i: int| Scored { score: rng_state(s0, (i + 1) as nat), x: spots[i].0, y: spots[i].1, ch: ' ' },
    )
}

/// The write of leaf `i`'s marker at the `i`-th spot of `order`.
pub open spec fn marker_put(leaves: Seq<(Seq<char>, bool)>, order: Seq<Scored>, i: int) -> (int, int, Cell) {
    (
        order[i].x as int,
        order[i].y as int,
        Cell {
            ch: marker_alphabet()[i],
            style: if leaves[i].1 {
                Style::Pressed
            } else {
                Style::Ordinary
            },
        },
    )
}

/// How many markers are drawn: one per leaf, at most one per marker
/// character and per foliage spot.
pub open spec fn marker_count(leaves: nat, spots: nat) -> nat {
    if leaves <= 62 && leaves <= spots {
        leaves
    } else if 62 <= spots {
        62
    } else {
        spots
    }
}

/// The seed of the marker draws.
pub open spec fn marker_start(
    leaves: Seq<(Seq<char>, bool)>,
    sprouts: Seq<Seq<char>>,
    fallen: Seq<Seq<char>>,
) -> u64 {
    start_state(seed_of(leaves, sprouts, fallen) ^ 0xa076_1d64_78bd_642fu64)
}

/// The marker writes: leaf `i` (pressed or ordinary) at the `i`-th
/// lowest-scored foliage spot, for as many leaves as there are markers and spots.
pub open spec fn marker_puts(
    leaves: Seq<(Seq<char>, bool)>,
    sprouts: Seq<Seq<char>>,
    fallen: Seq<Seq<char>>,
    spots: Seq<(usize, usize)>,
) -> Seq<(int, int, Cell)> {
    let order = sorted_scored(scored_spots(spots, marker_start(leaves, sprouts, fallen)));
    Seq::new(marker_count(leaves.len(), spots.len()), |i: int| marker_put(leaves, order, i))
}

/// Put a marker for each leaf (up to the marker alphabet) on foliage spots
/// chosen by a generator seeded from the model.
pub fn draw_markers(canvas: &mut Vec<Vec<Cell>>, model: &TreeModel, foliage_positions: &[(usize, usize)])
    requires
        foliage_positions@.len() + 1 <= usize::MAX,
    ensures
        canvas_view(final(canvas)@) == paint(
            canvas_view(old(canvas)@),
            marker_puts(
                leaf_pairs(model.leaves@),
                strings_view(model.sprouts@),
                strings_view(model.fallen@),
                foliage_positions@,
            ),
        ),
{
    let ghost c0 = canvas_view(canvas@);
    let ghost lv = leaf_pairs(model.leaves@);
    let ghost puts = marker_puts(lv, strings_view(model.sprouts@), strings_view(model.fallen@), foliage_positions@);
    if foliage_positions.len() == 0 {
        assert(puts =~= Seq::<(int, int, Cell)>::empty());
        return;
    }
    assert(puts.len() == marker_count(lv.len(), foliage_positions@.len()));
    let mut count = model.leaves.len();
    if MARKER_COUNT < count {
        count = MARKER_COUNT;
    }
    if foliage_positions.len() < count {
        count = foliage_positions.len();
    }
    let seed = model.stable_seed() ^ 0xa076_1d64_78bd_642fu64;
    let ghost s0 = start_state(seed);
    let mut rng = StableRng::new(seed);
    let mut spots: Vec<Scored> = Vec::new();
    let mut i: usize = 0;
    while i < foliage_positions.len()
        invariant
            0 <= i <= foliage_positions@.len(),
            rng.state() == rng_state(s0, i as nat),
            spots@ == scored_spots(foliage_positions@, s0).take(i as int),
        decreases foliage_positions@.len() - i,
    {
        let score = rng.next_u64();
        assert(rng_state(s0, (i + 1) as nat) == xorshift(rng_state(s0, i as nat)));
        let (x, y) = foliage_positions[i];
        spots.push(Scored { score, x, y, ch: ' ' });
        assert(spots@ =~= scored_spots(foliage_positions@, s0).take(i + 1));
        i = i + 1;
    }
    assert(scored_spots(foliage_positions@, s0).take(i as int) =~= scored_spots(foliage_positions@, s0));
    let order = sort_scored(spots);
    proof {
        reveal_strlit("1234567890ABCDEFGHIJKLMNOPQRSTUVWXYZabcdefghijklmnopqrstuvwxyz");
        assert(s0 == marker_start(lv, strings_view(model.sprouts@), strings_view(model.fallen@)));
        assert(count == marker_count(lv.len(), foliage_positions@.len()));
        lemma_sorted_scored_len(scored_spots(foliage_positions@, s0));
    }
    let mut k: usize = 0;
    while k < count
        invariant
            0 <= k <= count,
            count <= model.leaves@.len(),
            count <= MARKER_COUNT,
            count <= order@.len(),
            lv == leaf_pairs(model.leaves@),
            puts.len() == count,
            order@ == sorted_scored(scored_spots(foliage_positions@, s0)),
            s0 == marker_start(lv, strings_view(model.sprouts@), strings_view(model.fallen@)),
            puts == marker_puts(lv, strings_view(model.sprouts@), strings_view(model.fallen@), foliage_positions@),
            canvas_view(canvas@) == paint(c0, puts.take(k as int)),
        decreases count - k,
    {
        let e = order[k];
        let style = if model.leaves[k].pressed {
            Style::Pressed
        } else {
            Style::Ordinary
        };
        let m = marker_char(k);
        put_cell(canvas, e.x, e.y, m, style);
        proof {
            reveal_strlit("1234567890ABCDEFGHIJKLMNOPQRSTUVWXYZabcdefghijklmnopqrstuvwxyz");
            assert(puts[k as int] == marker_put(lv, order@, k as int));
            assert(puts[k as int] == (e.x as int, e.y as int, Cell { ch: m, style }));
            lemma_paint_push(c0, puts.take(k as int), puts[k as int]);
            assert(puts.take(k + 1) =~= puts.take(k as int).push(puts[k as int]));
        }
        k = k + 1;
    }
    assert(puts.take(k as int) =~= puts);
}

proof fn lemma_insert_scored_len(s: Seq<Scored>, e: Scored)
    ensures
        insert_scored(s, e).len() == s.len() + 1,
    decreases s.len(),
{
    if s.len() > 0 && e.score < s.last().score {
        lemma_insert_scored_len(s.drop_last(), e);
    }
}

proof fn lemma_sorted_scored_len(s: Seq<Scored>)
    ensures
        sorted_scored(s).len() == s.len(),
    decreases s.len(),
{
    if s.len() > 0 {
        lemma_sorted_scored_len(s.drop_last());
        lemma_insert_scored_len(sorted_scored(s.drop_last()), s.last());
    }
}


// ---------------------------------------------------------------------------
// Text
// ---------------------------------------------------------------------------
/// The ANSI colour that opens text of `style` (none for plain text).
pub open spec fn ansi(style: Style) -> Seq<char> {
    match style {
        Style::Plain => ""@,
        Style::Trunk => "\x1b[33m"@,
        Style::Foliage => "\x1b[32m"@,
        Style::Pressed => "\x1b[93;1m"@,
        Style::Ordinary => "\x1b[92;1m"@,
        Style::Sprout => "\x1b[92;1m"@,
        Style::Fallen => "\x1b[90m"@,
    }
}

impl Style {
    pub fn ansi_code(self) -> (r: &'static str)
        ensures
            r@ == ansi(self),
    {
        match self {
            Style::Plain => "",
            Style::Trunk => "\x1b[33m",
            Style::Foliage => "\x1b[32m",
            Style::Pressed => "\x1b[93;1m",
            Style::Ordinary => "\x1b[92;1m",
            Style::Sprout => "\x1b[92;1m",
            Style::Fallen => "\x1b[90m",
        }
    }
}

pub open spec fn reset() -> Seq<char> {
    "\x1b[0m"@
}

/// One output line: `text`, coloured when `color` is on and the style is not
/// plain, then a newline.
pub open spec fn styled_line(text: Seq<char>, style: Style, color: bool) -> Seq<char> {
    if color && style != Style::Plain {
        ansi(style) + text + reset() + seq!['\n']
    } else {
        text + seq!['\n']
    }
}

pub fn push_styled_line(out: &mut Vec<char>, text: &[char], style: Style, color: bool)
    ensures
        final(out)@ == old(out)@ + styled_line(text@, style, color),
{
    let ghost o = out@;
    if color && style != Style::Plain {
        push_str(out, style.ansi_code());
        append(out, text);
        push_str(out, "\x1b[0m");
    } else {
        append(out, text);
    }
    out.push('\n');
    assert(out@ =~= o + styled_line(text@, style, color));
}

/// Lines, each through `styled_line`, one after another.
pub open spec fn styled_lines(lines: Seq<Seq<char>>, style: Style, color: bool) -> Seq<char>
    decreases lines.len(),
{
    if lines.len() == 0 {
        Seq::empty()
    } else {
        styled_lines(lines.drop_last(), style, color) + styled_line(lines.last(), style, color)
    }
}

/// Greedy wrapping state: the finished lines and the line being filled.
pub open spec fn wrap_fold(values: Seq<Seq<char>>, prefix: Seq<char>, width: int) -> (Seq<Seq<char>>, Seq<char>)
    decreases values.len(),
{
    if values.len() == 0 {
        (Seq::empty(), prefix)
    } else {
        let (done, cur) = wrap_fold(values.drop_last(), prefix, width);
        let value = values.last();
        let sep = if cur == prefix {
            ""@
        } else {
            ", "@
        };
        if cur.len() + sep.len() + value.len() > width {
            (done.push(trim_end(cur)), "  "@ + value)
        } else {
            (done, cur + sep + value)
        }
    }
}

/// `label` then the values separated by `, `, wrapping before a value that
/// would pass `width` columns and indenting continuation lines by two.
pub open spec fn wrapped_lines(label: Seq<char>, values: Seq<Seq<char>>, width: int) -> Seq<Seq<char>> {
    if values.len() == 0 {
        seq![trim_end(label)]
    } else {
        let prefix = if trim(label).len() == 0 {
            label
        } else {
            label + seq![' ']
        };
        let (done, cur) = wrap_fold(values, prefix, width);
        done.push(trim_end(cur))
    }
}

proof fn lemma_styled_lines_push(lines: Seq<Seq<char>>, l: Seq<char>, style: Style, color: bool)
    ensures
        styled_lines(lines.push(l), style, color) == styled_lines(lines, style, color) + styled_line(l, style, color),
{
    assert(lines.push(l).drop_last() =~= lines);
}

pub fn push_wrapped_values(
    out: &mut Vec<char>,
    label: &str,
    values: &[String],
    style: Style,
    color: bool,
    width: usize,
)
    ensures
        final(out)@ == old(out)@ + styled_lines(wrapped_lines(label@, strings_view(values@), width as int), style, color),
{
    let ghost o = out@;
    let ghost vs = strings_view(values@);
    let lab = chars_of(label);
    if values.len() == 0 {
        let t = trim_end_chars(lab.as_slice());
        push_styled_line(out, t.as_slice(), style, color);
        proof {
            lemma_styled_lines_push(Seq::empty(), trim_end(label@), style, color);
            assert(seq![trim_end(label@)] =~= Seq::<Seq<char>>::empty().push(trim_end(label@)));
        }
        return;
    }
    let tl = trim_chars(lab.as_slice());
    let mut prefix = lab.clone();
    if tl.len() != 0 {
        prefix = chars_of(label);
        prefix.push(' ');
    }
    let ghost pre = prefix@;
    assert(pre == if trim(label@).len() == 0 { label@ } else { label@ + seq![' '] });
    let mut line: Vec<char> = chars_of(label);
    if tl.len() != 0 {
        line.push(' ');
    }
    assert(line@ == pre);
    let mut i: usize = 0;
    let ghost mut done: Seq<Seq<char>> = Seq::empty();
    while i < values.len()
        invariant
            0 <= i <= values@.len(),
            vs == strings_view(values@),
            prefix@ == pre,
            wrap_fold(vs.take(i as int), pre, width as int) == (done, line@),
            out@ == o + styled_lines(done, style, color),
        decreases values@.len() - i,
    {
        let v = chars_of(values[i].as_str());
        assert(v@ == vs[i as int]);
        assert(vs.take(i + 1).drop_last() =~= vs.take(i as int));
        let same = eq_chars(line.as_slice(), prefix.as_slice());
        let sep_len: usize = if same {
            0
        } else {
            2
        };
        let ghost cur0 = line@;
        let ghost done0 = done;
        proof {
            reveal_strlit(", ");
            reveal_strlit("");
            reveal_strlit("  ");
            let sep = if cur0 == pre {
                ""@
            } else {
                ", "@
            };
            assert(sep.len() == sep_len);
            assert(wrap_fold(vs.take(i + 1), pre, width as int) == (if cur0.len() + sep.len() + vs[i as int].len() > width {
                (done0.push(trim_end(cur0)), "  "@ + vs[i as int])
            } else {
                (done0, cur0 + sep + vs[i as int])
            }));
        }
        if line.len() as u128 + sep_len as u128 + v.len() as u128 > width as u128 {
            let t = trim_end_chars(line.as_slice());
            push_styled_line(out, t.as_slice(), style, color);
            proof {
                lemma_styled_lines_push(done, trim_end(line@), style, color);
                done = done.push(trim_end(line@));
            }
            let mut next: Vec<char> = Vec::new();
            next.push(' ');
            next.push(' ');
            append(&mut next, v.as_slice());
            line = next;
            assert(line@ =~= "  "@ + vs[i as int]);
        } else {
            if !same {
                line.push(',');
                line.push(' ');
            }
            append(&mut line, v.as_slice());
            proof {
                reveal_strlit(", ");
                reveal_strlit("");
                if same {
                    assert(line@ =~= cur0 + ""@ + vs[i as int]);
                } else {
                    assert(line@ =~= cur0 + ", "@ + vs[i as int]);
                }
            }
        }
        i = i + 1;
    }
    assert(vs.take(i as int) =~= vs);
    let t = trim_end_chars(line.as_slice());
    push_styled_line(out, t.as_slice(), style, color);
    proof {
        lemma_styled_lines_push(done, trim_end(line@), style, color);
    }
}


fn push_decimal(out: &mut Vec<char>, n: usize)
    ensures
        final(out)@ == old(out)@ + decimal(n as nat),
{
    let d = decimal_chars(n as u64);
    append(out, d.as_slice());
}

/// `+ <count> <leaf label> not shown as <marker label>`.
pub open spec fn hidden_marker_text(count: nat, singular: Seq<char>, plural: Seq<char>) -> Seq<char> {
    "+ "@ + decimal(count) + " "@ + (if count == 1 {
        singular
    } else {
        plural
    }) + " not shown as "@ + (if count == 1 {
        "marker"@
    } else {
        "markers"@
    })
}

pub fn hidden_marker_message(count: usize, singular: &str, plural: &str) -> (r: Vec<char>)
    ensures
        r@ == hidden_marker_text(count as nat, singular@, plural@),
{
    let mut out: Vec<char> = Vec::new();
    push_str(&mut out, "+ ");
    push_decimal(&mut out, count);
    push_str(&mut out, " ");
    if count == 1 {
        push_str(&mut out, singular);
    } else {
        push_str(&mut out, plural);
    }
    push_str(&mut out, " not shown as ");
    if count == 1 {
        push_str(&mut out, "marker");
    } else {
        push_str(&mut out, "markers");
    }
    out
}

/// `+ <count> more leaf|leaves not shown as marker|markers`.
pub open spec fn hidden_leaf_text(count: nat) -> Seq<char> {
    "+ "@ + decimal(count) + " more "@ + (if count == 1 {
        "leaf"@
    } else {
        "leaves"@
    }) + " not shown as "@ + (if count == 1 {
        "marker"@
    } else {
        "markers"@
    })
}

pub fn hidden_leaf_message(count: usize) -> (r: Vec<char>)
    ensures
        r@ == hidden_leaf_text(count as nat),
{
    let mut out: Vec<char> = Vec::new();
    push_str(&mut out, "+ ");
    push_decimal(&mut out, count);
    push_str(&mut out, " more ");
    if count == 1 {
        push_str(&mut out, "leaf");
    } else {
        push_str(&mut out, "leaves");
    }
    push_str(&mut out, " not shown as ");
    if count == 1 {
        push_str(&mut out, "marker");
    } else {
        push_str(&mut out, "markers");
    }
    out
}

/// The legend entries `<marker> <slug>` of the first `k` leaves whose pressed
/// flag is `want`.
pub open spec fn marker_values(leaves: Seq<(Seq<char>, bool)>, want: bool, k: nat) -> Seq<Seq<char>>
    decreases k,
{
    if k == 0 {
        Seq::empty()
    } else {
        let i = k - 1;
        let rest = marker_values(leaves, want, (k - 1) as nat);
        if leaves[i].1 == want {
            rest.push(seq![marker_alphabet()[i], ' '] + leaves[i].0)
        } else {
            rest
        }
    }
}

pub open spec fn marked(n: nat) -> nat {
    if n < 62 {
        n
    } else {
        62
    }
}

pub open spec fn text_if(b: bool, t: Seq<char>) -> Seq<char> {
    if b {
        t
    } else {
        Seq::empty()
    }
}

pub open spec fn nat_sub(a: nat, b: nat) -> nat {
    if a >= b {
        (a - b) as nat
    } else {
        0
    }
}

/// The gold-fruit legend for `pc` pressed leaves, `pv` of them with markers.
pub open spec fn gold_text(pc: nat, pv: Seq<Seq<char>>, hp: nat, color: bool, width: int) -> Seq<char> {
    if pc == 0 {
        styled_line("no gold fruit: no pressed leaf yet"@, Style::Pressed, color)
    } else if pv.len() == 0 {
        styled_line(
            "gold fruit: "@ + hidden_marker_text(hp, "pressed leaf"@, "pressed leaves"@),
            Style::Pressed,
            color,
        )
    } else {
        styled_lines(wrapped_lines("gold fruit:"@, pv, width), Style::Pressed, color) + text_if(
            hp > 0,
            styled_line(hidden_marker_text(hp, "pressed leaf"@, "pressed leaves"@), Style::Pressed, color),
        )
    }
}

/// The green-leaves legend for `oc` ordinary leaves, `ov` of them with markers.
pub open spec fn green_text(oc: nat, ov: Seq<Seq<char>>, ho: nat, color: bool, width: int) -> Seq<char> {
    if oc == 0 {
        Seq::empty()
    } else if ov.len() == 0 {
        styled_line(
            "green leaves: "@ + hidden_marker_text(ho, "ordinary leaf"@, "ordinary leaves"@),
            Style::Ordinary,
            color,
        )
    } else {
        styled_lines(wrapped_lines("green leaves:"@, ov, width), Style::Ordinary, color) + text_if(
            ho > 0,
            styled_line(hidden_marker_text(ho, "ordinary leaf"@, "ordinary leaves"@), Style::Ordinary, color),
        )
    }
}

/// The gold-fruit legend is always shown (as "no gold fruit: ..." when no
/// leaf is pressed); the green-leaves legend is shown exactly when some
/// leaf is not pressed.
pub proof fn lemma_leaf_legends_present(
    pc: nat,
    pv: Seq<Seq<char>>,
    hp: nat,
    oc: nat,
    ov: Seq<Seq<char>>,
    ho: nat,
    color: bool,
    width: int,
)
    ensures
        gold_text(pc, pv, hp, color, width).len() > 0,
        green_text(oc, ov, ho, color, width).len() == 0 <==> oc == 0,
{
    if pv.len() > 0 {
        let ls = wrapped_lines("gold fruit:"@, pv, width);
        assert(ls.len() > 0);
        assert(styled_lines(ls, Style::Pressed, color).len() >= styled_line(ls.last(), Style::Pressed, color).len());
    }
    if oc > 0 && ov.len() > 0 {
        let ls = wrapped_lines("green leaves:"@, ov, width);
        assert(ls.len() > 0);
        assert(styled_lines(ls, Style::Ordinary, color).len() >= styled_line(ls.last(), Style::Ordinary, color).len());
    }
}

/// The gold-fruit, green-leaf and hidden-leaf legends.
pub open spec fn leaf_sections_text(leaves: Seq<(Seq<char>, bool)>, color: bool, width: int) -> Seq<char> {
    let pc = count_pressed(leaves);
    let oc = nat_sub(leaves.len(), pc);
    let pv = marker_values(leaves, true, marked(leaves.len()));
    let ov = marker_values(leaves, false, marked(leaves.len()));
    let hp = nat_sub(pc, pv.len());
    let ho = nat_sub(oc, ov.len());
    gold_text(pc, pv, hp, color, width) + green_text(oc, ov, ho, color, width) + text_if(
        hp + ho > 0,
        styled_lines(wrapped_lines(""@, seq![hidden_leaf_text(hp + ho)], width), Style::Plain, color),
    )
}

fn push_gold(out: &mut Vec<char>, pc: usize, pv: &Vec<String>, hp: usize, color: bool, width: usize)
    ensures
        final(out)@ == old(out)@ + gold_text(pc as nat, strings_view(pv@), hp as nat, color, width as int),
{
    let ghost o = out@;
    if pc == 0 {
        let t = chars_of("no gold fruit: no pressed leaf yet");
        push_styled_line(out, t.as_slice(), Style::Pressed, color);
    } else if pv.len() == 0 {
        let mut t = chars_of("gold fruit: ");
        let h = hidden_marker_message(hp, "pressed leaf", "pressed leaves");
        append(&mut t, h.as_slice());
        push_styled_line(out, t.as_slice(), Style::Pressed, color);
    } else {
        push_wrapped_values(out, "gold fruit:", pv.as_slice(), Style::Pressed, color, width);
        let ghost o1 = out@;
        if hp > 0 {
            let h = hidden_marker_message(hp, "pressed leaf", "pressed leaves");
            push_styled_line(out, h.as_slice(), Style::Pressed, color);
        }
        assert(out@ =~= o + gold_text(pc as nat, strings_view(pv@), hp as nat, color, width as int));
    }
}

fn push_green(out: &mut Vec<char>, oc: usize, ov: &Vec<String>, ho: usize, color: bool, width: usize)
    ensures
        final(out)@ == old(out)@ + green_text(oc as nat, strings_view(ov@), ho as nat, color, width as int),
{
    let ghost o = out@;
    if oc == 0 {
        assert(out@ =~= o + Seq::<char>::empty());
    } else if ov.len() == 0 {
        let mut t = chars_of("green leaves: ");
        let h = hidden_marker_message(ho, "ordinary leaf", "ordinary leaves");
        append(&mut t, h.as_slice());
        push_styled_line(out, t.as_slice(), Style::Ordinary, color);
    } else {
        push_wrapped_values(out, "green leaves:", ov.as_slice(), Style::Ordinary, color, width);
        if ho > 0 {
            let h = hidden_marker_message(ho, "ordinary leaf", "ordinary leaves");
            push_styled_line(out, h.as_slice(), Style::Ordinary, color);
        }
        assert(out@ =~= o + green_text(oc as nat, strings_view(ov@), ho as nat, color, width as int));
    }
}

fn collect_marker_values(leaves: &Vec<TreeLeaf>, want: bool) -> (r: Vec<String>)
    ensures
        strings_view(r@) == marker_values(leaf_pairs(leaves@), want, marked(leaves@.len())),
        r@.len() <= marked(leaves@.len()),
{
    let ghost lv = leaf_pairs(leaves@);
    let n = if leaves.len() < MARKER_COUNT {
        leaves.len()
    } else {
        MARKER_COUNT
    };
    let mut out: Vec<String> = Vec::new();
    let mut i: usize = 0;
    while i < n
        invariant
            0 <= i <= n,
            n == marked(leaves@.len()),
            n <= leaves@.len(),
            n <= MARKER_COUNT,
            lv == leaf_pairs(leaves@),
            strings_view(out@) == marker_values(lv, want, i as nat),
            out@.len() <= i,
        decreases n - i,
    {
        if leaves[i].pressed == want {
            let mut v: Vec<char> = Vec::new();
            v.push(marker_char(i));
            v.push(' ');
            push_str(&mut v, leaves[i].slug.as_str());
            let ghost before = strings_view(out@);
            assert(v@ =~= seq![marker_alphabet()[i as int], ' '] + lv[i as int].0);
            let e = string_of(v.as_slice());
            out.push(e);
            assert(strings_view(out@) =~= before.push(seq![marker_alphabet()[i as int], ' '] + lv[i as int].0));
        }
        i = i + 1;
    }
    out
}

proof fn lemma_count_pressed_le(v: Seq<(Seq<char>, bool)>)
    ensures
        count_pressed(v) <= v.len(),
    decreases v.len(),
{
    if v.len() > 0 {
        lemma_count_pressed_le(v.drop_last());
    }
}

/// Write the leaf legends: pressed leaves as gold fruit, the others as green
/// leaves, each with its marker, and a count of leaves beyond the markers.
#[verifier::rlimit(40)]
pub fn push_leaf_sections(out: &mut Vec<char>, model: &TreeModel, color: bool, width: usize)
    ensures
        final(out)@ == old(out)@ + leaf_sections_text(leaf_pairs(model.leaves@), color, width as int),
{
    let ghost o = out@;
    let ghost lv = leaf_pairs(model.leaves@);
    let pressed_count = model.pressed_count();
    let ordinary_count = model.leaf_count() - pressed_count;
    let pressed_values = collect_marker_values(&model.leaves, true);
    let ordinary_values = collect_marker_values(&model.leaves, false);
    let hidden_pressed = pressed_count.saturating_sub(pressed_values.len());
    let hidden_ordinary = ordinary_count.saturating_sub(ordinary_values.len());
    let ghost pv = strings_view(pressed_values@);
    let ghost ov = strings_view(ordinary_values@);
    push_gold(out, pressed_count, &pressed_values, hidden_pressed, color, width);
    let ghost o1 = out@;
    push_green(out, ordinary_count, &ordinary_values, hidden_ordinary, color, width);
    let ghost o2 = out@;
    let hidden = hidden_pressed + hidden_ordinary;
    if hidden > 0 {
        let msg = string_of(hidden_leaf_message(hidden).as_slice());
        let one = vec![msg];
        push_wrapped_values(out, "", one.as_slice(), Style::Plain, color, width);
        assert(strings_view(one@) =~= seq![hidden_leaf_text(hidden as nat)]);
    }
    proof {
        let pc = count_pressed(lv);
        assert(pv.len() == pressed_values@.len());
        assert(ov.len() == ordinary_values@.len());
        assert(hidden_pressed == nat_sub(pc, pv.len()));
        assert(hidden_ordinary == nat_sub(nat_sub(lv.len(), pc), ov.len()));
        assert(out@ =~= o + leaf_sections_text(lv, color, width as int));
    }
}


/// `n` copies of `p`.
pub open spec fn copies(p: Seq<char>, n: nat) -> Seq<Seq<char>> {
    Seq::new(n, |i: int| p)
}

pub open spec fn min_of(a: nat, b: nat) -> nat {
    if a < b {
        a
    } else {
        b
    }
}

/// The active-sprouts section: up to eight sprout glyphs and labels, then a
/// count of the rest.
pub open spec fn sprouts_text(sprouts: Seq<Seq<char>>, color: bool, width: int) -> Seq<char> {
    if sprouts.len() == 0 {
        Seq::empty()
    } else {
        let shown = min_of(sprouts.len(), 8);
        let hidden = nat_sub(sprouts.len(), shown);
        seq!['\n'] + styled_line("active sprouts:"@, Style::Sprout, color) + styled_line(
            "  "@ + crate::text::join(copies("\\|/"@, shown), "  "@),
            Style::Sprout,
            color,
        ) + styled_line("  "@ + crate::text::join(copies(" | "@, shown), "  "@), Style::Sprout, color)
            + styled_lines(wrapped_lines("  "@, sprouts.take(shown as int), width), Style::Sprout, color)
            + text_if(
            hidden > 0,
            styled_line("  + "@ + decimal(hidden) + " more active sprouts"@, Style::Sprout, color),
        )
    }
}

fn repeat_joined(p: &str, n: usize) -> (r: Vec<char>)
    ensures
        r@ == crate::text::join(copies(p@, n as nat), "  "@),
{
    let mut pieces: Vec<Vec<char>> = Vec::new();
    let mut i: usize = 0;
    while i < n
        invariant
            0 <= i <= n,
            crate::text::seqs(pieces@) == copies(p@, i as nat),
        decreases n - i,
    {
        let c = chars_of(p);
        let ghost before = crate::text::seqs(pieces@);
        pieces.push(c);
        assert(crate::text::seqs(pieces@) =~= before.push(p@));
        assert(crate::text::seqs(pieces@) =~= copies(p@, (i + 1) as nat));
        i = i + 1;
    }
    crate::text::join_chars(&pieces, chars_of("  ").as_slice())
}

fn first_strings(v: &Vec<String>, n: usize) -> (r: Vec<String>)
    requires
        n <= v@.len(),
    ensures
        strings_view(r@) == strings_view(v@).take(n as int),
{
    let mut out: Vec<String> = Vec::new();
    let mut i: usize = 0;
    while i < n
        invariant
            0 <= i <= n <= v@.len(),
            strings_view(out@) == strings_view(v@).take(i as int),
        decreases n - i,
    {
        let e = v[i].clone();
        assert(e@ == strings_view(v@)[i as int]);
        let ghost before = strings_view(out@);
        out.push(e);
        assert(strings_view(out@) =~= before.push(strings_view(v@)[i as int]));
        assert(strings_view(out@) =~= strings_view(v@).take(i + 1));
        i = i + 1;
    }
    out
}

pub fn push_sprouts(out: &mut Vec<char>, sprouts: &Vec<String>, color: bool, width: usize)
    ensures
        final(out)@ == old(out)@ + sprouts_text(strings_view(sprouts@), color, width as int),
{
    let ghost o = out@;
    let ghost sv = strings_view(sprouts@);
    if sprouts.len() == 0 {
        assert(out@ =~= o + Seq::<char>::empty());
        return;
    }
    out.push('\n');
    let t = chars_of("active sprouts:");
    push_styled_line(out, t.as_slice(), Style::Sprout, color);
    let shown = if sprouts.len() < 8 {
        sprouts.len()
    } else {
        8
    };
    let mut g = chars_of("  ");
    let gj = repeat_joined("\\|/", shown);
    append(&mut g, gj.as_slice());
    push_styled_line(out, g.as_slice(), Style::Sprout, color);
    let mut st = chars_of("  ");
    let sj = repeat_joined(" | ", shown);
    append(&mut st, sj.as_slice());
    push_styled_line(out, st.as_slice(), Style::Sprout, color);
    let labels = first_strings(sprouts, shown);
    push_wrapped_values(out, "  ", labels.as_slice(), Style::Sprout, color, width);
    let ghost o4 = out@;
    let hidden = sprouts.len() - shown;
    if hidden > 0 {
        let mut m = chars_of("  + ");
        push_decimal(&mut m, hidden);
        push_str(&mut m, " more active sprouts");
        push_styled_line(out, m.as_slice(), Style::Sprout, color);
    }
    assert(out@ =~= o + sprouts_text(sv, color, width as int));
}

/// The fallen section: up to eight fallen slugs, then a count of the rest.
pub open spec fn fallen_text(fallen: Seq<Seq<char>>, color: bool, width: int) -> Seq<char> {
    if fallen.len() == 0 {
        Seq::empty()
    } else {
        let shown = min_of(fallen.len(), 8);
        let hidden = nat_sub(fallen.len(), shown);
        seq!['\n'] + styled_lines(wrapped_lines("fallen:"@, fallen.take(shown as int), width), Style::Fallen, color)
            + text_if(
            hidden > 0,
            styled_line("+ "@ + decimal(hidden) + " more fallen items"@, Style::Fallen, color),
        )
    }
}

pub fn push_fallen(out: &mut Vec<char>, fallen: &Vec<String>, color: bool, width: usize)
    ensures
        final(out)@ == old(out)@ + fallen_text(strings_view(fallen@), color, width as int),
{
    let ghost o = out@;
    if fallen.len() == 0 {
        assert(out@ =~= o + Seq::<char>::empty());
        return;
    }
    out.push('\n');
    let shown = if fallen.len() < 8 {
        fallen.len()
    } else {
        8
    };
    let items = first_strings(fallen, shown);
    push_wrapped_values(out, "fallen:", items.as_slice(), Style::Fallen, color, width);
    let hidden = fallen.len() - shown;
    if hidden > 0 {
        let mut m = chars_of("+ ");
        push_decimal(&mut m, hidden);
        push_str(&mut m, " more fallen items");
        push_styled_line(out, m.as_slice(), Style::Fallen, color);
    }
    assert(out@ =~= o + fallen_text(strings_view(fallen@), color, width as int));
}

/// Where a canvas row ends once trailing blank cells are dropped.
pub open spec fn row_end(cells: Seq<Cell>) -> int
    decreases cells.len(),
{
    if cells.len() == 0 {
        0
    } else if cells.last().ch != ' ' {
        cells.len() as int
    } else {
        row_end(cells.drop_last())
    }
}

/// The text of `cells`, switching colour codes only where the style changes
/// (when `color` is on), with the style left open at the end.
pub open spec fn cells_fold(cells: Seq<Cell>, color: bool) -> (Seq<char>, Style)
    decreases cells.len(),
{
    if cells.len() == 0 {
        (Seq::empty(), Style::Plain)
    } else {
        let (text, active) = cells_fold(cells.drop_last(), color);
        let cell = cells.last();
        let switch = if color && cell.style != active {
            text_if(active != Style::Plain, reset()) + text_if(cell.style != Style::Plain, ansi(cell.style))
        } else {
            Seq::empty()
        };
        (
            text + switch + seq![cell.ch],
            if color && cell.style != active {
                cell.style
            } else {
                active
            },
        )
    }
}

/// A canvas row as text: trailing blanks dropped, colours closed at the end.
pub open spec fn row_text(cells: Seq<Cell>, color: bool) -> Seq<char> {
    let (text, active) = cells_fold(cells.take(row_end(cells)), color);
    text + text_if(color && active != Style::Plain, reset())
}

proof fn lemma_row_end_bounds(cells: Seq<Cell>)
    ensures
        0 <= row_end(cells) <= cells.len(),
        forall|k: int| row_end(cells) <= k < cells.len() ==> cells[k].ch == ' ',
        row_end(cells) > 0 ==> cells[row_end(cells) - 1].ch != ' ',
    decreases cells.len(),
{
    if cells.len() > 0 && cells.last().ch == ' ' {
        lemma_row_end_bounds(cells.drop_last());
        assert forall|k: int| row_end(cells) <= k < cells.len() implies cells[k].ch == ' ' by {
            if k < cells.len() - 1 {
                assert(cells.drop_last()[k] == cells[k]);
            }
        }
    }
}

pub fn line_to_string(line: &[Cell], color: bool) -> (r: Vec<char>)
    ensures
        r@ == row_text(line@, color),
{
    let mut end = line.len();
    assert(line@.take(line@.len() as int) =~= line@);
    while end > 0 && line[end - 1].ch == ' '
        invariant
            end <= line@.len(),
            row_end(line@) == row_end(line@.take(end as int)),
        decreases end,
    {
        assert(line@.take(end as int).drop_last() =~= line@.take(end - 1));
        end = end - 1;
    }
    proof {
        if end > 0 {
            assert(line@.take(end as int).last() == line@[end - 1]);
        }
        assert(line@.take(line@.len() as int) =~= line@);
    }
    let ghost cells = line@.take(end as int);
    assert(row_end(line@) == end);
    let mut out: Vec<char> = Vec::new();
    let mut active = Style::Plain;
    let mut i: usize = 0;
    while i < end
        invariant
            0 <= i <= end <= line@.len(),
            cells == line@.take(end as int),
            cells_fold(cells.take(i as int), color) == (out@, active),
        decreases end - i,
    {
        let cell = line[i];
        assert(cells.take(i + 1).drop_last() =~= cells.take(i as int));
        assert(cells.take(i + 1).last() == cell);
        let ghost t0 = out@;
        if color && cell.style != active {
            if active != Style::Plain {
                push_str(&mut out, "\x1b[0m");
            }
            if cell.style != Style::Plain {
                push_str(&mut out, cell.style.ansi_code());
            }
            active = cell.style;
        }
        out.push(cell.ch);
        proof {
            reveal_strlit("\x1b[0m");
            let (ft, fa) = cells_fold(cells.take(i + 1), color);
            assert(out@ =~= ft);
        }
        i = i + 1;
    }
    assert(cells.take(end as int) =~= cells);
    if color && active != Style::Plain {
        push_str(&mut out, "\x1b[0m");
    }
    out
}

/// The whole canvas as text, one row per line.
pub open spec fn canvas_text(rows: Seq<Seq<Cell>>, color: bool) -> Seq<char>
    decreases rows.len(),
{
    if rows.len() == 0 {
        Seq::empty()
    } else {
        canvas_text(rows.drop_last(), color) + row_text(rows.last(), color) + seq!['\n']
    }
}

/// `leaf tree | leaves N | pressed N | sprouts N | fallen N`.
pub open spec fn header_text(leaves: nat, pressed: nat, sprouts: nat, fallen: nat) -> Seq<char> {
    "leaf tree | leaves "@ + decimal(leaves) + " | pressed "@ + decimal(pressed) + " | sprouts "@
        + decimal(sprouts) + " | fallen "@ + decimal(fallen)
}

/// The full picture: the header, the canvas, then the sprout, leaf and
/// fallen sections.
pub open spec fn tree_text(
    leaves: Seq<(Seq<char>, bool)>,
    sprouts: Seq<Seq<char>>,
    fallen: Seq<Seq<char>>,
    rows: Seq<Seq<Cell>>,
    color: bool,
    width: int,
) -> Seq<char> {
    styled_line(
        header_text(leaves.len(), count_pressed(leaves), sprouts.len(), fallen.len()),
        Style::Foliage,
        color,
    ) + seq!['\n'] + canvas_text(rows, color) + seq!['\n'] + sprouts_text(sprouts, color, width)
        + leaf_sections_text(leaves, color, width) + fallen_text(fallen, color, width)
}

/// Render a drawn canvas with the model's header and legends.
pub fn render_text(model: &TreeModel, color: bool, width: usize, canvas: &Vec<Vec<Cell>>) -> (r: String)
    ensures
        r@ == tree_text(
            leaf_pairs(model.leaves@),
            strings_view(model.sprouts@),
            strings_view(model.fallen@),
            canvas_view(canvas@),
            color,
            width as int,
        ),
{
    let ghost rows = canvas_view(canvas@);
    let mut out: Vec<char> = Vec::new();
    let mut h = chars_of("leaf tree | leaves ");
    push_decimal(&mut h, model.leaf_count());
    push_str(&mut h, " | pressed ");
    push_decimal(&mut h, model.pressed_count());
    push_str(&mut h, " | sprouts ");
    push_decimal(&mut h, model.sprouts.len());
    push_str(&mut h, " | fallen ");
    push_decimal(&mut h, model.fallen.len());
    push_styled_line(&mut out, h.as_slice(), Style::Foliage, color);
    out.push('\n');
    let ghost o1 = out@;
    let mut y: usize = 0;
    while y < canvas.len()
        invariant
            0 <= y <= canvas@.len(),
            rows == canvas_view(canvas@),
            out@ == o1 + canvas_text(rows.take(y as int), color),
        decreases canvas@.len() - y,
    {
        let l = line_to_string(canvas[y].as_slice(), color);
        append(&mut out, l.as_slice());
        out.push('\n');
        assert(rows.take(y + 1).drop_last() =~= rows.take(y as int));
        assert(rows.take(y + 1).last() == canvas@[y as int]@);
        assert(out@ =~= o1 + canvas_text(rows.take(y + 1), color));
        y = y + 1;
    }
    assert(rows.take(y as int) =~= rows);
    out.push('\n');
    push_sprouts(&mut out, &model.sprouts, color, width);
    push_leaf_sections(&mut out, model, color, width);
    push_fallen(&mut out, &model.fallen, color, width);
    proof {
        assert(out@ =~= tree_text(
            leaf_pairs(model.leaves@),
            strings_view(model.sprouts@),
            strings_view(model.fallen@),
            rows,
            color,
            width as int,
        ));
    }
    string_of(out.as_slice())
}

/// The drawing width: the terminal width, at most 112 columns.
pub open spec fn render_width_of(width: int) -> int {
    if width > 112 {
        112
    } else {
        width
    }
}

pub fn render_width(width: usize) -> (r: usize)
    ensures
        r == render_width_of(width as int),
{
    if width > 112 {
        112
    } else {
        width
    }
}

/// Below this many columns the tree art is not drawn: the output is the
/// compact summary instead.
pub const COMPACT_BELOW: usize = 32;

/// Whether a drawing width shows the tree art.
pub open spec fn shows_tree_art(width: int) -> bool {
    width >= COMPACT_BELOW
}

/// The compact summary: the header line, then the sprouts, leaf and fallen
/// legends, with no tree art.
pub open spec fn compact_text(
    leaves: Seq<(Seq<char>, bool)>,
    sprouts: Seq<Seq<char>>,
    fallen: Seq<Seq<char>>,
    color: bool,
    width: int,
) -> Seq<char> {
    styled_line(
        header_text(leaves.len(), count_pressed(leaves), sprouts.len(), fallen.len()),
        Style::Foliage,
        color,
    ) + seq!['\n'] + sprouts_text(sprouts, color, width) + leaf_sections_text(leaves, color, width)
        + fallen_text(fallen, color, width)
}

/// The compact summary of a model at `width` columns.
pub fn render_compact(model: &TreeModel, color: bool, width: usize) -> (r: String)
    ensures
        r@ == compact_text(
            leaf_pairs(model.leaves@),
            strings_view(model.sprouts@),
            strings_view(model.fallen@),
            color,
            width as int,
        ),
{
    let mut out: Vec<char> = Vec::new();
    let mut h = chars_of("leaf tree | leaves ");
    push_decimal(&mut h, model.leaf_count());
    push_str(&mut h, " | pressed ");
    push_decimal(&mut h, model.pressed_count());
    push_str(&mut h, " | sprouts ");
    push_decimal(&mut h, model.sprouts.len());
    push_str(&mut h, " | fallen ");
    push_decimal(&mut h, model.fallen.len());
    push_styled_line(&mut out, h.as_slice(), Style::Foliage, color);
    out.push('\n');
    push_sprouts(&mut out, &model.sprouts, color, width);
    push_leaf_sections(&mut out, model, color, width);
    push_fallen(&mut out, &model.fallen, color, width);
    proof {
        assert(out@ =~= compact_text(
            leaf_pairs(model.leaves@),
            strings_view(model.sprouts@),
            strings_view(model.fallen@),
            color,
            width as int,
        ));
    }
    string_of(out.as_slice())
}

/// What `leaf tree` prints for a terminal `options.width` columns wide: the
/// compact summary when the drawing width is under [`COMPACT_BELOW`], else
/// the header, the drawn canvas and the legends.
pub open spec fn tree_output(
    leaves: Seq<(Seq<char>, bool)>,
    sprouts: Seq<Seq<char>>,
    fallen: Seq<Seq<char>>,
    rows: Seq<Seq<Cell>>,
    color: bool,
    terminal_width: int,
) -> Seq<char> {
    let w = render_width_of(terminal_width);
    if shows_tree_art(w) {
        tree_text(leaves, sprouts, fallen, rows, color, w)
    } else {
        compact_text(leaves, sprouts, fallen, color, w)
    }
}

/// Render the tree output for `options`; `canvas` is the picture drawn at
/// `render_width(options.width)` columns (it is not shown when the width is
/// under [`COMPACT_BELOW`]).
pub fn render(model: &TreeModel, options: &TreeRenderOptions, canvas: &Vec<Vec<Cell>>) -> (r: String)
    ensures
        r@ == tree_output(
            leaf_pairs(model.leaves@),
            strings_view(model.sprouts@),
            strings_view(model.fallen@),
            canvas_view(canvas@),
            options.color,
            options.width as int,
        ),
{
    let width = render_width(options.width);
    if width < COMPACT_BELOW {
        render_compact(model, options.color, width)
    } else {
        render_text(model, options.color, width, canvas)
    }
}

/// The leaf counts of the growth demo, from small to saturated.
pub const DEMO_LEAF_COUNTS: [usize; 6] = [0, 3, 10, 20, 50, 100];

/// The synthetic demo leaf `i` (from 1): `demo-leaf-NNN`, pressed every
/// third.
pub open spec fn demo_leaf(i: nat) -> (Seq<char>, bool) {
    ("demo-leaf-"@ + crate::text::zero_pad(i, 3), i % 3 == 0)
}

/// A synthetic workspace of `count` leaves for the growth demo, with no
/// sprouts or fallen items.
pub fn demo_model(count: usize) -> (m: TreeModel)
    requires
        count <= 1000,
    ensures
        leaf_pairs(m.leaves@) == Seq::new(count as nat, |k: int| demo_leaf((k + 1) as nat)),
        m.sprouts@.len() == 0,
        m.fallen@.len() == 0,
{
    let mut leaves: Vec<TreeLeaf> = Vec::new();
    let mut i: usize = 0;
    while i < count
        invariant
            i <= count <= 1000,
            leaf_pairs(leaves@) == Seq::new(i as nat, |k: int| demo_leaf((k + 1) as nat)),
        decreases count - i,
    {
        let mut name = chars_of("demo-leaf-");
        let digits = crate::text::zero_padded((i + 1) as u64, 3);
        append(&mut name, digits.as_slice());
        proof {
            reveal_strlit("demo-leaf-");
        }
        let ghost before = leaf_pairs(leaves@);
        assert(name@ == "demo-leaf-"@ + crate::text::zero_pad((i + 1) as nat, 3));
        let leaf = TreeLeaf { slug: string_of(name.as_slice()), pressed: (i + 1) % 3 == 0 };
        assert((leaf.slug@, leaf.pressed) == demo_leaf((i + 1) as nat));
        leaves.push(leaf);
        assert(leaf_pairs(leaves@) =~= before.push(demo_leaf((i + 1) as nat)));
        assert(leaf_pairs(leaves@) =~= Seq::new((i + 1) as nat, |k: int| demo_leaf((k + 1) as nat)));
        i = i + 1;
    }
    TreeModel { leaves, sprouts: Vec::new(), fallen: Vec::new() }
}

/// Painting never changes the size of a canvas.
pub proof fn lemma_paint_keeps_shape(c: Seq<Seq<Cell>>, puts: Seq<(int, int, Cell)>)
    ensures
        paint(c, puts).len() == c.len(),
        forall|y: int| 0 <= y < c.len() ==> #[trigger] paint(c, puts)[y].len() == c[y].len(),
    decreases puts.len(),
{
    if puts.len() > 0 {
        lemma_paint_keeps_shape(c, puts.drop_last());
    }
}

/// The tree art fits the terminal: every row of a drawn canvas is exactly
/// the drawing width, which never exceeds the terminal width.
pub proof fn lemma_tree_art_fits_terminal(
    leaves: Seq<(Seq<char>, bool)>,
    sprouts: Seq<Seq<char>>,
    fallen: Seq<Seq<char>>,
    terminal_width: nat,
    branch_layers: nat,
    trunk_height: nat,
    foliage_budget: nat,
    crown_cells: Seq<(usize, usize)>,
)
    ensures
        render_width_of(terminal_width as int) <= terminal_width,
        render_width_of(terminal_width as int) <= 112,
        ({
            let rows = tree_rows(
                leaves,
                sprouts,
                fallen,
                render_width_of(terminal_width as int) as nat,
                branch_layers,
                trunk_height,
                foliage_budget,
                crown_cells,
            );
            forall|y: int| 0 <= y < rows.len() ==> #[trigger] rows[y].len() == render_width_of(terminal_width as int)
        }),
{
    let w = render_width_of(terminal_width as int) as nat;
    let crown_height = 6 + branch_layers * 3;
    let kept = foliage_kept(crown_cells, foliage_budget as int, seed_of(leaves, sprouts, fallen));
    let c0 = blank_rows(w, crown_height + trunk_height);
    let p1 = scored_puts(kept, Style::Foliage);
    let c1 = paint(c0, p1);
    let p2 = tree_frame_puts((w / 2) as int, crown_height as int, trunk_height as int, branch_layers);
    let c2 = paint(c1, p2);
    let p3 = marker_puts(leaves, sprouts, fallen, positions_of(kept));
    lemma_paint_keeps_shape(c0, p1);
    lemma_paint_keeps_shape(c1, p2);
    lemma_paint_keeps_shape(c2, p3);
    assert forall|y: int| 0 <= y < paint(c2, p3).len() implies #[trigger] paint(c2, p3)[y].len() == w by {
        assert(c0[y].len() == w);
        assert(c1[y].len() == w);
        assert(c2[y].len() == w);
    }
}

/// Below [`COMPACT_BELOW`] columns the output is the compact summary, with
/// no tree art.
pub proof fn lemma_narrow_terminal_is_compact(
    leaves: Seq<(Seq<char>, bool)>,
    sprouts: Seq<Seq<char>>,
    fallen: Seq<Seq<char>>,
    rows: Seq<Seq<Cell>>,
    color: bool,
    terminal_width: int,
)
    requires
        terminal_width < COMPACT_BELOW,
    ensures
        tree_output(leaves, sprouts, fallen, rows, color, terminal_width) == compact_text(
            leaves,
            sprouts,
            fallen,
            color,
            terminal_width,
        ),
{
}

/// A blank canvas of `height` rows of `width` cells.
pub fn blank_canvas(width: usize, height: usize) -> (c: Vec<Vec<Cell>>)
    ensures
        canvas_view(c@) == Seq::new(height as nat, |y: int| Seq::new(width as nat, |x: int| Cell { ch: ' ', style: Style::Plain })),
{
    let ghost row = Seq::new(width as nat, |x: int| Cell { ch: ' ', style: Style::Plain });
    let mut c: Vec<Vec<Cell>> = Vec::new();
    let mut y: usize = 0;
    while y < height
        invariant
            0 <= y <= height,
            row == Seq::new(width as nat, |x: int| Cell { ch: ' ', style: Style::Plain }),
            canvas_view(c@) == Seq::new(y as nat, |k: int| row),
        decreases height - y,
    {
        let mut r: Vec<Cell> = Vec::new();
        let mut x: usize = 0;
        while x < width
            invariant
                0 <= x <= width,
                r@ == Seq::new(x as nat, |k: int| Cell { ch: ' ', style: Style::Plain }),
            decreases width - x,
        {
            r.push(Cell::blank());
            assert(r@ =~= Seq::new((x + 1) as nat, |k: int| Cell { ch: ' ', style: Style::Plain }));
            x = x + 1;
        }
        assert(x == width);
        assert(r@ =~= row);
        let ghost before = canvas_view(c@);
        c.push(r);
        assert(canvas_view(c@) =~= before.push(row));
        assert(canvas_view(c@) =~= Seq::new((y + 1) as nat, |k: int| row));
        y = y + 1;
    }
    c
}


pub open spec fn blank_rows(width: nat, height: nat) -> Seq<Seq<Cell>> {
    Seq::new(height, |y: int| Seq::new(width, |x: int| Cell { ch: ' ', style: Style::Plain }))
}

/// The tree on a blank `width`-column canvas: the crown is `6 + 3 *
/// branch_layers` rows over a trunk of `trunk_height`; foliage goes on the
/// given crown positions (at most `foliage_budget` of them, seeded by the
/// model), then the branches and trunk, then the leaf markers on the foliage.
pub open spec fn tree_rows(
    leaves: Seq<(Seq<char>, bool)>,
    sprouts: Seq<Seq<char>>,
    fallen: Seq<Seq<char>>,
    width: nat,
    branch_layers: nat,
    trunk_height: nat,
    foliage_budget: nat,
    crown_cells: Seq<(usize, usize)>,
) -> Seq<Seq<Cell>> {
    let crown_height = 6 + branch_layers * 3;
    let kept = foliage_kept(crown_cells, foliage_budget as int, seed_of(leaves, sprouts, fallen));
    let c1 = paint(blank_rows(width, crown_height + trunk_height), scored_puts(kept, Style::Foliage));
    let c2 = paint(c1, tree_frame_puts((width / 2) as int, crown_height as int, trunk_height as int, branch_layers));
    paint(c2, marker_puts(leaves, sprouts, fallen, positions_of(kept)))
}

proof fn lemma_foliage_kept_len(cells: Seq<(usize, usize)>, budget: int, seed: u64)
    requires
        budget >= 0,
    ensures
        foliage_kept(cells, budget, seed).len() <= cells.len(),
{
    if budget != 0 {
        let sc = scored_crown(cells, start_state(seed));
        lemma_sorted_scored_len(sc);
        assert(sc.len() == cells.len());
    }
}

/// Draw the whole tree canvas.
pub fn draw_tree(
    model: &TreeModel,
    width: usize,
    branch_layers: usize,
    trunk_height: usize,
    foliage_budget: usize,
    crown_cells: &[(usize, usize)],
) -> (c: Vec<Vec<Cell>>)
    requires
        branch_layers <= 1000,
        trunk_height <= 1_000_000,
        width <= 1_000_000,
        crown_cells@.len() * 2 + 2 <= usize::MAX,
    ensures
        canvas_view(c@) == tree_rows(
            leaf_pairs(model.leaves@),
            strings_view(model.sprouts@),
            strings_view(model.fallen@),
            width as nat,
            branch_layers as nat,
            trunk_height as nat,
            foliage_budget as nat,
            crown_cells@,
        ),
{
    let crown_height = 6 + branch_layers * 3;
    let height = crown_height + trunk_height;
    let center = width / 2;
    let mut canvas = blank_canvas(width, height);
    assert(canvas_view(canvas@) =~= blank_rows(width as nat, height as nat));
    let seed = model.stable_seed();
    let spots = place_foliage(&mut canvas, crown_cells, foliage_budget, seed);
    draw_branches_and_trunk(&mut canvas, center, crown_height, trunk_height, branch_layers);
    proof {
        lemma_foliage_kept_len(crown_cells@, foliage_budget as int, seed);
    }
    draw_markers(&mut canvas, model, spots.as_slice());
    canvas
}

} // verus!
