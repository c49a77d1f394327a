//! The horizontal packer.
use vstd::prelude::*;
use crate::glue::{governing_order, GlueOrder, GlueRatio, GlueSign, GlueTotals, Scaled, MAX_DIMEN};
use crate::item::{
    dim_ok, is_pass_through, item_ok, lemma_simple_measure_bounds, list_ok, max, measure_simple, simple_dims, simple_measure,
    Axis, Item, PackedBox, Rule, RuleDim, MAX_LIST_LEN,
};
use crate::badness::UNSETTABLE_BAD;
use crate::setting::{
    requested_size, glue_setting, glue_setting_spec, Diagnostic, DiagnosticKind, GlueSetting, PackConfig, PackMode,
};

verus! {

/// The items of `s` that stay in a horizontal box when pass-through
/// material is moved out.
pub open spec fn kept_items(s: Seq<Item>) -> Seq<Item>
    decreases s.len(),
{
    if s.len() == 0 {
        Seq::empty()
    } else if is_pass_through(s.last()) {
        kept_items(s.drop_last())
    } else {
        kept_items(s.drop_last()).push(s.last())
    }
}

/// The material that moves out of a horizontal box, in order: insertions
/// and marks as they are, the contents of each adjustment spliced in.
pub open spec fn moved_material(s: Seq<Item>) -> Seq<Item>
    decreases s.len(),
{
    if s.len() == 0 {
        Seq::empty()
    } else {
        let m = moved_material(s.drop_last());
        match s.last() {
            Item::Adjustment(v) => m + v@,
            Item::Insertion(_) => m.push(s.last()),
            Item::Mark(_) => m.push(s.last()),
            _ => m,
        }
    }
}

/// Moves the pass-through items of `items` onto the end of `sink` and
/// returns the rest, in order.
fn split_pass_through(items: Vec<Item>, sink: &mut Vec<Item>) -> (kept: Vec<Item>)
    ensures
        kept@ == kept_items(items@),
        final(sink)@ == old(sink)@ + moved_material(items@),
{
    let ghost all = items@;
    let mut kept: Vec<Item> = Vec::new();
    for it in iter: items.into_iter()
        invariant
            iter.seq() == all,
            kept@ == kept_items(all.take(iter.index())),
            sink@ == old(sink)@ + moved_material(all.take(iter.index())),
    {
        assert(all.take(iter.index() + 1).drop_last() =~= all.take(iter.index()));
        match it {
            Item::Adjustment(mut v) => {
                sink.append(&mut v);
            }
            Item::Insertion(v) => {
                sink.push(Item::Insertion(v));
            }
            Item::Mark(m) => {
                sink.push(Item::Mark(m));
            }
            other => {
                kept.push(other);
            }
        }
    }
    assert(all.take(all.len() as int) =~= all);
    kept
}

/// Natural width, height and depth of a horizontal list, with its per-order
/// stretch and shrink totals.
#[derive(Clone, Copy, Debug, PartialEq, Eq, Structural)]
pub struct HTotals {
    pub width: Scaled,
    pub height: Scaled,
    pub depth: Scaled,
    pub stretch: GlueTotals,
    pub shrink: GlueTotals,
}

pub open spec fn htotals_zero() -> HTotals {
    HTotals {
        width: 0,
        height: 0,
        depth: 0,
        stretch: GlueTotals::zero_spec(),
        shrink: GlueTotals::zero_spec(),
    }
}

/// How one item changes the totals of a horizontal list: glyphs, boxes,
/// rules and kerns add their width and may raise the height and depth (a
/// box by its shift); glue adds its natural width and its stretch and
/// shrink to the totals of their orders, and leader glue may raise the
/// height and depth; a discretionary counts as its no-break text; other
/// items add nothing.
pub open spec fn hlist_step(acc: HTotals, it: Item) -> HTotals {
    match it {
        Item::Glue(g) => HTotals {
            width: (acc.width + g.width) as i64,
            height: match g.leader {
                Some(l) => max(acc.height as int, l.height as int) as i64,
                None => acc.height,
            },
            depth: match g.leader {
                Some(l) => max(acc.depth as int, l.depth as int) as i64,
                None => acc.depth,
            },
            stretch: acc.stretch.add_spec(g.stretch_order, g.stretch as int),
            shrink: acc.shrink.add_spec(g.shrink_order, g.shrink as int),
        },
        Item::Discretionary(d) => {
            let m = simple_measure(d.no_break@);
            HTotals {
                width: (acc.width + m.0) as i64,
                height: max(acc.height as int, m.1) as i64,
                depth: max(acc.depth as int, m.2) as i64,
                ..acc
            }
        },
        Item::Char(_) | Item::Ligature(_) | Item::Box(_) | Item::Rule(_) | Item::Kern(_) => {
            let m = simple_dims(it);
            HTotals {
                width: (acc.width + m.0) as i64,
                height: max(acc.height as int, m.1) as i64,
                depth: max(acc.depth as int, m.2) as i64,
                ..acc
            }
        },
        _ => acc,
    }
}

/// The totals of a horizontal list, item by item from the left.
pub open spec fn hlist_totals(s: Seq<Item>) -> HTotals
    decreases s.len(),
{
    if s.len() == 0 {
        htotals_zero()
    } else {
        hlist_step(hlist_totals(s.drop_last()), s.last())
    }
}

/// The totals after `n` items stay within what `n` dimensions can add up to.
pub open spec fn htotals_within(t: HTotals, n: int) -> bool {
    &&& -n * MAX_DIMEN <= t.width <= n * MAX_DIMEN
    &&& t.stretch.bounded_by(n * MAX_DIMEN)
    &&& t.shrink.bounded_by(n * MAX_DIMEN)
    &&& 0 <= t.height <= 2 * MAX_DIMEN
    &&& 0 <= t.depth <= 2 * MAX_DIMEN
}

/// One more item keeps the totals within what one more dimension can add.
pub proof fn lemma_hlist_step_within(acc: HTotals, it: Item, n: int)
    requires
        0 <= n < 4 * MAX_LIST_LEN,
        htotals_within(acc, n),
        item_ok(it),
    ensures
        htotals_within(hlist_step(acc, it), n + 1),
{
    if let Item::Discretionary(d) = it {
        lemma_simple_measure_bounds(d.no_break@);
    }
}

/// The totals of a list that packers accept stay within range.
pub proof fn lemma_hlist_totals_within(s: Seq<Item>)
    requires
        list_ok(s),
    ensures
        htotals_within(hlist_totals(s), s.len() as int),
    decreases s.len(),
{
    if s.len() > 0 {
        let t = s.drop_last();
        assert forall|i: int| 0 <= i < t.len() implies item_ok(#[trigger] t[i]) by {
            assert(t[i] == s[i]);
        }
        lemma_hlist_totals_within(t);
        assert(item_ok(s[s.len() - 1]));
        lemma_hlist_step_within(hlist_totals(t), s.last(), t.len() as int);
    }
}

pub(crate) fn hlist_add(acc: &mut HTotals, it: &Item, Ghost(n): Ghost<int>)
    requires
        0 <= n < 4 * MAX_LIST_LEN,
        htotals_within(*old(acc), n),
        item_ok(*it),
    ensures
        *final(acc) == hlist_step(*old(acc), *it),
        htotals_within(*final(acc), n + 1),
{
    match it {
        Item::Glue(g) => {
            acc.width = acc.width + g.width;
            if let Some(l) = &g.leader {
                if l.height > acc.height {
                    acc.height = l.height;
                }
                if l.depth > acc.depth {
                    acc.depth = l.depth;
                }
            }
            acc.stretch.add(g.stretch_order, g.stretch);
            acc.shrink.add(g.shrink_order, g.shrink);
        },
        Item::Discretionary(d) => {
            let (w, h, dp) = measure_simple(&d.no_break);
            acc.width = acc.width + w;
            if h > acc.height {
                acc.height = h;
            }
            if dp > acc.depth {
                acc.depth = dp;
            }
        },
        Item::Char(_) | Item::Ligature(_) | Item::Box(_) | Item::Rule(_) | Item::Kern(_) => {
            let (w, h, dp): (i64, i64, i64) = match it {
                Item::Char(g) => (g.width, g.height, g.depth),
                Item::Ligature(g) => (g.width, g.height, g.depth),
                Item::Box(b) => (b.width, b.height - b.shift, b.depth + b.shift),
                Item::Rule(r) => (
                    match r.width { RuleDim::Fixed(x) => x, RuleDim::Running => 0 },
                    match r.height { RuleDim::Fixed(x) => x, RuleDim::Running => 0 },
                    match r.depth { RuleDim::Fixed(x) => x, RuleDim::Running => 0 },
                ),
                Item::Kern(k) => (*k, 0, 0),
                _ => (0, 0, 0),
            };
            acc.width = acc.width + w;
            if h > acc.height {
                acc.height = h;
            }
            if dp > acc.depth {
                acc.depth = dp;
            }
        },
        _ => {},
    }
}

/// Measures a horizontal list.
pub fn measure_hlist(items: &Vec<Item>) -> (t: HTotals)
    requires
        list_ok(items@),
    ensures
        t == hlist_totals(items@),
        htotals_within(t, items@.len() as int),
{
    let mut t = HTotals {
        width: 0,
        height: 0,
        depth: 0,
        stretch: GlueTotals::zero(),
        shrink: GlueTotals::zero(),
    };
    let mut i: usize = 0;
    while i < items.len()
        invariant
            list_ok(items@),
            0 <= i <= items@.len(),
            t == hlist_totals(items@.take(i as int)),
            htotals_within(t, i as int),
        decreases items@.len() - i,
    {
        assert(items@.take(i as int + 1).drop_last() =~= items@.take(i as int));
        assert(item_ok(items@[i as int]));
        hlist_add(&mut t, &items[i], Ghost(i as int));
        i = i + 1;
    }
    assert(items@.take(items@.len() as int) =~= items@);
    t
}

/// The result of packing a list.
#[derive(Debug, PartialEq)]
pub struct PackResult {
    pub boxed: PackedBox,
    pub diagnostic: Option<Diagnostic>,
    /// The badness of the box (zero where its glue was set at an infinite order).
    pub badness: i64,
}

/// The rule appended to an overfull horizontal box.
pub open spec fn overfull_rule_item(width: Scaled) -> Item {
    Item::Rule(Rule { width: RuleDim::Fixed(width), height: RuleDim::Running, depth: RuleDim::Running })
}

/// The glue setting of a horizontal box packed from `items`.
pub open spec fn hpack_setting(items: Seq<Item>, target: Scaled, mode: PackMode, cfg: PackConfig) -> GlueSetting {
    let t = hlist_totals(items);
    glue_setting_spec(
        t.width as int,
        t.stretch,
        t.shrink,
        target as int,
        mode,
        kept_items(items).len() > 0,
        Axis::Horizontal,
        cfg,
    )
}

/// What `hpack` returns: a horizontal box whose width and glue setting are
/// `hpack_setting`, whose height and depth are those of the list, and whose
/// contents are the kept items followed by the overfull rule when one is due.
pub open spec fn hpack_post(items: Seq<Item>, target: Scaled, mode: PackMode, cfg: PackConfig, r: PackResult) -> bool {
    let t = hlist_totals(items);
    let kept = kept_items(items);
    let s = hpack_setting(items, target, mode, cfg);
    &&& r.boxed.axis == Axis::Horizontal
    &&& r.boxed.width == s.size
    &&& r.boxed.height == t.height
    &&& r.boxed.depth == t.depth
    &&& r.boxed.shift == 0
    &&& r.boxed.glue_sign == s.sign
    &&& r.boxed.glue_order == s.order
    &&& r.boxed.glue_set == s.ratio
    &&& r.badness == s.badness
    &&& r.diagnostic == s.diagnostic
    &&& r.boxed.contents@ == if s.mark_overfull { kept.push(overfull_rule_item(cfg.overfull_rule)) } else { kept }
}

/// Two pack results that agree in every field, contents included.
pub open spec fn same_pack(r1: PackResult, r2: PackResult) -> bool {
    &&& r1.boxed.axis == r2.boxed.axis
    &&& r1.boxed.width == r2.boxed.width
    &&& r1.boxed.height == r2.boxed.height
    &&& r1.boxed.depth == r2.boxed.depth
    &&& r1.boxed.shift == r2.boxed.shift
    &&& r1.boxed.glue_sign == r2.boxed.glue_sign
    &&& r1.boxed.glue_order == r2.boxed.glue_order
    &&& r1.boxed.glue_set == r2.boxed.glue_set
    &&& r1.boxed.contents@ == r2.boxed.contents@
    &&& r1.badness == r2.badness
    &&& r1.diagnostic == r2.diagnostic
}

/// Horizontal packing is a function of its inputs: any two results that
/// `hpack` may give for the same list, size, mode and configuration are
/// identical.
pub proof fn lemma_hpack_deterministic(
    items: Seq<Item>,
    target: Scaled,
    mode: PackMode,
    cfg: PackConfig,
    r1: PackResult,
    r2: PackResult,
)
    requires
        list_ok(items),
        dim_ok(target as int),
        hpack_post(items, target, mode, cfg, r1),
        hpack_post(items, target, mode, cfg, r2),
    ensures
        same_pack(r1, r2),
{
}

/// A list packed to its natural width (`Additional` with nothing added)
/// has its glue unset: sign `Normal`, ratio zero, and no diagnostic.
pub proof fn lemma_hpack_natural_is_unset(
    items: Seq<Item>,
    cfg: PackConfig,
    r: PackResult,
)
    requires
        list_ok(items),
        hpack_post(items, 0, PackMode::Additional, cfg, r),
    ensures
        r.boxed.width == hlist_totals(items).width,
        r.boxed.glue_sign == GlueSign::Normal,
        r.boxed.glue_set == GlueRatio::zero_spec(),
        r.diagnostic is None,
{
    lemma_hlist_totals_within(items);
}

/// An overfull horizontal box: when the list must shrink by more than its
/// finite shrink and has no infinite shrink, the glue is set to the full
/// shrink (ratio exactly 1), and the box is reported `Overfull` by the
/// excess less the finite shrink.
pub proof fn lemma_hpack_overfull_clamp(
    items: Seq<Item>,
    target: Scaled,
    mode: PackMode,
    cfg: PackConfig,
    r: PackResult,
)
    requires
        list_ok(items),
        dim_ok(target as int),
        hpack_post(items, target, mode, cfg, r),
        r.boxed.width < hlist_totals(items).width,
        governing_order(hlist_totals(items).shrink) == GlueOrder::Normal,
        hlist_totals(items).shrink.normal < hlist_totals(items).width - r.boxed.width,
    ensures
        r.boxed.width == requested_size(hlist_totals(items).width as int, target as int, mode),
        r.boxed.glue_set == GlueRatio::one_spec(),
        r.boxed.glue_order == GlueOrder::Normal,
        hlist_totals(items).shrink.normal != 0 ==> r.boxed.glue_sign == GlueSign::Shrinking,
        r.diagnostic matches Some(d) && d.kind == DiagnosticKind::Overfull && d.axis == Axis::Horizontal
            && d.badness == UNSETTABLE_BAD
            && d.amount == hlist_totals(items).width - r.boxed.width - hlist_totals(items).shrink.normal,
{
    lemma_hlist_totals_within(items);
}

/// Packs `items` into a horizontal box of width `target` (`Exactly`) or of
/// its natural width plus `target` (`Additional`).
///
/// Insertions, marks and adjustments always leave the box. With
/// `collect_adjustments` they are appended to `sink` in order (an
/// adjustment's contents spliced in); otherwise they are dropped and `sink`
/// is untouched.
pub fn hpack(
    items: Vec<Item>,
    target: Scaled,
    mode: PackMode,
    cfg: &PackConfig,
    sink: &mut Vec<Item>,
    collect_adjustments: bool,
) -> (r: PackResult)
    requires
        list_ok(items@),
        dim_ok(target as int),
    ensures
        hpack_post(items@, target, mode, *cfg, r),
        final(sink)@ == if collect_adjustments { old(sink)@ + moved_material(items@) } else { old(sink)@ },
{
    let t = measure_hlist(&items);
    proof {
        assert(items@.len() * MAX_DIMEN <= 0x2000_0000 * MAX_DIMEN);
    }
    let mut contents = if collect_adjustments {
        split_pass_through(items, sink)
    } else {
        let mut dropped: Vec<Item> = Vec::new();
        split_pass_through(items, &mut dropped)
    };
    let s = glue_setting(
        t.width,
        &t.stretch,
        &t.shrink,
        target,
        mode,
        contents.len() > 0,
        Axis::Horizontal,
        cfg,
    );
    if s.mark_overfull {
        contents.push(
            Item::Rule(Rule { width: RuleDim::Fixed(cfg.overfull_rule), height: RuleDim::Running, depth: RuleDim::Running }),
        );
    }
    PackResult {
        boxed: PackedBox {
            axis: Axis::Horizontal,
            width: s.size,
            height: t.height,
            depth: t.depth,
            shift: 0,
            glue_sign: s.sign,
            glue_order: s.order,
            glue_set: s.ratio,
            contents,
        },
        diagnostic: s.diagnostic,
        badness: s.badness,
    }
}

} // verus!
