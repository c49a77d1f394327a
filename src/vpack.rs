//! The vertical packer.
use vstd::prelude::*;
use crate::badness::UNSETTABLE_BAD;
use crate::glue::{governing_order, GlueOrder, GlueRatio, GlueSign, GlueTotals, Scaled, MAX_DIMEN};
use crate::hpack::{same_pack, PackResult};
use crate::item::{dim_ok, item_ok, list_ok, max, rule_dim_value, Axis, Item, PackedBox, RuleDim, MAX_LIST_LEN};
use crate::setting::{glue_setting, glue_setting_spec, requested_size, DiagnosticKind, PackConfig, PackMode};

verus! {

/// A vertical packer was handed an item that only a horizontal list can hold.
#[derive(Clone, Copy, Debug, PartialEq, Eq, Structural)]
pub enum PackError {
    /// A glyph or ligature stood in a vertical list.
    GlyphInVerticalList,
    /// A discretionary stood in a vertical list.
    DiscretionaryInVerticalList,
}

/// Width, natural height and trailing depth of a vertical list, with its
/// per-order stretch and shrink totals.
#[derive(Clone, Copy, Debug, PartialEq, Eq, Structural)]
pub struct VTotals {
    pub width: Scaled,
    pub height: Scaled,
    pub depth: Scaled,
    pub stretch: GlueTotals,
    pub shrink: GlueTotals,
}

pub open spec fn vtotals_zero() -> VTotals {
    VTotals {
        width: 0,
        height: 0,
        depth: 0,
        stretch: GlueTotals::zero_spec(),
        shrink: GlueTotals::zero_spec(),
    }
}

/// The error for an item that no vertical list may hold: a glyph, a
/// ligature or a discretionary.
pub open spec fn vertical_error(it: Item) -> Option<PackError> {
    match it {
        Item::Char(_) | Item::Ligature(_) => Some(PackError::GlyphInVerticalList),
        Item::Discretionary(_) => Some(PackError::DiscretionaryInVerticalList),
        _ => None,
    }
}

/// Whether `s` holds an item that no vertical list may hold.
pub open spec fn has_horizontal(s: Seq<Item>) -> bool {
    exists|i: int| 0 <= i < s.len() && (#[trigger] vertical_error(s[i])) is Some
}

/// `e` is the error for the first item of `s` that no vertical list may hold.
pub open spec fn first_vertical_error(s: Seq<Item>, e: PackError) -> bool {
    exists|i: int| 0 <= i < s.len() && #[trigger] vertical_error(s[i]) == Some(e)
        && forall|j: int| 0 <= j < i ==> (#[trigger] vertical_error(s[j])) is None
}

/// How one item changes the totals of a vertical list: a box or rule adds
/// the previous depth and its height, and its depth becomes the trailing
/// depth; the box may widen the list by its width plus shift. Glue and kerns
/// add the previous depth and their size and leave no trailing depth; glue
/// adds its stretch and shrink to the totals of their orders and leader
/// glue may widen the list. Other items add nothing.
pub open spec fn vlist_step(acc: VTotals, it: Item) -> VTotals {
    match it {
        Item::Box(b) => VTotals {
            width: max(acc.width as int, b.width + b.shift) as i64,
            height: (acc.height + acc.depth + b.height) as i64,
            depth: b.depth,
            ..acc
        },
        Item::Rule(r) => VTotals {
            width: max(acc.width as int, rule_dim_value(r.width)) as i64,
            height: (acc.height + acc.depth + rule_dim_value(r.height)) as i64,
            depth: rule_dim_value(r.depth) as i64,
            ..acc
        },
        Item::Glue(g) => VTotals {
            width: match g.leader {
                Some(l) => max(acc.width as int, l.width as int) as i64,
                None => acc.width,
            },
            height: (acc.height + acc.depth + g.width) as i64,
            depth: 0,
            stretch: acc.stretch.add_spec(g.stretch_order, g.stretch as int),
            shrink: acc.shrink.add_spec(g.shrink_order, g.shrink as int),
        },
        Item::Kern(k) => VTotals {
            height: (acc.height + acc.depth + k) as i64,
            depth: 0,
            ..acc
        },
        _ => acc,
    }
}

/// The totals of a vertical list, item by item from the top.
pub open spec fn vlist_totals(s: Seq<Item>) -> VTotals
    decreases s.len(),
{
    if s.len() == 0 {
        vtotals_zero()
    } else {
        vlist_step(vlist_totals(s.drop_last()), s.last())
    }
}

pub open spec fn vtotals_within(t: VTotals, n: int) -> bool {
    &&& 0 <= t.width <= 2 * MAX_DIMEN
    &&& -2 * n * MAX_DIMEN <= t.height <= 2 * n * MAX_DIMEN
    &&& -MAX_DIMEN <= t.depth <= MAX_DIMEN
    &&& t.stretch.bounded_by(n * MAX_DIMEN)
    &&& t.shrink.bounded_by(n * MAX_DIMEN)
}

/// One more item keeps the totals within what one more dimension can add.
pub proof fn lemma_vlist_step_within(acc: VTotals, it: Item, n: int)
    requires
        0 <= n < MAX_LIST_LEN,
        vtotals_within(acc, n),
        item_ok(it),
    ensures
        vtotals_within(vlist_step(acc, it), n + 1),
{
}

/// The totals of a list that packers accept stay within range.
pub proof fn lemma_vlist_totals_within(s: Seq<Item>)
    requires
        list_ok(s),
    ensures
        vtotals_within(vlist_totals(s), s.len() as int),
    decreases s.len(),
{
    if s.len() > 0 {
        let t = s.drop_last();
        assert forall|i: int| 0 <= i < t.len() implies item_ok(#[trigger] t[i]) by {
            assert(t[i] == s[i]);
        }
        lemma_vlist_totals_within(t);
        assert(item_ok(s[s.len() - 1]));
        lemma_vlist_step_within(vlist_totals(t), s.last(), t.len() as int);
    }
}

fn vlist_add(acc: &mut VTotals, it: &Item, Ghost(n): Ghost<int>)
    requires
        0 <= n < MAX_LIST_LEN,
        vtotals_within(*old(acc), n),
        item_ok(*it),
    ensures
        *final(acc) == vlist_step(*old(acc), *it),
        vtotals_within(*final(acc), n + 1),
{
    match it {
        Item::Box(b) => {
            if b.width + b.shift > acc.width {
                acc.width = b.width + b.shift;
            }
            acc.height = acc.height + acc.depth + b.height;
            acc.depth = b.depth;
        },
        Item::Rule(r) => {
            if let RuleDim::Fixed(w) = r.width {
                if w > acc.width {
                    acc.width = w;
                }
            }
            let h: i64 = match r.height { RuleDim::Fixed(x) => x, RuleDim::Running => 0 };
            acc.height = acc.height + acc.depth + h;
            acc.depth = match r.depth { RuleDim::Fixed(x) => x, RuleDim::Running => 0 };
        },
        Item::Glue(g) => {
            if let Some(l) = &g.leader {
                if l.width > acc.width {
                    acc.width = l.width;
                }
            }
            acc.height = acc.height + acc.depth + g.width;
            acc.depth = 0;
            acc.stretch.add(g.stretch_order, g.stretch);
            acc.shrink.add(g.shrink_order, g.shrink);
        },
        Item::Kern(k) => {
            acc.height = acc.height + acc.depth + *k;
            acc.depth = 0;
        },
        _ => {},
    }
}

/// Measures a vertical list; an error for its first item that no vertical
/// list may hold.
pub fn measure_vlist(items: &Vec<Item>) -> (r: Result<VTotals, PackError>)
    requires
        list_ok(items@),
    ensures
        r is Err <==> has_horizontal(items@),
        r matches Err(e) ==> first_vertical_error(items@, e),
        r matches Ok(t) ==> t == vlist_totals(items@) && vtotals_within(t, items@.len() as int),
{
    let mut t = VTotals {
        width: 0,
        height: 0,
        depth: 0,
        stretch: GlueTotals::zero(),
        shrink: GlueTotals::zero(),
    };
    let mut i: usize = 0;
    while i < items.len()
        invariant
            list_ok(items@),
            0 <= i <= items@.len(),
            t == vlist_totals(items@.take(i as int)),
            vtotals_within(t, i as int),
            forall|j: int| 0 <= j < i ==> (#[trigger] vertical_error(items@[j])) is None,
        decreases items@.len() - i,
    {
        match &items[i] {
            Item::Char(_) | Item::Ligature(_) => {
                assert(vertical_error(items@[i as int]) == Some(PackError::GlyphInVerticalList));
                return Err(PackError::GlyphInVerticalList);
            },
            Item::Discretionary(_) => {
                assert(vertical_error(items@[i as int]) == Some(PackError::DiscretionaryInVerticalList));
                return Err(PackError::DiscretionaryInVerticalList);
            },
            _ => {},
        }
        assert(items@.take(i as int + 1).drop_last() =~= items@.take(i as int));
        assert(item_ok(items@[i as int]));
        vlist_add(&mut t, &items[i], Ghost(i as int));
        i = i + 1;
    }
    assert(items@.take(items@.len() as int) =~= items@);
    Ok(t)
}

/// The natural height and the depth of a vertical list whose trailing depth
/// is limited to `max_depth`: depth beyond the limit moves into the height.
pub open spec fn clamp_depth(t: VTotals, max_depth: int) -> (int, int) {
    if t.depth > max_depth {
        (t.height + t.depth - max_depth, max_depth)
    } else {
        (t.height as int, t.depth as int)
    }
}

/// What `vpackage` returns for a list without glyphs: a vertical box as wide
/// as the list, whose depth is the trailing depth limited to `max_depth`,
/// whose height and glue setting come from the natural height (with the
/// depth beyond the limit added), and whose contents are the list.
pub open spec fn vpack_post(items: Seq<Item>, target: Scaled, mode: PackMode, max_depth: Scaled, cfg: PackConfig, p: PackResult) -> bool {
    let t = vlist_totals(items);
    let (natural, depth) = clamp_depth(t, max_depth as int);
    let s = glue_setting_spec(natural, t.stretch, t.shrink, target as int, mode, items.len() > 0, Axis::Vertical, cfg);
    &&& p.boxed.axis == Axis::Vertical
    &&& p.boxed.width == t.width
    &&& p.boxed.height == s.size
    &&& p.boxed.depth == depth
    &&& p.boxed.shift == 0
    &&& p.boxed.glue_sign == s.sign
    &&& p.boxed.glue_order == s.order
    &&& p.boxed.glue_set == s.ratio
    &&& p.badness == s.badness
    &&& p.diagnostic == s.diagnostic
    &&& p.boxed.contents@ == items
}

/// Vertical packing is a function of its inputs: any two results that
/// `vpackage` may give for the same list, size, mode, depth limit and
/// configuration are identical.
pub proof fn lemma_vpack_deterministic(
    items: Seq<Item>,
    target: Scaled,
    mode: PackMode,
    max_depth: Scaled,
    cfg: PackConfig,
    r1: PackResult,
    r2: PackResult,
)
    requires
        vpack_post(items, target, mode, max_depth, cfg, r1),
        vpack_post(items, target, mode, max_depth, cfg, r2),
    ensures
        same_pack(r1, r2),
{
}

/// A list packed to its natural height (`Additional` with nothing added)
/// has its glue unset: sign `Normal`, ratio zero, and no diagnostic.
pub proof fn lemma_vpack_natural_is_unset(items: Seq<Item>, max_depth: Scaled, cfg: PackConfig, p: PackResult)
    requires
        list_ok(items),
        dim_ok(max_depth as int),
        vpack_post(items, 0, PackMode::Additional, max_depth, cfg, p),
    ensures
        p.boxed.height == clamp_depth(vlist_totals(items), max_depth as int).0,
        p.boxed.glue_sign == GlueSign::Normal,
        p.boxed.glue_set == GlueRatio::zero_spec(),
        p.diagnostic is None,
{
    lemma_vlist_totals_within(items);
}

/// An overfull vertical box: when the list must shrink by more than its
/// finite shrink and has no infinite shrink, the glue is set to the full
/// shrink (ratio exactly 1), and the box is reported as vertically
/// `Overfull` by the excess less the finite shrink.
pub proof fn lemma_vpack_overfull_clamp(
    items: Seq<Item>,
    target: Scaled,
    mode: PackMode,
    max_depth: Scaled,
    cfg: PackConfig,
    p: PackResult,
)
    requires
        list_ok(items),
        dim_ok(target as int),
        dim_ok(max_depth as int),
        vpack_post(items, target, mode, max_depth, cfg, p),
        p.boxed.height < clamp_depth(vlist_totals(items), max_depth as int).0,
        governing_order(vlist_totals(items).shrink) == GlueOrder::Normal,
        vlist_totals(items).shrink.normal < clamp_depth(vlist_totals(items), max_depth as int).0 - p.boxed.height,
    ensures
        p.boxed.height == requested_size(clamp_depth(vlist_totals(items), max_depth as int).0, target as int, mode),
        p.boxed.glue_set == GlueRatio::one_spec(),
        p.boxed.glue_order == GlueOrder::Normal,
        vlist_totals(items).shrink.normal != 0 ==> p.boxed.glue_sign == GlueSign::Shrinking,
        p.diagnostic matches Some(d) && d.kind == DiagnosticKind::Overfull && d.axis == Axis::Vertical
            && d.badness == UNSETTABLE_BAD
            && d.amount == clamp_depth(vlist_totals(items), max_depth as int).0 - p.boxed.height
                - vlist_totals(items).shrink.normal,
{
    lemma_vlist_totals_within(items);
}

/// Packs `items` into a vertical box of height `target` (`Exactly`) or of
/// its natural height plus `target` (`Additional`), with its depth limited
/// to `max_depth`. A glyph, ligature or discretionary in the list is
/// refused, with the error for the first of them.
pub fn vpackage(items: Vec<Item>, target: Scaled, mode: PackMode, max_depth: Scaled, cfg: &PackConfig) -> (r: Result<PackResult, PackError>)
    requires
        list_ok(items@),
        dim_ok(target as int),
        dim_ok(max_depth as int),
    ensures
        r is Err <==> has_horizontal(items@),
        r matches Err(e) ==> first_vertical_error(items@, e),
        r matches Ok(p) ==> vpack_post(items@, target, mode, max_depth, *cfg, p),
{
    let t = match measure_vlist(&items) {
        Ok(t) => t,
        Err(e) => {
            return Err(e);
        },
    };
    proof {
        assert(2 * items@.len() * MAX_DIMEN <= 2 * 0x2000_0000 * MAX_DIMEN);
    }
    let (natural, depth) = if t.depth > max_depth {
        (t.height + t.depth - max_depth, max_depth)
    } else {
        (t.height, t.depth)
    };
    let s = glue_setting(
        natural,
        &t.stretch,
        &t.shrink,
        target,
        mode,
        items.len() > 0,
        Axis::Vertical,
        cfg,
    );
    Ok(PackResult {
        boxed: PackedBox {
            axis: Axis::Vertical,
            width: t.width,
            height: s.size,
            depth,
            shift: 0,
            glue_sign: s.sign,
            glue_order: s.order,
            glue_set: s.ratio,
            contents: items,
        },
        diagnostic: s.diagnostic,
        badness: s.badness,
    })
}

/// Packs `items` into a vertical box with no limit on its depth beyond `MAX_DIMEN`.
pub fn vpack(items: Vec<Item>, target: Scaled, mode: PackMode, cfg: &PackConfig) -> (r: Result<PackResult, PackError>)
    requires
        list_ok(items@),
        dim_ok(target as int),
    ensures
        r is Err <==> has_horizontal(items@),
        r matches Err(e) ==> first_vertical_error(items@, e),
        r matches Ok(p) ==> vpack_post(items@, target, mode, MAX_DIMEN, *cfg, p),
{
    vpackage(items, target, mode, MAX_DIMEN, cfg)
}

} // verus!
