//! The items that packers measure and the boxes they produce.
use vstd::prelude::*;
use crate::glue::{GlueOrder, GlueRatio, GlueSign, Scaled, MAX_DIMEN};

verus! {

/// The longest list that a packer accepts; with every dimension below
/// `MAX_DIMEN` no running total of such a list leaves the range of `i64`.
pub const MAX_LIST_LEN: usize = 0x2000_0000;

/// The longest text that a discretionary may hold.
pub const MAX_DISC_LEN: usize = 0x0100_0000;

/// A character of a font with the metrics that the font gives it.
#[derive(Clone, Copy, Debug, PartialEq, Eq, Structural)]
pub struct Glyph {
    pub font: u32,
    pub code: u32,
    pub width: Scaled,
    pub height: Scaled,
    pub depth: Scaled,
}

/// The axis along which a box stacks its contents.
#[derive(Clone, Copy, Debug, PartialEq, Eq, Structural)]
pub enum Axis {
    Horizontal,
    Vertical,
}

/// A dimension of a rule: a fixed value, or running (taken from the box
/// that encloses the rule).
#[derive(Clone, Copy, Debug, PartialEq, Eq, Structural)]
pub enum RuleDim {
    Fixed(Scaled),
    Running,
}

/// A solid rule.
#[derive(Clone, Copy, Debug, PartialEq, Eq, Structural)]
pub struct Rule {
    pub width: RuleDim,
    pub height: RuleDim,
    pub depth: RuleDim,
}

/// The dimensions of the box or rule that fills leader glue.
#[derive(Clone, Copy, Debug, PartialEq, Eq, Structural)]
pub struct Leader {
    pub width: Scaled,
    pub height: Scaled,
    pub depth: Scaled,
}

/// Glue: a natural size with stretch and shrink, each of its own order.
#[derive(Clone, Copy, Debug, PartialEq, Eq, Structural)]
pub struct Glue {
    pub width: Scaled,
    pub stretch: Scaled,
    pub stretch_order: GlueOrder,
    pub shrink: Scaled,
    pub shrink_order: GlueOrder,
    pub leader: Option<Leader>,
}

/// A box: its dimensions, the setting of its glue and its contents.
#[derive(Debug, PartialEq)]
pub struct PackedBox {
    pub axis: Axis,
    pub width: Scaled,
    pub height: Scaled,
    pub depth: Scaled,
    pub shift: Scaled,
    pub glue_sign: GlueSign,
    pub glue_order: GlueOrder,
    pub glue_set: GlueRatio,
    pub contents: Vec<Item>,
}

/// A place where a line may be broken, with the material that goes before
/// the break, after it, or in its place when there is no break.
#[derive(Debug, PartialEq)]
pub struct Discretionary {
    pub pre_break: Vec<Item>,
    pub post_break: Vec<Item>,
    pub no_break: Vec<Item>,
}

/// One item of a horizontal or vertical list.
#[derive(Debug, PartialEq)]
pub enum Item {
    Char(Glyph),
    /// A ligature, measured as the single glyph it is drawn with.
    Ligature(Glyph),
    Box(PackedBox),
    Rule(Rule),
    Glue(Glue),
    Kern(Scaled),
    /// A penalty; `INF_PENALTY` forbids a break, `EJECT_PENALTY` forces one.
    Penalty(i64),
    Discretionary(Discretionary),
    /// Material inserted elsewhere on the page; passed through by packers.
    Insertion(Vec<Item>),
    /// Vertical material to put after the line; passed through by packers.
    Adjustment(Vec<Item>),
    /// A mark, by the handle of its token list; passed through by packers.
    Mark(u64),
}

/// A dimension within `-MAX_DIMEN ..= MAX_DIMEN`.
pub open spec fn dim_ok(x: int) -> bool {
    -MAX_DIMEN <= x <= MAX_DIMEN
}

pub open spec fn rule_dim_ok(d: RuleDim) -> bool {
    match d {
        RuleDim::Fixed(x) => dim_ok(x as int),
        RuleDim::Running => true,
    }
}

/// A rule dimension as a contribution to a total: running counts as nothing.
pub open spec fn rule_dim_value(d: RuleDim) -> int {
    match d {
        RuleDim::Fixed(x) => x as int,
        RuleDim::Running => 0,
    }
}

pub open spec fn glyph_ok(g: Glyph) -> bool {
    dim_ok(g.width as int) && dim_ok(g.height as int) && dim_ok(g.depth as int)
}

pub open spec fn box_ok(b: PackedBox) -> bool {
    &&& dim_ok(b.width as int)
    &&& dim_ok(b.height as int)
    &&& dim_ok(b.depth as int)
    &&& dim_ok(b.shift as int)
}

pub open spec fn rule_ok(r: Rule) -> bool {
    rule_dim_ok(r.width) && rule_dim_ok(r.height) && rule_dim_ok(r.depth)
}

pub open spec fn glue_ok(g: Glue) -> bool {
    &&& dim_ok(g.width as int)
    &&& dim_ok(g.stretch as int)
    &&& dim_ok(g.shrink as int)
    &&& match g.leader {
        Some(l) => dim_ok(l.width as int) && dim_ok(l.height as int) && dim_ok(l.depth as int),
        None => true,
    }
}

/// An item that may stand in the text of a discretionary: a glyph, a box,
/// a rule or a kern, with dimensions in range.
pub open spec fn simple_ok(it: Item) -> bool {
    match it {
        Item::Char(g) => glyph_ok(g),
        Item::Ligature(g) => glyph_ok(g),
        Item::Box(b) => box_ok(b),
        Item::Rule(r) => rule_ok(r),
        Item::Kern(k) => dim_ok(k as int),
        _ => false,
    }
}

/// Width, height and depth that a simple item adds to a horizontal list.
pub open spec fn simple_dims(it: Item) -> (int, int, int) {
    match it {
        Item::Char(g) => (g.width as int, g.height as int, g.depth as int),
        Item::Ligature(g) => (g.width as int, g.height as int, g.depth as int),
        Item::Box(b) => (b.width as int, b.height - b.shift, b.depth + b.shift),
        Item::Rule(r) => (rule_dim_value(r.width), rule_dim_value(r.height), rule_dim_value(r.depth)),
        Item::Kern(k) => (k as int, 0, 0),
        _ => (0, 0, 0),
    }
}

pub open spec fn max(a: int, b: int) -> int {
    if a >= b { a } else { b }
}

/// Natural width, height and depth of a list of simple items set side by
/// side: widths add up, height and depth are the largest (at least zero).
pub open spec fn simple_measure(s: Seq<Item>) -> (int, int, int)
    decreases s.len(),
{
    if s.len() == 0 {
        (0, 0, 0)
    } else {
        let m = simple_measure(s.drop_last());
        let d = simple_dims(s.last());
        (m.0 + d.0, max(m.1, d.1), max(m.2, d.2))
    }
}

/// The text of a discretionary: at most `MAX_DISC_LEN` simple items whose
/// total width is a dimension in range.
pub open spec fn simple_list_ok(s: Seq<Item>) -> bool {
    &&& s.len() <= MAX_DISC_LEN
    &&& forall|i: int| 0 <= i < s.len() ==> simple_ok(#[trigger] s[i])
    &&& dim_ok(simple_measure(s).0)
}

pub open spec fn disc_ok(d: Discretionary) -> bool {
    simple_list_ok(d.pre_break@) && simple_list_ok(d.post_break@) && simple_list_ok(d.no_break@)
}

/// An item whose dimensions are in range.
pub open spec fn item_ok(it: Item) -> bool {
    match it {
        Item::Char(g) => glyph_ok(g),
        Item::Ligature(g) => glyph_ok(g),
        Item::Box(b) => box_ok(b),
        Item::Rule(r) => rule_ok(r),
        Item::Glue(g) => glue_ok(g),
        Item::Kern(k) => dim_ok(k as int),
        Item::Discretionary(d) => disc_ok(d),
        _ => true,
    }
}

/// A list that packers accept: not too long, every item in range.
pub open spec fn list_ok(s: Seq<Item>) -> bool {
    &&& s.len() <= MAX_LIST_LEN
    &&& forall|i: int| 0 <= i < s.len() ==> item_ok(#[trigger] s[i])
}

/// Insertions, adjustments and marks: material that a horizontal packer
/// moves out of the box instead of measuring it.
pub open spec fn is_pass_through(it: Item) -> bool {
    match it {
        Item::Insertion(_) | Item::Adjustment(_) | Item::Mark(_) => true,
        _ => false,
    }
}

/// A list of simple items measures within what its length allows.
pub proof fn lemma_simple_measure_bounds(s: Seq<Item>)
    requires
        forall|i: int| 0 <= i < s.len() ==> simple_ok(#[trigger] s[i]),
    ensures
        -s.len() * MAX_DIMEN <= simple_measure(s).0 <= s.len() * MAX_DIMEN,
        0 <= simple_measure(s).1 <= 2 * MAX_DIMEN,
        0 <= simple_measure(s).2 <= 2 * MAX_DIMEN,
    decreases s.len(),
{
    if s.len() > 0 {
        let t = s.drop_last();
        assert forall|i: int| 0 <= i < t.len() implies simple_ok(#[trigger] t[i]) by {
            assert(t[i] == s[i]);
        }
        lemma_simple_measure_bounds(t);
        assert(simple_ok(s[s.len() - 1]));
    }
}

/// Measures a list of simple items (the text of a discretionary).
pub fn measure_simple(s: &Vec<Item>) -> (r: (Scaled, Scaled, Scaled))
    requires
        simple_list_ok(s@),
    ensures
        r.0 as int == simple_measure(s@).0,
        r.1 as int == simple_measure(s@).1,
        r.2 as int == simple_measure(s@).2,
        dim_ok(r.0 as int),
        0 <= r.1 <= 2 * MAX_DIMEN,
        0 <= r.2 <= 2 * MAX_DIMEN,
{
    let mut w: i64 = 0;
    let mut h: i64 = 0;
    let mut d: i64 = 0;
    let mut i: usize = 0;
    proof {
        lemma_simple_measure_bounds(s@);
    }
    while i < s.len()
        invariant
            simple_list_ok(s@),
            0 <= i <= s.len(),
            (w as int, h as int, d as int) == simple_measure(s@.take(i as int)),
            -i * MAX_DIMEN <= w <= i * MAX_DIMEN,
            0 <= h <= 2 * MAX_DIMEN,
            0 <= d <= 2 * MAX_DIMEN,
        decreases s.len() - i,
    {
        let it = &s[i];
        assert(simple_ok(s@[i as int]));
        assert(s@.take(i as int + 1).drop_last() =~= s@.take(i as int));
        let (iw, ih, id): (i64, i64, i64) = match it {
            Item::Char(g) => (g.width, g.height, g.depth),
            Item::Ligature(g) => (g.width, g.height, g.depth),
            Item::Box(b) => (b.width, b.height - b.shift, b.depth + b.shift),
            Item::Rule(r) => (
                match r.width { RuleDim::Fixed(x) => x, RuleDim::Running => 0 },
                match r.height { RuleDim::Fixed(x) => x, RuleDim::Running => 0 },
                match r.depth { RuleDim::Fixed(x) => x, RuleDim::Running => 0 },
            ),
            Item::Kern(k) => (*k, 0, 0),
            _ => (0, 0, 0),
        };
        w = w + iw;
        if ih > h {
            h = ih;
        }
        if id > d {
            d = id;
        }
        i = i + 1;
    }
    assert(s@.take(s@.len() as int) =~= s@);
    (w, h, d)
}

} // verus!
