//! Glue orders, glue settings and the resolution of an excess against the
//! stretch or shrink totals of a list.
use vstd::prelude::*;

verus! {

/// A dimension in scaled points (1/65536 of a unit).
pub type Scaled = i64;

/// The largest magnitude that a dimension of an item may have.
pub const MAX_DIMEN: i64 = 0x3fff_ffff;

/// An order of infinity: glue of a higher order dominates all lower orders.
#[derive(Clone, Copy, Debug, PartialEq, Eq, Structural)]
pub enum GlueOrder {
    Normal,
    Fil,
    Fill,
    Filll,
}

impl GlueOrder {
    /// The position of the order in `Normal < Fil < Fill < Filll`.
    pub open spec fn rank(self) -> int {
        match self {
            GlueOrder::Normal => 0,
            GlueOrder::Fil => 1,
            GlueOrder::Fill => 2,
            GlueOrder::Filll => 3,
        }
    }
}

/// How the glue of a packed box is set.
#[derive(Clone, Copy, Debug, PartialEq, Eq, Structural)]
pub enum GlueSign {
    Normal,
    Stretching,
    Shrinking,
}

/// An exact glue setting ratio `numerator / denominator`.
///
/// The denominator is never zero; the value is only compared through
/// cross-multiplication, so no precision is lost.
#[derive(Clone, Copy, Debug, PartialEq, Eq, Structural)]
pub struct GlueRatio {
    pub numerator: i64,
    pub denominator: i64,
}

impl GlueRatio {
    pub open spec fn zero_spec() -> GlueRatio {
        GlueRatio { numerator: 0, denominator: 1 }
    }

    pub open spec fn one_spec() -> GlueRatio {
        GlueRatio { numerator: 1, denominator: 1 }
    }

    /// The ratio 0, used when no glue is set.
    pub fn zero() -> (r: GlueRatio)
        ensures
            r == GlueRatio::zero_spec(),
    {
        GlueRatio { numerator: 0, denominator: 1 }
    }

    /// The ratio 1, the largest shrink that glue can take.
    pub fn one() -> (r: GlueRatio)
        ensures
            r == GlueRatio::one_spec(),
    {
        GlueRatio { numerator: 1, denominator: 1 }
    }
}

/// Per-order totals of stretch (or of shrink) found in a list.
#[derive(Clone, Copy, Debug, PartialEq, Eq, Structural)]
pub struct GlueTotals {
    pub normal: i64,
    pub fil: i64,
    pub fill: i64,
    pub filll: i64,
}

impl GlueTotals {
    /// The total of order `o`.
    pub open spec fn at(self, o: GlueOrder) -> i64 {
        match o {
            GlueOrder::Normal => self.normal,
            GlueOrder::Fil => self.fil,
            GlueOrder::Fill => self.fill,
            GlueOrder::Filll => self.filll,
        }
    }

    pub open spec fn zero_spec() -> GlueTotals {
        GlueTotals { normal: 0, fil: 0, fill: 0, filll: 0 }
    }

    /// These totals with `amount` added to the total of order `o`.
    pub open spec fn add_spec(self, o: GlueOrder, amount: int) -> GlueTotals {
        match o {
            GlueOrder::Normal => GlueTotals { normal: (self.normal + amount) as i64, ..self },
            GlueOrder::Fil => GlueTotals { fil: (self.fil + amount) as i64, ..self },
            GlueOrder::Fill => GlueTotals { fill: (self.fill + amount) as i64, ..self },
            GlueOrder::Filll => GlueTotals { filll: (self.filll + amount) as i64, ..self },
        }
    }

    /// Every total lies within `-bound ..= bound`.
    pub open spec fn bounded_by(self, bound: int) -> bool {
        &&& -bound <= self.normal <= bound
        &&& -bound <= self.fil <= bound
        &&& -bound <= self.fill <= bound
        &&& -bound <= self.filll <= bound
    }

    /// All totals zero.
    pub fn zero() -> (r: GlueTotals)
        ensures
            r == GlueTotals::zero_spec(),
    {
        GlueTotals { normal: 0, fil: 0, fill: 0, filll: 0 }
    }

    /// The total of order `o`.
    pub fn get(&self, o: GlueOrder) -> (r: i64)
        ensures
            r == self.at(o),
    {
        match o {
            GlueOrder::Normal => self.normal,
            GlueOrder::Fil => self.fil,
            GlueOrder::Fill => self.fill,
            GlueOrder::Filll => self.filll,
        }
    }

    /// Adds `amount` to the total of order `o`.
    pub fn add(&mut self, o: GlueOrder, amount: i64)
        requires
            i64::MIN <= old(self).at(o) + amount <= i64::MAX,
        ensures
            *final(self) == old(self).add_spec(o, amount as int),
    {
        match o {
            GlueOrder::Normal => self.normal = self.normal + amount,
            GlueOrder::Fil => self.fil = self.fil + amount,
            GlueOrder::Fill => self.fill = self.fill + amount,
            GlueOrder::Filll => self.filll = self.filll + amount,
        }
    }
}

/// The highest order whose total is nonzero, or `Normal` when all are zero.
pub open spec fn governing_order(t: GlueTotals) -> GlueOrder {
    if t.filll != 0 {
        GlueOrder::Filll
    } else if t.fill != 0 {
        GlueOrder::Fill
    } else if t.fil != 0 {
        GlueOrder::Fil
    } else {
        GlueOrder::Normal
    }
}

/// The order and ratio that make up `excess` with the totals `t`: the ratio
/// is `excess / t.at(o)` for the governing order `o`, and zero (with order
/// `Normal`) when nothing is available.
pub open spec fn resolve_spec(t: GlueTotals, excess: i64) -> (GlueOrder, GlueRatio) {
    let o = governing_order(t);
    if t.at(o) != 0 {
        (o, GlueRatio { numerator: excess, denominator: t.at(o) })
    } else {
        (GlueOrder::Normal, GlueRatio::zero_spec())
    }
}

/// Selects the governing order of `totals` and the ratio that makes up `excess`.
pub fn resolve(totals: &GlueTotals, excess: i64) -> (r: (GlueOrder, GlueRatio))
    ensures
        r == resolve_spec(*totals, excess),
        r.1.denominator != 0,
{
    let o = if totals.filll != 0 {
        GlueOrder::Filll
    } else if totals.fill != 0 {
        GlueOrder::Fill
    } else if totals.fil != 0 {
        GlueOrder::Fil
    } else {
        GlueOrder::Normal
    };
    let total = totals.get(o);
    if total != 0 {
        (o, GlueRatio { numerator: excess, denominator: total })
    } else {
        (GlueOrder::Normal, GlueRatio::zero())
    }
}

/// Only the governing order's total matters: two totals that agree on the
/// governing order and on every order above it resolve any excess alike,
/// whatever their lower-order entries hold.
pub proof fn lemma_resolve_ignores_lower_orders(t1: GlueTotals, t2: GlueTotals, excess: i64)
    requires
        forall|o: GlueOrder| o.rank() >= governing_order(t1).rank() ==> #[trigger] t1.at(o) == t2.at(o),
    ensures
        resolve_spec(t1, excess) == resolve_spec(t2, excess),
{
    assert(t1.at(GlueOrder::Filll) == t2.at(GlueOrder::Filll));
    assert(t1.at(governing_order(t1)) == t2.at(governing_order(t1)));
    if governing_order(t1).rank() <= 2 {
        assert(t1.at(GlueOrder::Fill) == t2.at(GlueOrder::Fill));
    }
    if governing_order(t1).rank() <= 1 {
        assert(t1.at(GlueOrder::Fil) == t2.at(GlueOrder::Fil));
    }
    if governing_order(t1).rank() == 0 {
        assert(t1.at(GlueOrder::Normal) == t2.at(GlueOrder::Normal));
    }
}

} // verus!
