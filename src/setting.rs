//! Choosing the size and glue setting of a box from its natural size and
//! glue totals, and the diagnostics that a badly set box gives.
use vstd::prelude::*;
use crate::badness::{badness, badness_spec, UNSETTABLE_BAD};
use crate::glue::{
    governing_order, resolve, resolve_spec, GlueOrder, GlueRatio, GlueSign, GlueTotals, Scaled, MAX_DIMEN,
};
use crate::item::{dim_ok, Axis};

verus! {

/// How the requested size of a box is read.
#[derive(Clone, Copy, Debug, PartialEq, Eq, Structural)]
pub enum PackMode {
    /// The box gets exactly the requested size.
    Exactly,
    /// The box gets its natural size plus the requested amount.
    Additional,
}

/// Where the material of a box came from, for its diagnostics.
#[derive(Clone, Copy, Debug, PartialEq, Eq, Structural)]
pub enum Provenance {
    /// Packed while an output routine was active.
    OutputActive,
    /// A line of the paragraph that began at the given source line.
    Paragraph(u32),
    /// A row or column of the alignment that began at the given source line.
    Alignment(u32),
    /// Packed on its own at the given source line.
    SourceLine(u32),
}

/// The four outcomes of a badly set box.
#[derive(Clone, Copy, Debug, PartialEq, Eq, Structural)]
pub enum DiagnosticKind {
    Underfull,
    Loose,
    Tight,
    Overfull,
}

/// An advisory report on a packed box.
#[derive(Clone, Copy, Debug, PartialEq, Eq, Structural)]
pub struct Diagnostic {
    pub kind: DiagnosticKind,
    pub axis: Axis,
    pub badness: i64,
    /// For an overfull box, how far it sticks out; zero otherwise.
    pub amount: Scaled,
    pub provenance: Provenance,
}

/// What a packer is configured with besides the list and the size.
#[derive(Clone, Copy, Debug, PartialEq, Eq, Structural)]
pub struct PackConfig {
    /// Boxes with a badness above this are reported (`hbadness`/`vbadness`).
    pub badness_limit: i64,
    /// Overfull boxes that stick out by no more than this are tolerated
    /// (`hfuzz`/`vfuzz`).
    pub fuzz: Scaled,
    /// Width of the rule that marks an overfull horizontal box; none if not positive.
    pub overfull_rule: Scaled,
    pub provenance: Provenance,
}

/// The size and glue setting chosen for a box.
#[derive(Clone, Copy, Debug, PartialEq, Eq, Structural)]
pub struct GlueSetting {
    pub size: Scaled,
    pub sign: GlueSign,
    pub order: GlueOrder,
    pub ratio: GlueRatio,
    pub badness: i64,
    pub diagnostic: Option<Diagnostic>,
    /// Whether an overfull rule is to be appended to the box's contents.
    pub mark_overfull: bool,
}

pub open spec fn report(kind: DiagnosticKind, axis: Axis, b: int, amount: int, cfg: PackConfig) -> Diagnostic {
    Diagnostic { kind, axis, badness: b as i64, amount: amount as Scaled, provenance: cfg.provenance }
}

/// The box size that `target` asks for under `mode`, for natural size `natural`.
pub open spec fn requested_size(natural: int, target: int, mode: PackMode) -> int {
    match mode {
        PackMode::Exactly => target,
        PackMode::Additional => natural + target,
    }
}

/// Setting when the box must stretch by `x > 0`.
pub open spec fn stretch_setting(size: int, x: int, stretch: GlueTotals, nonempty: bool, axis: Axis, cfg: PackConfig) -> GlueSetting {
    let (o, ratio) = resolve_spec(stretch, x as i64);
    let sign = if stretch.at(o) != 0 { GlueSign::Stretching } else { GlueSign::Normal };
    let base = GlueSetting {
        size: size as Scaled, sign, order: o, ratio, badness: 0, diagnostic: None, mark_overfull: false,
    };
    if o == GlueOrder::Normal && nonempty {
        let b = badness_spec(x, stretch.normal as int);
        let diagnostic = if b > cfg.badness_limit {
            Some(report(if b > 100 { DiagnosticKind::Underfull } else { DiagnosticKind::Loose }, axis, b, 0, cfg))
        } else {
            None
        };
        GlueSetting { badness: b as i64, diagnostic, ..base }
    } else {
        base
    }
}

/// Setting when the box must shrink by `-x > 0`.
pub open spec fn shrink_setting(size: int, x: int, shrink: GlueTotals, axis: Axis, cfg: PackConfig) -> GlueSetting {
    let (o, ratio) = resolve_spec(shrink, (-x) as i64);
    let sign = if shrink.at(o) != 0 { GlueSign::Shrinking } else { GlueSign::Normal };
    let base = GlueSetting {
        size: size as Scaled, sign, order: o, ratio, badness: 0, diagnostic: None, mark_overfull: false,
    };
    if o == GlueOrder::Normal && shrink.normal < -x {
        let over = -x - shrink.normal;
        let diagnostic = Some(report(DiagnosticKind::Overfull, axis, UNSETTABLE_BAD as int, over, cfg));
        GlueSetting {
            ratio: GlueRatio::one_spec(),
            badness: UNSETTABLE_BAD,
            diagnostic,
            mark_overfull: axis == Axis::Horizontal && cfg.overfull_rule > 0 && over > cfg.fuzz,
            ..base
        }
    } else if o == GlueOrder::Normal {
        let b = badness_spec(-x, shrink.normal as int);
        let diagnostic = if b > cfg.badness_limit {
            Some(report(DiagnosticKind::Tight, axis, b, 0, cfg))
        } else {
            None
        };
        GlueSetting { badness: b as i64, diagnostic, ..base }
    } else {
        base
    }
}

/// The setting of a box with natural size `natural` and the given glue
/// totals, asked for `target` under `mode`; `nonempty` tells whether the
/// box has contents (an empty box that must stretch is neither scored nor
/// reported). A box that must shrink by more than its finite shrink, with
/// no infinite shrink, is set to the full shrink and always reported as
/// overfull; the fuzz decides only whether the overfull rule is added.
pub open spec fn glue_setting_spec(
    natural: int,
    stretch: GlueTotals,
    shrink: GlueTotals,
    target: int,
    mode: PackMode,
    nonempty: bool,
    axis: Axis,
    cfg: PackConfig,
) -> GlueSetting {
    let size = requested_size(natural, target, mode);
    let x = size - natural;
    if x == 0 {
        GlueSetting {
            size: size as Scaled,
            sign: GlueSign::Normal,
            order: GlueOrder::Normal,
            ratio: GlueRatio::zero_spec(),
            badness: 0,
            diagnostic: None,
            mark_overfull: false,
        }
    } else if x > 0 {
        stretch_setting(size, x, stretch, nonempty, axis, cfg)
    } else {
        shrink_setting(size, x, shrink, axis, cfg)
    }
}

/// The bound on natural sizes and glue totals that keeps the arithmetic of
/// `glue_setting` within `i64`.
pub open spec fn totals_in_range(natural: int, stretch: GlueTotals, shrink: GlueTotals) -> bool {
    &&& -0x2000_0000_0000_0000 <= natural <= 0x2000_0000_0000_0000
    &&& stretch.bounded_by(0x2000_0000_0000_0000)
    &&& shrink.bounded_by(0x2000_0000_0000_0000)
}

/// Computes `glue_setting_spec`.
pub fn glue_setting(
    natural: Scaled,
    stretch: &GlueTotals,
    shrink: &GlueTotals,
    target: Scaled,
    mode: PackMode,
    nonempty: bool,
    axis: Axis,
    cfg: &PackConfig,
) -> (r: GlueSetting)
    requires
        totals_in_range(natural as int, *stretch, *shrink),
        dim_ok(target as int),
    ensures
        r == glue_setting_spec(natural as int, *stretch, *shrink, target as int, mode, nonempty, axis, *cfg),
        r.ratio.denominator != 0,
{
    let size: i64 = match mode {
        PackMode::Exactly => target,
        PackMode::Additional => natural + target,
    };
    let x: i64 = size - natural;
    if x == 0 {
        GlueSetting {
            size,
            sign: GlueSign::Normal,
            order: GlueOrder::Normal,
            ratio: GlueRatio::zero(),
            badness: 0,
            diagnostic: None,
            mark_overfull: false,
        }
    } else if x > 0 {
        let (o, ratio) = resolve(stretch, x);
        let sign = if stretch.get(o) != 0 { GlueSign::Stretching } else { GlueSign::Normal };
        if o == GlueOrder::Normal && nonempty {
            let b = badness(x, stretch.normal);
            let diagnostic = if b > cfg.badness_limit {
                let kind = if b > 100 { DiagnosticKind::Underfull } else { DiagnosticKind::Loose };
                Some(Diagnostic { kind, axis, badness: b, amount: 0, provenance: cfg.provenance })
            } else {
                None
            };
            GlueSetting { size, sign, order: o, ratio, badness: b, diagnostic, mark_overfull: false }
        } else {
            GlueSetting { size, sign, order: o, ratio, badness: 0, diagnostic: None, mark_overfull: false }
        }
    } else {
        let (o, ratio) = resolve(shrink, -x);
        let sign = if shrink.get(o) != 0 { GlueSign::Shrinking } else { GlueSign::Normal };
        if o == GlueOrder::Normal && shrink.normal < -x {
            let over = -x - shrink.normal;
            let diagnostic = Some(Diagnostic {
                kind: DiagnosticKind::Overfull,
                axis,
                badness: UNSETTABLE_BAD,
                amount: over,
                provenance: cfg.provenance,
            });
            let mark_overfull = axis == Axis::Horizontal && cfg.overfull_rule > 0 && over > cfg.fuzz;
            GlueSetting {
                size,
                sign,
                order: o,
                ratio: GlueRatio::one(),
                badness: UNSETTABLE_BAD,
                diagnostic,
                mark_overfull,
            }
        } else if o == GlueOrder::Normal {
            let b = badness(-x, shrink.normal);
            let diagnostic = if b > cfg.badness_limit {
                Some(Diagnostic {
                    kind: DiagnosticKind::Tight,
                    axis,
                    badness: b,
                    amount: 0,
                    provenance: cfg.provenance,
                })
            } else {
                None
            };
            GlueSetting { size, sign, order: o, ratio, badness: b, diagnostic, mark_overfull: false }
        } else {
            GlueSetting { size, sign, order: o, ratio, badness: 0, diagnostic: None, mark_overfull: false }
        }
    }
}

/// The badness that packing gives a box of natural size `natural` and the
/// given glue totals, asked for `target` under `mode`: zero when no glue
/// needs setting or the governing order is infinite; `UNSETTABLE_BAD` for
/// an overfull box; otherwise the badness of stretching (only for a box with
/// contents) or shrinking its finite glue.
pub open spec fn setting_badness(
    natural: int,
    stretch: GlueTotals,
    shrink: GlueTotals,
    target: int,
    mode: PackMode,
    nonempty: bool,
) -> i64 {
    let x = requested_size(natural, target, mode) - natural;
    if x > 0 {
        if governing_order(stretch) == GlueOrder::Normal && nonempty {
            badness_spec(x, stretch.normal as int) as i64
        } else {
            0
        }
    } else if x < 0 {
        if governing_order(shrink) != GlueOrder::Normal {
            0
        } else if shrink.normal < -x {
            UNSETTABLE_BAD
        } else {
            badness_spec(-x, shrink.normal as int) as i64
        }
    } else {
        0
    }
}

/// The badness part of a glue setting depends on neither the axis nor the
/// configuration: it is `setting_badness`.
pub proof fn lemma_setting_badness(
    natural: int,
    stretch: GlueTotals,
    shrink: GlueTotals,
    target: int,
    mode: PackMode,
    nonempty: bool,
    axis: Axis,
    cfg: PackConfig,
)
    ensures
        glue_setting_spec(natural, stretch, shrink, target, mode, nonempty, axis, cfg).badness
            == setting_badness(natural, stretch, shrink, target, mode, nonempty),
{
}

} // verus!
