//! The pieces of paragraph line breaking: legal breakpoints, where lines
//! begin and end, and the badness, fitness and demerits of a line.
use vstd::prelude::*;
use crate::badness::{badness, UNSETTABLE_BAD};
use crate::glue::{governing_order, GlueOrder, GlueTotals, Scaled, MAX_DIMEN};
use crate::hpack::{hlist_add, hlist_step, hlist_totals, hpack_setting, htotals_within, kept_items, lemma_hlist_step_within, HTotals};
use crate::setting::{lemma_setting_badness, setting_badness, PackConfig, PackMode};
use crate::item::{dim_ok, is_pass_through, Axis, item_ok, list_ok, simple_list_ok, simple_ok, Item, MAX_DISC_LEN, MAX_LIST_LEN};

verus! {

/// A penalty this high forbids a break.
pub const INF_PENALTY: i64 = 10000;

/// A penalty this low forces a break.
pub const EJECT_PENALTY: i64 = -10000;

/// Demerits that no sequence of lines reaches.
pub const AWFUL_BAD: i64 = 0x4000_0000_0000_0000;

/// The largest magnitude of a demerits parameter of the configuration.
pub const MAX_DEMERITS_PARAM: i64 = 0x4000_0000;

/// The largest demerits that one line can add.
pub const MAX_LINE_DEMERITS: i64 = 0x1_0000_0000;

/// How loosely or tightly a line is set, from its badness.
#[derive(Clone, Copy, Debug, PartialEq, Eq, Structural)]
pub enum Fitness {
    VeryLoose,
    Loose,
    Decent,
    Tight,
}

impl Fitness {
    pub open spec fn rank(self) -> int {
        match self {
            Fitness::VeryLoose => 0,
            Fitness::Loose => 1,
            Fitness::Decent => 2,
            Fitness::Tight => 3,
        }
    }

    /// The position of this class in `VeryLoose, Loose, Decent, Tight`.
    pub fn index(&self) -> (r: usize)
        ensures
            r == self.rank(),
    {
        match self {
            Fitness::VeryLoose => 0,
            Fitness::Loose => 1,
            Fitness::Decent => 2,
            Fitness::Tight => 3,
        }
    }
}

/// What kind of item a line is broken at.
#[derive(Clone, Copy, Debug, PartialEq, Eq, Structural)]
pub enum BreakKind {
    /// At glue, which disappears at the break.
    Glue,
    /// At a penalty.
    Penalty,
    /// At a discretionary, whose pre-break text ends the line and whose
    /// post-break text starts the next.
    Discretionary,
    /// At the end of the paragraph.
    End,
}

/// A chosen break: the position of the item broken at (the length of the
/// list for the end of the paragraph) and its kind.
#[derive(Clone, Copy, Debug, PartialEq, Eq, Structural)]
pub struct Breakpoint {
    pub position: usize,
    pub kind: BreakKind,
}

/// What the line breaker is configured with.
#[derive(Debug)]
pub struct BreakConfig {
    /// Widths of the first lines, one per line; later lines get `default_width`.
    pub line_widths: Vec<Scaled>,
    pub default_width: Scaled,
    /// Badness limit of the first pass, which breaks at no discretionary;
    /// a negative value skips that pass.
    pub pretolerance: i64,
    /// Badness limit of the second pass, which may break at discretionaries.
    pub tolerance: i64,
    /// Penalty for a break at a discretionary with pre-break text.
    pub hyphen_penalty: i64,
    /// Penalty for a break at a discretionary without pre-break text.
    pub ex_hyphen_penalty: i64,
    pub line_penalty: i64,
    /// Demerits for two adjacent lines whose fitness classes are not neighbours.
    pub adj_demerits: i64,
    /// Demerits for two consecutive lines that end at discretionaries.
    pub double_hyphen_demerits: i64,
    /// Demerits for a next-to-last line that ends at a discretionary.
    pub final_hyphen_demerits: i64,
    /// How many lines more (or fewer) than the optimum to aim for.
    pub looseness: i64,
    /// How far a line may stick out before its start is no longer tried
    /// against later breaks (when the line is not feasible).
    pub fuzz: Scaled,
}

pub open spec fn param_ok(x: i64) -> bool {
    -MAX_DEMERITS_PARAM <= x <= MAX_DEMERITS_PARAM
}

/// A configuration that the line breaker accepts: widths are dimensions in
/// range, demerits parameters are within `MAX_DEMERITS_PARAM`.
pub open spec fn config_ok(cfg: &BreakConfig) -> bool {
    &&& forall|i: int| 0 <= i < cfg.line_widths@.len() ==> dim_ok(#[trigger] cfg.line_widths@[i] as int)
    &&& dim_ok(cfg.default_width as int)
    &&& param_ok(cfg.line_penalty)
    &&& param_ok(cfg.adj_demerits)
    &&& param_ok(cfg.double_hyphen_demerits)
    &&& param_ok(cfg.final_hyphen_demerits)
}

/// The width of line `l` (counted from 1).
pub open spec fn line_width_spec(cfg: &BreakConfig, l: int) -> Scaled {
    if 1 <= l <= cfg.line_widths@.len() {
        cfg.line_widths@[l - 1]
    } else {
        cfg.default_width
    }
}

/// Computes `line_width_spec`.
pub fn line_width(cfg: &BreakConfig, l: usize) -> (w: Scaled)
    ensures
        w == line_width_spec(cfg, l as int),
{
    if 1 <= l && l <= cfg.line_widths.len() {
        cfg.line_widths[l - 1]
    } else {
        cfg.default_width
    }
}

/// Glue, kerns and penalties vanish at the start of a line.
pub open spec fn is_discardable(it: Item) -> bool {
    match it {
        Item::Glue(_) | Item::Kern(_) | Item::Penalty(_) => true,
        _ => false,
    }
}

/// The penalty of breaking at a discretionary.
pub open spec fn disc_penalty(it: Item, cfg: &BreakConfig) -> i64 {
    match it {
        Item::Discretionary(d) => if d.pre_break@.len() > 0 { cfg.hyphen_penalty } else { cfg.ex_hyphen_penalty },
        _ => 0,
    }
}

/// Whether the list may be broken at `pos` with a break of kind `kind`, and
/// with what penalty: glue that follows an item that is not discardable
/// (penalty 0); a penalty below `INF_PENALTY`; a discretionary, when
/// `allow_disc`, whose penalty is below `INF_PENALTY`; and the end of the
/// list, which is a forced break.
#[verifier::opaque]
pub open spec fn break_penalty(items: Seq<Item>, pos: int, kind: BreakKind, allow_disc: bool, cfg: &BreakConfig) -> Option<i64> {
    match kind {
        BreakKind::End => if pos == items.len() { Some(EJECT_PENALTY) } else { None },
        BreakKind::Glue => if 0 < pos < items.len() && items[pos] is Glue && !is_discardable(items[pos - 1]) {
            Some(0)
        } else {
            None
        },
        BreakKind::Penalty => if 0 <= pos < items.len() {
            match items[pos] {
                Item::Penalty(v) => if v < INF_PENALTY { Some(v) } else { None },
                _ => None,
            }
        } else {
            None
        },
        BreakKind::Discretionary => if allow_disc && 0 <= pos < items.len() && items[pos] is Discretionary
            && disc_penalty(items[pos], cfg) < INF_PENALTY {
            Some(disc_penalty(items[pos], cfg))
        } else {
            None
        },
    }
}

/// The kind of break that position `pos` offers, if any, and its penalty.
pub open spec fn break_at_spec(items: Seq<Item>, pos: int, allow_disc: bool, cfg: &BreakConfig) -> Option<(BreakKind, i64)> {
    if pos == items.len() {
        Some((BreakKind::End, EJECT_PENALTY))
    } else if 0 <= pos < items.len() {
        match items[pos] {
            Item::Glue(_) => if break_penalty(items, pos, BreakKind::Glue, allow_disc, cfg) is Some {
                Some((BreakKind::Glue, 0))
            } else {
                None
            },
            Item::Penalty(v) => if v < INF_PENALTY { Some((BreakKind::Penalty, v)) } else { None },
            Item::Discretionary(_) => if break_penalty(items, pos, BreakKind::Discretionary, allow_disc, cfg) is Some {
                Some((BreakKind::Discretionary, disc_penalty(items[pos], cfg)))
            } else {
                None
            },
            _ => None,
        }
    } else {
        None
    }
}

/// Finds the break that position `pos` offers.
pub fn break_at(items: &Vec<Item>, pos: usize, allow_disc: bool, cfg: &BreakConfig) -> (r: Option<(BreakKind, i64)>)
    requires
        pos <= items@.len(),
    ensures
        r == break_at_spec(items@, pos as int, allow_disc, cfg),
        r matches Some((k, pi)) ==> break_penalty(items@, pos as int, k, allow_disc, cfg) == Some(pi),
{
    proof {
        reveal(break_penalty);
    }
    if pos == items.len() {
        return Some((BreakKind::End, EJECT_PENALTY));
    }
    match &items[pos] {
        Item::Glue(_) => {
            if pos > 0 {
                match &items[pos - 1] {
                    Item::Glue(_) | Item::Kern(_) | Item::Penalty(_) => None,
                    _ => Some((BreakKind::Glue, 0)),
                }
            } else {
                None
            }
        },
        Item::Penalty(v) => {
            if *v < INF_PENALTY { Some((BreakKind::Penalty, *v)) } else { None }
        },
        Item::Discretionary(d) => {
            let pi = if d.pre_break.len() > 0 { cfg.hyphen_penalty } else { cfg.ex_hyphen_penalty };
            if allow_disc && pi < INF_PENALTY {
                Some((BreakKind::Discretionary, pi))
            } else {
                None
            }
        },
        _ => None,
    }
}

/// The first position at or after `p` that holds an item that is not
/// discardable, or the end of the list.
pub open spec fn prune_spec(items: Seq<Item>, p: int) -> int
    decreases items.len() - p,
{
    if p >= items.len() {
        items.len() as int
    } else if is_discardable(items[p]) {
        prune_spec(items, p + 1)
    } else {
        p
    }
}

/// Computes `prune_spec`.
pub fn prune(items: &Vec<Item>, p: usize) -> (r: usize)
    requires
        p <= items@.len(),
    ensures
        r == prune_spec(items@, p as int),
        p <= r <= items@.len(),
{
    let mut q = p;
    while q < items.len()
        invariant
            p <= q <= items@.len(),
            prune_spec(items@, q as int) == prune_spec(items@, p as int),
        decreases items@.len() - q,
    {
        match &items[q] {
            Item::Glue(_) | Item::Kern(_) | Item::Penalty(_) => {},
            _ => {
                return q;
            },
        }
        q = q + 1;
    }
    q
}

/// The text of a discretionary item (`pre`, or else post-break), empty for
/// any other item.
pub open spec fn disc_text(it: Item, pre: bool) -> Seq<Item> {
    match it {
        Item::Discretionary(d) => if pre { d.pre_break@ } else { d.post_break@ },
        _ => Seq::empty(),
    }
}

/// The items of the line that begins with the post-break text of the
/// discretionary at `post_disc` (if any) and the list from `start`, and
/// ends at a break of kind `kind` at `end`: a discretionary break adds its
/// pre-break text; the item broken at is not part of the line.
pub open spec fn line_items(items: Seq<Item>, post_disc: Option<usize>, start: int, end: int, kind: BreakKind) -> Seq<Item> {
    let post = match post_disc {
        Some(p) => disc_text(items[p as int], false),
        None => Seq::empty(),
    };
    let s = if start < end { start } else { end };
    let pre = if kind == BreakKind::Discretionary { disc_text(items[end], true) } else { Seq::empty() };
    post + items.subrange(s, end) + pre
}

/// Where a line may begin: the post-break text, if any, of a discretionary
/// of the list, and a start position within the list.
pub open spec fn line_start_ok(items: Seq<Item>, post_disc: Option<usize>, start: int) -> bool {
    &&& 0 <= start <= items.len()
    &&& post_disc matches Some(p) ==> p < items.len() && items[p as int] is Discretionary
}

/// The text of a discretionary is a list of items in range.
pub proof fn lemma_simple_is_item_ok(s: Seq<Item>)
    requires
        simple_list_ok(s),
    ensures
        forall|i: int| 0 <= i < s.len() ==> item_ok(#[trigger] s[i]),
        s.len() <= MAX_DISC_LEN,
{
    assert forall|i: int| 0 <= i < s.len() implies item_ok(#[trigger] s[i]) by {
        assert(simple_ok(s[i]));
    }
}

/// Adds the items of `src` to the totals `t` of the sequence `done`.
fn measure_into(t: &mut HTotals, src: &Vec<Item>, from: usize, to: usize, Ghost(done): Ghost<Seq<Item>>) -> (r: Ghost<Seq<Item>>)
    requires
        from <= to <= src@.len(),
        forall|i: int| from <= i < to ==> item_ok(#[trigger] src@[i]),
        done.len() + (to - from) < 4 * MAX_LIST_LEN,
        *old(t) == hlist_totals(done),
        htotals_within(*old(t), done.len() as int),
    ensures
        r@ == done + src@.subrange(from as int, to as int),
        *final(t) == hlist_totals(r@),
        htotals_within(*final(t), r@.len() as int),
{
    let ghost mut seen = done;
    let mut i = from;
    while i < to
        invariant
            from <= i <= to <= src@.len(),
            forall|j: int| from <= j < to ==> item_ok(#[trigger] src@[j]),
            done.len() + (to - from) < 4 * MAX_LIST_LEN,
            seen == done + src@.subrange(from as int, i as int),
            *t == hlist_totals(seen),
            htotals_within(*t, seen.len() as int),
        decreases to - i,
    {
        assert(item_ok(src@[i as int]));
        proof {
            assert(seen.push(src@[i as int]).drop_last() =~= seen);
        }
        hlist_add(t, &src[i], Ghost(seen.len() as int));
        proof {
            seen = seen.push(src@[i as int]);
            assert(seen =~= done + src@.subrange(from as int, i + 1));
        }
        i = i + 1;
    }
    Ghost(seen)
}

/// Measures the line that `line_items` describes.
pub fn measure_line(items: &Vec<Item>, post_disc: Option<usize>, start: usize, end: usize, kind: BreakKind) -> (t: HTotals)
    requires
        list_ok(items@),
        line_start_ok(items@, post_disc, start as int),
        end <= items@.len(),
        kind == BreakKind::Discretionary ==> end < items@.len() && items@[end as int] is Discretionary,
    ensures
        t == hlist_totals(line_items(items@, post_disc, start as int, end as int, kind)),
        htotals_within(t, 3 * MAX_LIST_LEN),
{
    let mut t = HTotals {
        width: 0,
        height: 0,
        depth: 0,
        stretch: GlueTotals::zero(),
        shrink: GlueTotals::zero(),
    };
    let ghost mut seen: Seq<Item> = Seq::empty();
    assert(hlist_totals(seen) == t);
    if let Some(p) = post_disc {
        if let Item::Discretionary(d) = &items[p] {
            assert(item_ok(items@[p as int]));
            proof { lemma_simple_is_item_ok(d.post_break@); }
            let Ghost(s1) = measure_into(&mut t, &d.post_break, 0, d.post_break.len(), Ghost(seen));
            proof {
                seen = s1;
                assert(d.post_break@.subrange(0, d.post_break@.len() as int) =~= d.post_break@);
            }
        }
    }
    let s = if start < end { start } else { end };
    let Ghost(s2) = measure_into(&mut t, items, s, end, Ghost(seen));
    proof { seen = s2; }
    if let BreakKind::Discretionary = kind {
        if let Item::Discretionary(d) = &items[end] {
            assert(item_ok(items@[end as int]));
            proof { lemma_simple_is_item_ok(d.pre_break@); }
            let Ghost(s3) = measure_into(&mut t, &d.pre_break, 0, d.pre_break.len(), Ghost(seen));
            proof {
                seen = s3;
                assert(d.pre_break@.subrange(0, d.pre_break@.len() as int) =~= d.pre_break@);
            }
        }
    }
    assert(seen =~= line_items(items@, post_disc, start as int, end as int, kind));
    t
}

/// The fitness class of a line that stretches with badness `b`.
pub open spec fn stretch_fitness(b: int) -> Fitness {
    if b > 99 {
        Fitness::VeryLoose
    } else if b > 12 {
        Fitness::Loose
    } else {
        Fitness::Decent
    }
}

/// Badness and fitness class of a line of width `width` with totals `t`
/// (`nonempty`: the line keeps an item when packed). The badness is the one
/// the horizontal packer gives the line packed to exactly `width`; the
/// class comes from it: very loose, loose or decent for a line that
/// stretches, tight or decent for one that shrinks.
pub open spec fn line_fit_spec(width: int, t: HTotals, nonempty: bool) -> (i64, Fitness) {
    let b = setting_badness(t.width as int, t.stretch, t.shrink, width, PackMode::Exactly, nonempty);
    if width > t.width {
        (b, stretch_fitness(b as int))
    } else {
        (b, if b > 12 { Fitness::Tight } else { Fitness::Decent })
    }
}

/// Computes `line_fit_spec`.
pub fn line_fit(width: Scaled, t: &HTotals, nonempty: bool) -> (r: (i64, Fitness))
    requires
        dim_ok(width as int),
        htotals_within(*t, 3 * MAX_LIST_LEN),
    ensures
        r == line_fit_spec(width as int, *t, nonempty),
        0 <= r.0 <= UNSETTABLE_BAD,
{
    let x = width - t.width;
    let b: i64 = if x > 0 {
        if t.stretch.filll == 0 && t.stretch.fill == 0 && t.stretch.fil == 0 && nonempty {
            badness(x, t.stretch.normal)
        } else {
            0
        }
    } else if x < 0 {
        if t.shrink.filll != 0 || t.shrink.fill != 0 || t.shrink.fil != 0 {
            0
        } else if t.shrink.normal < -x {
            UNSETTABLE_BAD
        } else {
            badness(-x, t.shrink.normal)
        }
    } else {
        0
    };
    if x > 0 {
        let fit = if b > 99 {
            Fitness::VeryLoose
        } else if b > 12 {
            Fitness::Loose
        } else {
            Fitness::Decent
        };
        (b, fit)
    } else {
        (b, if b > 12 { Fitness::Tight } else { Fitness::Decent })
    }
}

/// Whether a line of width `width` with totals `t` sticks out by more than
/// `fuzz` when its glue is shrunk as far as it goes: it has no infinite
/// shrink and its excess over `width`, less its finite shrink, is positive
/// and above `fuzz`.
pub open spec fn overfull_beyond(width: int, t: HTotals, fuzz: int) -> bool {
    let over = (t.width - width) - t.shrink.normal;
    governing_order(t.shrink) == GlueOrder::Normal && over > 0 && over > fuzz
}

/// Computes `overfull_beyond`.
pub fn line_overfull_beyond(width: Scaled, t: &HTotals, fuzz: Scaled) -> (r: bool)
    requires
        dim_ok(width as int),
        htotals_within(*t, 3 * MAX_LIST_LEN),
    ensures
        r == overfull_beyond(width as int, *t, fuzz as int),
{
    let over = t.width - width - t.shrink.normal;
    t.shrink.filll == 0 && t.shrink.fill == 0 && t.shrink.fil == 0 && over > 0 && over > fuzz
}

/// Whether `s` holds an item that stays in a box packed from it.
pub open spec fn has_kept(s: Seq<Item>) -> bool {
    exists|j: int| 0 <= j < s.len() && !is_pass_through(#[trigger] s[j])
}

/// A box keeps an item exactly when its list holds one that is not
/// passed through.
pub proof fn lemma_kept_items_nonempty(s: Seq<Item>)
    ensures
        kept_items(s).len() > 0 <==> has_kept(s),
    decreases s.len(),
{
    if s.len() > 0 {
        let t = s.drop_last();
        lemma_kept_items_nonempty(t);
        if has_kept(t) {
            let j = choose|j: int| 0 <= j < t.len() && !is_pass_through(#[trigger] t[j]);
            assert(s[j] == t[j]);
        }
        if has_kept(s) && is_pass_through(s.last()) {
            let j = choose|j: int| 0 <= j < s.len() && !is_pass_through(#[trigger] s[j]);
            assert(j < t.len());
            assert(t[j] == s[j]);
        }
    }
}

/// A trial line is scored exactly as the horizontal packer scores it: the
/// badness of `line_fit_spec` is the badness of `hpack` packing the line to
/// exactly `width`.
pub proof fn lemma_line_badness_is_packers(line: Seq<Item>, width: Scaled, cfg: PackConfig)
    ensures
        line_fit_spec(width as int, hlist_totals(line), has_kept(line)).0
            == hpack_setting(line, width, PackMode::Exactly, cfg).badness,
{
    lemma_kept_items_nonempty(line);
    let t = hlist_totals(line);
    lemma_setting_badness(t.width as int, t.stretch, t.shrink, width as int, PackMode::Exactly, kept_items(line).len() > 0, Axis::Horizontal, cfg);
}

/// Whether the items of the list from `from` up to `to` include one that
/// is not passed through.
fn range_has_kept(items: &Vec<Item>, from: usize, to: usize) -> (r: bool)
    requires
        from <= to <= items@.len(),
    ensures
        r == has_kept(items@.subrange(from as int, to as int)),
{
    let mut i = from;
    while i < to
        invariant
            from <= i <= to <= items@.len(),
            forall|j: int| from <= j < i ==> is_pass_through(#[trigger] items@[j]),
        decreases to - i,
    {
        match &items[i] {
            Item::Insertion(_) | Item::Adjustment(_) | Item::Mark(_) => {},
            _ => {
                assert(items@.subrange(from as int, to as int)[i - from] == items@[i as int]);
                return true;
            },
        }
        i = i + 1;
    }
    proof {
        let sub = items@.subrange(from as int, to as int);
        assert forall|j: int| 0 <= j < sub.len() implies is_pass_through(#[trigger] sub[j]) by {
            assert(sub[j] == items@[from + j]);
        }
    }
    false
}

/// Whether the line that `line_items` describes keeps an item when packed.
pub fn line_has_content(items: &Vec<Item>, post_disc: Option<usize>, start: usize, end: usize, kind: BreakKind) -> (r: bool)
    requires
        line_start_ok(items@, post_disc, start as int),
        end <= items@.len(),
        kind == BreakKind::Discretionary ==> end < items@.len() && items@[end as int] is Discretionary,
        list_ok(items@),
    ensures
        r == has_kept(line_items(items@, post_disc, start as int, end as int, kind)),
{
    let ghost line = line_items(items@, post_disc, start as int, end as int, kind);
    let s = if start < end { start } else { end };
    let ghost post = match post_disc { Some(p) => disc_text(items@[p as int], false), None => Seq::empty() };
    let ghost pre = if kind == BreakKind::Discretionary { disc_text(items@[end as int], true) } else { Seq::empty() };
    let ghost mid = items@.subrange(s as int, end as int);
    assert(line =~= post + mid + pre);
    let mut post_len: usize = 0;
    if let Some(p) = post_disc {
        if let Item::Discretionary(d) = &items[p] {
            post_len = d.post_break.len();
            assert(item_ok(items@[p as int]));
        }
    }
    let mut pre_len: usize = 0;
    if let BreakKind::Discretionary = kind {
        if let Item::Discretionary(d) = &items[end] {
            pre_len = d.pre_break.len();
            assert(item_ok(items@[end as int]));
        }
    }
    assert(post_len == post.len() && pre_len == pre.len());
    if post_len > 0 {
        assert(simple_ok(post[0]));
        assert(line[0] == post[0]);
        return true;
    }
    if pre_len > 0 {
        assert(simple_ok(pre[0]));
        assert(line[mid.len() as int] == pre[0]);
        return true;
    }
    let r = range_has_kept(items, s, end);
    proof {
        assert(line =~= mid);
    }
    r
}

pub open spec fn abs(x: int) -> int {
    if x < 0 { -x } else { x }
}

/// Demerits of one line with badness `b` ending at a break of penalty `pi`
/// and fitness class `fit`, after a line of class `prev_fit`:
/// `(line_penalty + b)^2` (or `100_000_000` once that sum reaches 10000 in
/// magnitude), plus `pi^2` for a positive penalty or minus `pi^2` for a
/// negative one that does not force the break; plus the double- or (at the
/// end of the paragraph) final-hyphen demerits after two discretionary
/// breaks in a row; plus `adj_demerits` when the classes are not neighbours.
pub open spec fn line_demerits_spec(
    cfg: &BreakConfig,
    b: int,
    pi: int,
    fit: Fitness,
    prev_fit: Fitness,
    hyphenated: bool,
    prev_hyphenated: bool,
    at_end: bool,
) -> int {
    let lb = cfg.line_penalty + b;
    let base = if abs(lb) >= 10000 { 100_000_000 } else { lb * lb };
    let with_pi = if pi > 0 {
        base + pi * pi
    } else if EJECT_PENALTY < pi < 0 {
        base - pi * pi
    } else {
        base
    };
    let with_hyphen = if hyphenated && prev_hyphenated {
        with_pi + if at_end { cfg.final_hyphen_demerits } else { cfg.double_hyphen_demerits }
    } else {
        with_pi
    };
    if abs(fit.rank() - prev_fit.rank()) > 1 {
        with_hyphen + cfg.adj_demerits
    } else {
        with_hyphen
    }
}

/// Computes `line_demerits_spec`.
pub fn line_demerits(
    cfg: &BreakConfig,
    b: i64,
    pi: i64,
    fit: Fitness,
    prev_fit: Fitness,
    hyphenated: bool,
    prev_hyphenated: bool,
    at_end: bool,
) -> (d: i64)
    requires
        config_ok(cfg),
        0 <= b <= UNSETTABLE_BAD,
        EJECT_PENALTY <= pi < INF_PENALTY,
    ensures
        d == line_demerits_spec(cfg, b as int, pi as int, fit, prev_fit, hyphenated, prev_hyphenated, at_end),
        -MAX_LINE_DEMERITS <= d <= MAX_LINE_DEMERITS,
{
    let lb = cfg.line_penalty + b;
    let mut d: i64 = if lb >= 10000 || lb <= -10000 {
        100_000_000
    } else {
        assert(0 <= lb * lb <= 10000 * 10000) by (nonlinear_arith)
            requires
                -10000 < lb < 10000,
        ;
        lb * lb
    };
    assert(0 <= pi * pi <= 10000 * 10000) by (nonlinear_arith)
        requires
            -10000 <= pi <= 10000,
    ;
    if pi > 0 {
        d = d + pi * pi;
    } else if EJECT_PENALTY < pi && pi < 0 {
        d = d - pi * pi;
    }
    if hyphenated && prev_hyphenated {
        if at_end {
            d = d + cfg.final_hyphen_demerits;
        } else {
            d = d + cfg.double_hyphen_demerits;
        }
    }
    let df = fit.index() as i64 - prev_fit.index() as i64;
    if df > 1 || df < -1 {
        d = d + cfg.adj_demerits;
    }
    d
}

/// The start found by pruning is at or after `p`, within the list.
pub proof fn lemma_prune_ge(items: Seq<Item>, p: int)
    ensures
        prune_spec(items, p) >= p || p > items.len(),
        prune_spec(items, p) <= items.len() || p > items.len(),
    decreases items.len() - p,
{
    if p < items.len() && is_discardable(items[p]) {
        lemma_prune_ge(items, p + 1);
    }
}

/// Where the line after a break at `c` of kind `kind` begins.
pub struct NextLine {
    pub post_disc: Option<usize>,
    pub start: usize,
}

/// Where the line after a break of kind `kind` at `c` begins: after a
/// discretionary with post-break text, with that text and the next item;
/// otherwise at the first item after the break that is not discardable.
pub open spec fn next_line_spec(items: Seq<Item>, c: int, kind: BreakKind) -> (Option<usize>, int) {
    if kind == BreakKind::End {
        (None, items.len() as int)
    } else if kind == BreakKind::Discretionary && disc_text(items[c], false).len() > 0 {
        (Some(c as usize), c + 1)
    } else {
        (None, prune_spec(items, c + 1))
    }
}

/// Computes `next_line_spec`.
pub fn next_line(items: &Vec<Item>, c: usize, kind: BreakKind) -> (r: NextLine)
    requires
        c <= items@.len(),
        items@.len() <= MAX_LIST_LEN,
        kind != BreakKind::End ==> c < items@.len(),
        kind == BreakKind::Discretionary ==> items@[c as int] is Discretionary,
    ensures
        (r.post_disc, r.start as int) == next_line_spec(items@, c as int, kind),
        line_start_ok(items@, r.post_disc, r.start as int),
{
    match kind {
        BreakKind::End => NextLine { post_disc: None, start: items.len() },
        BreakKind::Discretionary => {
            let has_post = match &items[c] {
                Item::Discretionary(d) => d.post_break.len() > 0,
                _ => false,
            };
            if has_post {
                NextLine { post_disc: Some(c), start: c + 1 }
            } else {
                NextLine { post_disc: None, start: prune(items, c + 1) }
            }
        },
        _ => NextLine { post_disc: None, start: prune(items, c + 1) },
    }
}

} // verus!
