//! Paragraph line breaking: a pruned search over active breakpoints, in one
//! or two passes, and the breaks it settles on.
use vstd::prelude::*;
use crate::badness::UNSETTABLE_BAD;
use crate::hpack::hlist_totals;
use crate::item::{dim_ok, list_ok, Item, MAX_LIST_LEN};
use crate::linebreak::{
    break_at, break_at_spec, break_penalty, config_ok, line_demerits, line_demerits_spec, line_fit, line_fit_spec, line_overfull_beyond, overfull_beyond, has_kept, line_has_content,
    line_items, line_start_ok, line_width, line_width_spec, measure_line, next_line, next_line_spec, BreakConfig, BreakKind,
    Breakpoint, Fitness, NextLine, AWFUL_BAD, EJECT_PENALTY, INF_PENALTY, MAX_LINE_DEMERITS,
};

verus! {

/// A break that has been recorded as feasible: where it is, and the break
/// before it on the best way found to reach it (`None`: the start of the
/// paragraph).
#[derive(Clone, Copy, Debug, PartialEq, Eq, Structural)]
pub struct Passive {
    pub position: usize,
    pub kind: BreakKind,
    pub prev: Option<usize>,
}

/// A breakpoint still under consideration as the end of the line that
/// begins there.
#[derive(Clone, Copy, Debug, PartialEq, Eq, Structural)]
pub struct ActiveNode {
    /// The number of the line that begins at this break.
    pub line_number: usize,
    /// The fitness class of the line that ends at this break.
    pub fitness: Fitness,
    /// Whether this break is at a discretionary.
    pub hyphenated: bool,
    /// Demerits of the best way found to reach this break.
    pub total_demerits: i64,
    /// The recorded break (an index into the passive breaks), or `None` for
    /// the start of the paragraph.
    pub passive: Option<usize>,
    /// Where the next line begins in the list.
    pub line_start: usize,
    /// The discretionary whose post-break text begins the next line.
    pub post_disc: Option<usize>,
}

/// Recorded break `i` is a legal break of the list, and links to an
/// earlier recorded break at an earlier position.
pub open spec fn passive_entry_ok(items: Seq<Item>, cfg: &BreakConfig, passive: Seq<Passive>, i: int, allow_disc: bool) -> bool {
    &&& passive[i].position <= items.len()
    &&& break_penalty(items, passive[i].position as int, passive[i].kind, allow_disc, cfg) is Some
    &&& passive[i].prev matches Some(j) ==> j < i && passive[j as int].position < passive[i].position
}

/// Every recorded break is legal and links back to an earlier one.
pub open spec fn passive_ok(items: Seq<Item>, cfg: &BreakConfig, passive: Seq<Passive>, allow_disc: bool) -> bool {
    forall|i: int| 0 <= i < passive.len() ==> #[trigger] passive_entry_ok(items, cfg, passive, i, allow_disc)
}

/// An active node seen from position `c` of the scan: its line number is
/// at most `c + 1`, its demerits are what that many lines can add up to,
/// its break is a recorded one before `c`, and its next line starts in the list.
pub open spec fn node_ok(items: Seq<Item>, r: ActiveNode, passive: Seq<Passive>, c: int) -> bool {
    &&& 1 <= r.line_number <= c + 1
    &&& -(r.line_number - 1) * MAX_LINE_DEMERITS <= r.total_demerits <= (r.line_number - 1) * MAX_LINE_DEMERITS
    &&& r.passive matches Some(k) ==> k < passive.len() && passive[k as int].position < c
    &&& line_start_ok(items, r.post_disc, r.line_start as int)
}

pub open spec fn active_ok(items: Seq<Item>, active: Seq<ActiveNode>, passive: Seq<Passive>, c: int) -> bool {
    forall|i: int| 0 <= i < active.len() ==> node_ok(items, #[trigger] active[i], passive, c)
}

/// The running minima of one breakpoint, per fitness class: the best
/// demerits, and the recorded break and line number that give them.
pub struct Champions {
    pub minimal: Vec<i64>,
    pub best_place: Vec<Option<usize>>,
    pub best_line: Vec<usize>,
    pub minimum: i64,
}

/// The champions as values.
pub struct ChampState {
    pub minimal: Seq<i64>,
    pub best_place: Seq<Option<usize>>,
    pub best_line: Seq<usize>,
    pub minimum: i64,
}

pub open spec fn champ_view(ch: &Champions) -> ChampState {
    ChampState { minimal: ch.minimal@, best_place: ch.best_place@, best_line: ch.best_line@, minimum: ch.minimum }
}

/// No champion yet in any class.
pub open spec fn champs_init() -> ChampState {
    ChampState {
        minimal: Seq::new(4, |i: int| AWFUL_BAD),
        best_place: Seq::new(4, |i: int| None),
        best_line: Seq::new(4, |i: int| 0usize),
        minimum: AWFUL_BAD,
    }
}

/// A feasible break into class `f` with total demerits `d`, reached from
/// `place` by line `l`, becomes the class's champion if it is at least as
/// good; the overall minimum follows.
pub open spec fn record_spec(ch: ChampState, f: int, d: i64, place: Option<usize>, l: usize) -> ChampState {
    if d <= ch.minimal[f] {
        ChampState {
            minimal: ch.minimal.update(f, d),
            best_place: ch.best_place.update(f, place),
            best_line: ch.best_line.update(f, l),
            minimum: if d < ch.minimum { d } else { ch.minimum },
        }
    } else {
        ch
    }
}

/// The champions, the new active list and the recorded breaks, as values.
pub struct Growth {
    pub ch: ChampState,
    pub new_active: Seq<ActiveNode>,
    pub passive: Seq<Passive>,
}

/// The demerits within which a class champion becomes an active node:
/// `|adj_demerits|` above the best.
pub open spec fn create_limit(minimum: i64, adj: i64) -> i64 {
    let a = if adj < 0 { -adj } else { adj as int };
    if a >= AWFUL_BAD - minimum { (AWFUL_BAD - 1) as i64 } else { (minimum + a) as i64 }
}

/// The champion of class `f`, if within `limit`, recorded as a break at `c`
/// and made an active node; then the class is cleared.
pub open spec fn create_class_spec(g: Growth, f: int, limit: i64, c: usize, kind: BreakKind, post: Option<usize>, start: usize) -> Growth {
    let ch = ChampState { minimal: g.ch.minimal.update(f, AWFUL_BAD), ..g.ch };
    if g.ch.minimal[f] <= limit {
        Growth {
            ch,
            new_active: g.new_active.push(ActiveNode {
                line_number: (g.ch.best_line[f] + 1) as usize,
                fitness: fitness_of(f),
                hyphenated: kind == BreakKind::Discretionary,
                total_demerits: g.ch.minimal[f],
                passive: Some(g.passive.len() as usize),
                line_start: start,
                post_disc: post,
            }),
            passive: g.passive.push(Passive { position: c, kind, prev: g.ch.best_place[f] }),
        }
    } else {
        Growth { ch, ..g }
    }
}

/// Classes `0 .. f` handled in turn.
pub open spec fn create_classes(g: Growth, f: nat, limit: i64, c: usize, kind: BreakKind, post: Option<usize>, start: usize) -> Growth
    decreases f,
{
    if f == 0 {
        g
    } else {
        create_class_spec(create_classes(g, (f - 1) as nat, limit, c, kind, post, start), f - 1, limit, c, kind, post, start)
    }
}

/// New active nodes for every class champion within `create_limit` of the
/// best, and the champions cleared.
pub open spec fn create_spec(g: Growth, c: usize, kind: BreakKind, post: Option<usize>, start: usize, cfg: &BreakConfig) -> Growth {
    let g4 = create_classes(g, 4, create_limit(g.ch.minimum, cfg.adj_demerits), c, kind, post, start);
    Growth { ch: ChampState { minimum: AWFUL_BAD, ..g4.ch }, ..g4 }
}

pub open spec fn champions_ok(ch: &Champions, passive: Seq<Passive>, c: int) -> bool {
    &&& ch.minimal@.len() == 4
    &&& ch.best_place@.len() == 4
    &&& ch.best_line@.len() == 4
    &&& forall|f: int| 0 <= f < 4 ==> ch.minimum <= #[trigger] ch.minimal@[f] <= AWFUL_BAD
    &&& ch.minimum == AWFUL_BAD || exists|f: int| 0 <= f < 4 && #[trigger] ch.minimal@[f] == ch.minimum
    &&& forall|f: int| 0 <= f < 4 && #[trigger] ch.minimal@[f] < AWFUL_BAD ==> {
        &&& 1 <= ch.best_line@[f] <= c + 1
        &&& -ch.best_line@[f] * MAX_LINE_DEMERITS <= ch.minimal@[f] <= ch.best_line@[f] * MAX_LINE_DEMERITS
        &&& ch.best_place@[f] matches Some(k) ==> k < passive.len() && passive[k as int].position < c
    }
}

fn new_champions() -> (ch: Champions)
    ensures
        forall|passive: Seq<Passive>, c: int| champions_ok(&ch, passive, c),
        ch.minimum == AWFUL_BAD,
        champ_view(&ch) == champs_init(),
{
    let mut minimal: Vec<i64> = Vec::new();
    let mut best_place: Vec<Option<usize>> = Vec::new();
    let mut best_line: Vec<usize> = Vec::new();
    let mut f: usize = 0;
    while f < 4
        invariant
            f <= 4,
            minimal@.len() == f,
            best_place@.len() == f,
            best_line@.len() == f,
            forall|g: int| 0 <= g < f ==> #[trigger] minimal@[g] == AWFUL_BAD,
            forall|g: int| 0 <= g < f ==> #[trigger] best_place@[g] == None::<usize>,
            forall|g: int| 0 <= g < f ==> #[trigger] best_line@[g] == 0,
        decreases 4 - f,
    {
        minimal.push(AWFUL_BAD);
        best_place.push(None);
        best_line.push(0);
        f = f + 1;
    }
    let ch = Champions { minimal, best_place, best_line, minimum: AWFUL_BAD };
    assert(ch.minimal@ =~= champs_init().minimal);
    assert(ch.best_place@ =~= champs_init().best_place);
    assert(ch.best_line@ =~= champs_init().best_line);
    ch
}

pub open spec fn fitness_of(f: int) -> Fitness {
    if f == 0 {
        Fitness::VeryLoose
    } else if f == 1 {
        Fitness::Loose
    } else if f == 2 {
        Fitness::Decent
    } else {
        Fitness::Tight
    }
}

fn fitness_at(f: usize) -> (r: Fitness)
    ensures
        r == fitness_of(f as int),
{
    if f == 0 {
        Fitness::VeryLoose
    } else if f == 1 {
        Fitness::Loose
    } else if f == 2 {
        Fitness::Decent
    } else {
        Fitness::Tight
    }
}


/// How the recorded breaks and the new active list have grown, at the
/// breakpoint `c`, from `p0` and `a0`: old entries are kept, every new
/// recorded break is at `c`, and every new active node is sound from
/// `c + 1` on and links to a break at `c`.
pub open spec fn growth_ok(
    items: Seq<Item>,
    cfg: &BreakConfig,
    allow_disc: bool,
    c: int,
    p0: Seq<Passive>,
    a0: Seq<ActiveNode>,
    passive: Seq<Passive>,
    new_active: Seq<ActiveNode>,
) -> bool {
    &&& passive_ok(items, cfg, passive, allow_disc)
    &&& p0.len() <= passive.len()
    &&& forall|i: int| 0 <= i < p0.len() ==> #[trigger] passive[i] == p0[i]
    &&& forall|i: int| p0.len() <= i < passive.len() ==> (#[trigger] passive[i]).position == c
    &&& a0.len() <= new_active.len()
    &&& forall|i: int| 0 <= i < a0.len() ==> #[trigger] new_active[i] == a0[i]
    &&& forall|i: int| a0.len() <= i < new_active.len() ==> {
        &&& node_ok(items, #[trigger] new_active[i], passive, c + 1)
        &&& new_active[i].passive matches Some(k) && passive[k as int].position == c
    }
}

proof fn lemma_passive_push(items: Seq<Item>, cfg: &BreakConfig, allow_disc: bool, c: int, p0: Seq<Passive>, pa: Seq<Passive>, p: Passive)
    requires
        passive_ok(items, cfg, pa, allow_disc),
        p0.len() <= pa.len(),
        forall|i: int| 0 <= i < p0.len() ==> #[trigger] pa[i] == p0[i],
        p.position == c,
        c <= items.len(),
        break_penalty(items, c, p.kind, allow_disc, cfg) is Some,
        p.prev matches Some(j) ==> j < p0.len() && p0[j as int].position < c,
    ensures
        passive_ok(items, cfg, pa.push(p), allow_disc),
{
    let q = pa.push(p);
    assert forall|i: int| 0 <= i < q.len() implies #[trigger] passive_entry_ok(items, cfg, q, i, allow_disc) by {
        if i < pa.len() {
            assert(passive_entry_ok(items, cfg, pa, i, allow_disc));
            assert(q[i] == pa[i]);
            if let Some(j) = pa[i].prev {
                assert(q[j as int] == pa[j as int]);
            }
        } else {
            if let Some(j) = p.prev {
                assert(pa[j as int] == p0[j as int]);
                assert(q[j as int] == pa[j as int]);
            }
        }
    }
}

proof fn lemma_nodes_push(
    items: Seq<Item>,
    c: int,
    a0: Seq<ActiveNode>,
    pa: Seq<Passive>,
    na: Seq<ActiveNode>,
    p: Passive,
    r: ActiveNode,
)
    requires
        a0.len() <= na.len(),
        forall|i: int| 0 <= i < a0.len() ==> #[trigger] na[i] == a0[i],
        forall|i: int| a0.len() <= i < na.len() ==> {
            &&& node_ok(items, #[trigger] na[i], pa, c + 1)
            &&& na[i].passive matches Some(k) && pa[k as int].position == c
        },
        p.position == c,
        pa.len() < usize::MAX,
        r.passive == Some(pa.len() as usize),
        node_ok(items, r, pa.push(p), c + 1),
    ensures
        forall|i: int| 0 <= i < a0.len() ==> #[trigger] na.push(r)[i] == a0[i],
        forall|i: int| a0.len() <= i < na.push(r).len() ==> {
            &&& node_ok(items, #[trigger] na.push(r)[i], pa.push(p), c + 1)
            &&& na.push(r)[i].passive matches Some(k) && pa.push(p)[k as int].position == c
        },
{
    let q = pa.push(p);
    let m = na.push(r);
    assert forall|i: int| a0.len() <= i < m.len() implies {
        &&& node_ok(items, #[trigger] m[i], q, c + 1)
        &&& m[i].passive matches Some(kk) && q[kk as int].position == c
    } by {
        if i < na.len() {
            assert(m[i] == na[i]);
            assert(node_ok(items, na[i], pa, c + 1));
            if let Some(kk) = na[i].passive {
                assert(q[kk as int] == pa[kk as int]);
            }
        } else {
            assert(m[i] == r);
            assert(q[pa.len() as int] == p);
        }
    }
    assert forall|i: int| 0 <= i < a0.len() implies #[trigger] m[i] == a0[i] by {
        assert(m[i] == na[i]);
    }
}

proof fn lemma_growth_push(
    items: Seq<Item>,
    cfg: &BreakConfig,
    allow_disc: bool,
    c: int,
    p0: Seq<Passive>,
    a0: Seq<ActiveNode>,
    pa: Seq<Passive>,
    na: Seq<ActiveNode>,
    p: Passive,
    r: ActiveNode,
)
    requires
        growth_ok(items, cfg, allow_disc, c, p0, a0, pa, na),
        p.position == c,
        c <= items.len(),
        break_penalty(items, c, p.kind, allow_disc, cfg) is Some,
        p.prev matches Some(j) ==> j < p0.len() && p0[j as int].position < c,
        pa.len() < usize::MAX,
        r.passive == Some(pa.len() as usize),
        node_ok(items, r, pa.push(p), c + 1),
    ensures
        growth_ok(items, cfg, allow_disc, c, p0, a0, pa.push(p), na.push(r)),
{
    lemma_passive_push(items, cfg, allow_disc, c, p0, pa, p);
    lemma_nodes_push(items, c, a0, pa, na, p, r);
    let q = pa.push(p);
    assert forall|i: int| 0 <= i < p0.len() implies #[trigger] q[i] == p0[i] by {
        assert(q[i] == pa[i]);
    }
    assert forall|i: int| p0.len() <= i < q.len() implies (#[trigger] q[i]).position == c by {
        if i < pa.len() {
            assert(q[i] == pa[i]);
        }
    }
}

/// Creates the active node for fitness class `f`, if its champion is within
/// `limit` demerits; then clears that champion.
fn create_for_class(
    ch: &mut Champions,
    f: usize,
    limit: i64,
    new_active: &mut Vec<ActiveNode>,
    passive: &mut Vec<Passive>,
    c: usize,
    kind: BreakKind,
    next: &NextLine,
    cfg: &BreakConfig,
    Ghost(items): Ghost<Seq<Item>>,
    Ghost(allow_disc): Ghost<bool>,
    Ghost(p0): Ghost<Seq<Passive>>,
    Ghost(a0): Ghost<Seq<ActiveNode>>,
)
    requires
        f < 4,
        c <= MAX_LIST_LEN,
        limit < AWFUL_BAD,
        old(ch).minimal@.len() == 4,
        old(ch).best_place@.len() == 4,
        old(ch).best_line@.len() == 4,
        old(ch).minimal@[f as int] <= limit ==> {
            &&& 1 <= old(ch).best_line@[f as int] <= c + 1
            &&& -old(ch).best_line@[f as int] * MAX_LINE_DEMERITS <= old(ch).minimal@[f as int]
            &&& old(ch).minimal@[f as int] <= old(ch).best_line@[f as int] * MAX_LINE_DEMERITS
            &&& old(ch).best_place@[f as int] matches Some(k) ==> k < p0.len() && p0[k as int].position < c
        },
        line_start_ok(items, next.post_disc, next.start as int),
        break_penalty(items, c as int, kind, allow_disc, cfg) is Some,
        c <= items.len(),
        growth_ok(items, cfg, allow_disc, c as int, p0, a0, old(passive)@, old(new_active)@),
    ensures
        final(ch).minimum == old(ch).minimum,
        final(ch).minimal@ == old(ch).minimal@.update(f as int, AWFUL_BAD),
        final(ch).best_place@ == old(ch).best_place@,
        final(ch).best_line@ == old(ch).best_line@,
        final(passive)@.len() == old(passive)@.len() + if old(ch).minimal@[f as int] <= limit { 1int } else { 0int },
        final(new_active)@.len() == old(new_active)@.len() + if old(ch).minimal@[f as int] <= limit { 1int } else { 0int },
        growth_ok(items, cfg, allow_disc, c as int, p0, a0, final(passive)@, final(new_active)@),
        (Growth { ch: champ_view(final(ch)), new_active: final(new_active)@, passive: final(passive)@ })
            == create_class_spec(Growth { ch: champ_view(old(ch)), new_active: old(new_active)@, passive: old(passive)@ },
                f as int, limit, c, kind, next.post_disc, next.start),
{
    let m = ch.minimal[f];
    let ghost pa = passive@;
    let ghost na = new_active@;
    if m <= limit {
        passive.push(Passive { position: c, kind, prev: ch.best_place[f] });
        new_active.push(ActiveNode {
            line_number: ch.best_line[f] + 1,
            fitness: fitness_at(f),
            hyphenated: match kind { BreakKind::Discretionary => true, _ => false },
            total_demerits: m,
            passive: Some(passive.len() - 1),
            line_start: next.start,
            post_disc: next.post_disc,
        });
        proof {
            let p = Passive { position: c, kind, prev: old(ch).best_place@[f as int] };
            let r = new_active@[na.len() as int];
            assert(passive@ =~= pa.push(p));
            assert(new_active@ =~= na.push(r));
            assert(node_ok(items, r, pa.push(p), c + 1));
            lemma_growth_push(items, cfg, allow_disc, c as int, p0, a0, pa, na, p, r);
        }
    }
    ch.minimal.set(f, AWFUL_BAD);
    proof {
        let g = create_class_spec(Growth { ch: champ_view(old(ch)), new_active: na, passive: pa },
            f as int, limit, c, kind, next.post_disc, next.start);
        assert(g.ch == champ_view(ch));
    }
}

/// Creates the active nodes for the best breaks at `c` just found: one for
/// each fitness class whose champion is within `|adj_demerits|` of the
/// best, each linked to a new recorded break at `c`; then clears the
/// champions.
fn create_nodes(
    ch: &mut Champions,
    new_active: &mut Vec<ActiveNode>,
    passive: &mut Vec<Passive>,
    c: usize,
    kind: BreakKind,
    next: &NextLine,
    cfg: &BreakConfig,
    Ghost(items): Ghost<Seq<Item>>,
    Ghost(allow_disc): Ghost<bool>,
    Ghost(p0): Ghost<Seq<Passive>>,
    Ghost(a0): Ghost<Seq<ActiveNode>>,
)
    requires
        c <= MAX_LIST_LEN,
        c <= items.len(),
        config_ok(cfg),
        champions_ok(old(ch), p0, c as int),
        old(ch).minimum < AWFUL_BAD,
        line_start_ok(items, next.post_disc, next.start as int),
        break_penalty(items, c as int, kind, allow_disc, cfg) is Some,
        growth_ok(items, cfg, allow_disc, c as int, p0, a0, old(passive)@, old(new_active)@),
    ensures
        champions_ok(final(ch), p0, c as int),
        final(ch).minimum == AWFUL_BAD,
        forall|f: int| 0 <= f < 4 ==> #[trigger] final(ch).minimal@[f] == AWFUL_BAD,
        growth_ok(items, cfg, allow_disc, c as int, p0, a0, final(passive)@, final(new_active)@),
        final(passive)@.len() <= old(passive)@.len() + 4,
        final(new_active)@.len() > old(new_active)@.len(),
        (Growth { ch: champ_view(final(ch)), new_active: final(new_active)@, passive: final(passive)@ })
            == create_spec(Growth { ch: champ_view(old(ch)), new_active: old(new_active)@, passive: old(passive)@ },
                c, kind, next.post_disc, next.start, cfg),
{
    let adj = if cfg.adj_demerits < 0 { -cfg.adj_demerits } else { cfg.adj_demerits };
    let limit = if adj >= AWFUL_BAD - ch.minimum { AWFUL_BAD - 1 } else { ch.minimum + adj };
    let ghost ch0 = ch.minimal@;
    let ghost pa0 = passive@;
    let ghost na0 = new_active@;
    let ghost fmin = choose|f: int| 0 <= f < 4 && ch0[f] == ch.minimum;
    let ghost g0 = Growth { ch: champ_view(ch), new_active: new_active@, passive: passive@ };
    assert(limit == create_limit(g0.ch.minimum, cfg.adj_demerits));
    let mut f: usize = 0;
    assert(g0 == create_classes(g0, 0, limit, c, kind, next.post_disc, next.start));
    while f < 4
        invariant
            f <= 4,
            (Growth { ch: champ_view(ch), new_active: new_active@, passive: passive@ })
                == create_classes(g0, f as nat, limit, c, kind, next.post_disc, next.start),
            c <= MAX_LIST_LEN,
            c <= items.len(),
            limit < AWFUL_BAD,
            0 <= fmin < 4,
            ch0[fmin] <= limit,
            ch0.len() == 4,
            ch.minimal@.len() == 4,
            ch.best_place@.len() == 4,
            ch.best_line@.len() == 4,
            forall|g: int| 0 <= g < f ==> #[trigger] ch.minimal@[g] == AWFUL_BAD,
            forall|g: int| f <= g < 4 ==> #[trigger] ch.minimal@[g] == ch0[g],
            forall|g: int| 0 <= g < 4 && #[trigger] ch0[g] < AWFUL_BAD ==> {
                &&& 1 <= ch.best_line@[g] <= c + 1
                &&& -ch.best_line@[g] * MAX_LINE_DEMERITS <= ch0[g] <= ch.best_line@[g] * MAX_LINE_DEMERITS
                &&& ch.best_place@[g] matches Some(k) ==> k < p0.len() && p0[k as int].position < c
            },
            ch.minimum <= AWFUL_BAD,
            line_start_ok(items, next.post_disc, next.start as int),
            passive@.len() <= pa0.len() + f,
            break_penalty(items, c as int, kind, allow_disc, cfg) is Some,
            growth_ok(items, cfg, allow_disc, c as int, p0, a0, passive@, new_active@),
            new_active@.len() >= na0.len(),
            f > fmin ==> new_active@.len() > na0.len(),
        decreases 4 - f,
    {
        let ghost before = new_active@.len();
        let ghost gf = Growth { ch: champ_view(ch), new_active: new_active@, passive: passive@ };
        assert(ch.minimal@[f as int] == ch0[f as int]);
        create_for_class(ch, f, limit, new_active, passive, c, kind, next, cfg, Ghost(items), Ghost(allow_disc), Ghost(p0), Ghost(a0));
        assert(f == fmin ==> new_active@.len() > before);
        assert(create_classes(g0, (f + 1) as nat, limit, c, kind, next.post_disc, next.start)
            == create_class_spec(gf, f as int, limit, c, kind, next.post_disc, next.start));
        f = f + 1;
    }
    ch.minimum = AWFUL_BAD;
    proof {
        let g4 = create_classes(g0, 4, limit, c, kind, next.post_disc, next.start);
        assert(champ_view(ch) == (ChampState { minimum: AWFUL_BAD, ..g4.ch }));
    }
}

/// Records a feasible break into fitness class `f` with total demerits `d`,
/// reached from the recorded break `place` by line `l`, if it is at least as
/// good as the class's champion.
fn record_feasible(ch: &mut Champions, f: usize, d: i64, place: Option<usize>, l: usize, Ghost(p0): Ghost<Seq<Passive>>, Ghost(c): Ghost<int>)
    requires
        f < 4,
        c <= MAX_LIST_LEN,
        champions_ok(old(ch), p0, c),
        1 <= l <= c + 1,
        -l * MAX_LINE_DEMERITS <= d <= l * MAX_LINE_DEMERITS,
        place matches Some(k) ==> k < p0.len() && p0[k as int].position < c,
    ensures
        champions_ok(final(ch), p0, c),
        final(ch).minimum < AWFUL_BAD,
        champ_view(final(ch)) == record_spec(champ_view(old(ch)), f as int, d, place, l),
{
    if d <= ch.minimal[f] {
        ch.minimal.set(f, d);
        ch.best_place.set(f, place);
        ch.best_line.set(f, l);
        if d < ch.minimum {
            ch.minimum = d;
        }
        proof {
            if old(ch).minimum == ch.minimum && ch.minimum != AWFUL_BAD {
                let g = choose|g: int| 0 <= g < 4 && old(ch).minimal@[g] == old(ch).minimum;
                if g == f as int {
                    assert(ch.minimal@[f as int] == ch.minimum);
                } else {
                    assert(ch.minimal@[g] == ch.minimum);
                }
            } else if ch.minimum != AWFUL_BAD {
                assert(ch.minimal@[f as int] == ch.minimum);
            }
        }
    } else {
        assert(old(ch).minimum <= old(ch).minimal@[f as int]);
    }
}

/// The state of one breakpoint's pass over the active list, at `c`, from
/// the recorded breaks `p0`: old recorded breaks kept, new ones at `c`, and
/// every node of the new active list sound from `c + 1` on (and linked to a
/// break at `c` when the break is forced).
pub open spec fn scan_state_ok(
    items: Seq<Item>,
    cfg: &BreakConfig,
    allow_disc: bool,
    c: int,
    forced: bool,
    p0: Seq<Passive>,
    passive: Seq<Passive>,
    new_active: Seq<ActiveNode>,
) -> bool {
    &&& passive_ok(items, cfg, passive, allow_disc)
    &&& p0.len() <= passive.len()
    &&& forall|i: int| 0 <= i < p0.len() ==> #[trigger] passive[i] == p0[i]
    &&& forall|i: int| p0.len() <= i < passive.len() ==> (#[trigger] passive[i]).position == c
    &&& forall|j: int| 0 <= j < new_active.len() ==> {
        &&& node_ok(items, #[trigger] new_active[j], passive, c + 1)
        &&& forced ==> (new_active[j].passive matches Some(k) && passive[k as int].position == c)
    }
}

proof fn lemma_scan_after_create(
    items: Seq<Item>,
    cfg: &BreakConfig,
    allow_disc: bool,
    c: int,
    forced: bool,
    p0: Seq<Passive>,
    pn: Seq<Passive>,
    an: Seq<ActiveNode>,
    pf: Seq<Passive>,
    af: Seq<ActiveNode>,
)
    requires
        scan_state_ok(items, cfg, allow_disc, c, forced, p0, pn, an),
        growth_ok(items, cfg, allow_disc, c, pn, an, pf, af),
    ensures
        scan_state_ok(items, cfg, allow_disc, c, forced, p0, pf, af),
{
    assert forall|i: int| 0 <= i < p0.len() implies #[trigger] pf[i] == p0[i] by {
        assert(pf[i] == pn[i]);
    }
    assert forall|i: int| p0.len() <= i < pf.len() implies (#[trigger] pf[i]).position == c by {
        if i < pn.len() {
            assert(pf[i] == pn[i]);
        }
    }
    assert forall|j: int| 0 <= j < af.len() implies {
        &&& node_ok(items, #[trigger] af[j], pf, c + 1)
        &&& forced ==> (af[j].passive matches Some(k) && pf[k as int].position == c)
    } by {
        if j < an.len() {
            assert(af[j] == an[j]);
            assert(node_ok(items, an[j], pn, c + 1));
            if let Some(k) = an[j].passive {
                assert(pf[k as int] == pn[k as int]);
            }
        }
    }
}

proof fn lemma_scan_keep(
    items: Seq<Item>,
    cfg: &BreakConfig,
    allow_disc: bool,
    c: int,
    forced: bool,
    p0: Seq<Passive>,
    pn: Seq<Passive>,
    an: Seq<ActiveNode>,
    r: ActiveNode,
)
    requires
        scan_state_ok(items, cfg, allow_disc, c, forced, p0, pn, an),
        node_ok(items, r, p0, c),
        !forced,
    ensures
        scan_state_ok(items, cfg, allow_disc, c, forced, p0, pn, an.push(r)),
{
    let m = an.push(r);
    if let Some(k) = r.passive {
        assert(pn[k as int] == p0[k as int]);
    }
    assert forall|j: int| 0 <= j < m.len() implies {
        &&& node_ok(items, #[trigger] m[j], pn, c + 1)
        &&& forced ==> (m[j].passive matches Some(k) && pn[k as int].position == c)
    } by {
        if j < an.len() {
            assert(m[j] == an[j]);
        }
    }
}

/// What a break at `c` asks of each active node.
pub struct BreakCtx {
    pub c: usize,
    pub kind: BreakKind,
    /// The penalty, with a forcing penalty made exactly `EJECT_PENALTY`.
    pub pi: i64,
    pub forced: bool,
    pub threshold: i64,
    pub easy_line: usize,
    /// Where the line after the break begins.
    pub post: Option<usize>,
    pub start: usize,
    /// Whether this is the second pass, the last one tried.
    pub final_pass: bool,
}

pub open spec fn break_ctx(items: Seq<Item>, c: usize, kind: BreakKind, pi: i64, threshold: i64, easy_line: usize, final_pass: bool) -> BreakCtx {
    let next = next_line_spec(items, c as int, kind);
    BreakCtx {
        c,
        kind,
        pi: if pi <= EJECT_PENALTY { EJECT_PENALTY } else { pi },
        forced: pi <= EJECT_PENALTY,
        threshold,
        easy_line,
        post: next.0,
        start: next.1 as usize,
        final_pass,
    }
}

/// The state of a pass over the active list at one break.
pub struct ScanState {
    pub g: Growth,
    /// The line-number class being scanned (`usize::MAX` once past the easy line).
    pub old_l: usize,
}

/// One active node `r` tried against the break `x`: a line-number class
/// that ends first makes its champions active nodes (unless it is the easy
/// line, which waits for the end); then the line from `r` is measured and
/// scored. A line whose badness is within the threshold is recorded. A
/// forced break retires `r`; so does a line that is not within the
/// threshold and sticks out by more than the fuzz, since later breaks
/// only make it stick out further. Otherwise `r` stays.
///
/// Artificial demerits: in the final pass, a forced break whose line from
/// `r` is not within the threshold is recorded all the same, with no
/// demerits for the line, when `r` (`is_last`) is the only node left and
/// nothing has been recorded at this break; a forced break is thus never
/// left unreached by the last node standing.
pub open spec fn node_step(items: Seq<Item>, cfg: &BreakConfig, st: ScanState, r: ActiveNode, x: BreakCtx, is_last: bool) -> ScanState {
    let l = r.line_number;
    let st1 = if l > st.old_l {
        let g = if st.g.ch.minimum < AWFUL_BAD && st.old_l != x.easy_line {
            create_spec(st.g, x.c, x.kind, x.post, x.start, cfg)
        } else {
            st.g
        };
        ScanState { g, old_l: if l > x.easy_line { usize::MAX } else { l } }
    } else {
        st
    };
    let line = line_items(items, r.post_disc, r.line_start as int, x.c as int, x.kind);
    let t = hlist_totals(line);
    let width = line_width_spec(cfg, l as int) as int;
    let (b, fit) = line_fit_spec(width, t, has_kept(line));
    let hyphenated = x.kind == BreakKind::Discretionary || x.kind == BreakKind::End;
    let d = (line_demerits_spec(cfg, b as int, x.pi as int, fit, r.fitness, hyphenated, r.hyphenated, x.kind == BreakKind::End)
        + r.total_demerits) as i64;
    let recorded = ScanState { g: Growth { ch: record_spec(st1.g.ch, fit.rank(), d, r.passive, l), ..st1.g }, ..st1 };
    let beyond_fuzz = overfull_beyond(width, t, cfg.fuzz as int);
    let artificial = x.final_pass && is_last && st1.g.new_active.len() == 0 && st1.g.ch.minimum == AWFUL_BAD;
    if x.forced {
        if b <= x.threshold {
            recorded
        } else if artificial {
            ScanState { g: Growth { ch: record_spec(st1.g.ch, fit.rank(), r.total_demerits, r.passive, l), ..st1.g }, ..st1 }
        } else {
            st1
        }
    } else if b > x.threshold {
        if beyond_fuzz { st1 } else { ScanState { g: Growth { new_active: st1.g.new_active.push(r), ..st1.g }, ..st1 } }
    } else {
        ScanState { g: Growth { new_active: recorded.g.new_active.push(r), ..recorded.g }, ..recorded }
    }
}

/// The nodes of `active` tried in order, out of an active list of `n` nodes.
pub open spec fn scan_nodes(items: Seq<Item>, cfg: &BreakConfig, init: ScanState, active: Seq<ActiveNode>, x: BreakCtx, n: int) -> ScanState
    decreases active.len(),
{
    if active.len() == 0 {
        init
    } else {
        node_step(items, cfg, scan_nodes(items, cfg, init, active.drop_last(), x, n), active.last(), x, active.len() == n)
    }
}

/// The active list and recorded breaks after the break at `c`: every node
/// tried, then the champions of the last class made active nodes.
pub open spec fn try_break_spec(
    items: Seq<Item>,
    cfg: &BreakConfig,
    active: Seq<ActiveNode>,
    passive: Seq<Passive>,
    c: usize,
    kind: BreakKind,
    pi: i64,
    threshold: i64,
    easy_line: usize,
    final_pass: bool,
) -> (Seq<ActiveNode>, Seq<Passive>) {
    let x = break_ctx(items, c, kind, pi, threshold, easy_line, final_pass);
    let init = ScanState { g: Growth { ch: champs_init(), new_active: Seq::empty(), passive }, old_l: 0 };
    let st = scan_nodes(items, cfg, init, active, x, active.len() as int);
    let g = if st.g.ch.minimum < AWFUL_BAD { create_spec(st.g, c, kind, x.post, x.start, cfg) } else { st.g };
    (g.new_active, g.passive)
}

/// One active node tried against the break at `c` (see `node_step`).
fn try_node(
    items: &Vec<Item>,
    cfg: &BreakConfig,
    ch: &mut Champions,
    new_active: &mut Vec<ActiveNode>,
    passive: &mut Vec<Passive>,
    old_l: &mut usize,
    r: ActiveNode,
    c: usize,
    kind: BreakKind,
    pi: i64,
    forced: bool,
    threshold: i64,
    easy_line: usize,
    next: &NextLine,
    hyphenated_break: bool,
    at_end: bool,
    final_pass: bool,
    is_last: bool,
    Ghost(allow_disc): Ghost<bool>,
    Ghost(p0): Ghost<Seq<Passive>>,
    Ghost(x): Ghost<BreakCtx>,
)
    requires
        list_ok(items@),
        config_ok(cfg),
        c <= items@.len(),
        items@.len() <= MAX_LIST_LEN,
        break_penalty(items@, c as int, kind, allow_disc, cfg) is Some,
        kind == BreakKind::Discretionary ==> c < items@.len() && items@[c as int] is Discretionary,
        EJECT_PENALTY <= pi < INF_PENALTY,
        forced == (pi == EJECT_PENALTY),
        line_start_ok(items@, next.post_disc, next.start as int),
        x.c == c,
        x.kind == kind,
        x.pi == pi,
        x.forced == forced,
        x.threshold == threshold,
        x.easy_line == easy_line,
        x.post == next.post_disc,
        x.start == next.start,
        x.final_pass == final_pass,
        hyphenated_break == (kind == BreakKind::Discretionary || kind == BreakKind::End),
        at_end == (kind == BreakKind::End),
        forall|j: int| 0 <= j < p0.len() ==> (#[trigger] p0[j]).position < c,
        node_ok(items@, r, p0, c as int),
        champions_ok(old(ch), p0, c as int),
        scan_state_ok(items@, cfg, allow_disc, c as int, forced, p0, old(passive)@, old(new_active)@),
    ensures
        champions_ok(final(ch), p0, c as int),
        scan_state_ok(items@, cfg, allow_disc, c as int, forced, p0, final(passive)@, final(new_active)@),
        threshold >= UNSETTABLE_BAD ==> final(new_active)@.len() > 0 || final(ch).minimum < AWFUL_BAD,
        old(new_active)@.len() > 0 ==> final(new_active)@.len() > 0,
        (ScanState { g: Growth { ch: champ_view(final(ch)), new_active: final(new_active)@, passive: final(passive)@ }, old_l: *final(old_l) })
            == node_step(items@, cfg,
                ScanState { g: Growth { ch: champ_view(old(ch)), new_active: old(new_active)@, passive: old(passive)@ }, old_l: *old(old_l) },
                r, x, is_last),
{
    let l = r.line_number;
    if l > *old_l {
        if ch.minimum < AWFUL_BAD && *old_l != easy_line {
            let ghost pn = passive@;
            let ghost an = new_active@;
            proof {
                assert forall|f: int| 0 <= f < 4 && #[trigger] ch.minimal@[f] < AWFUL_BAD implies
                    (ch.best_place@[f] matches Some(k) ==> k < pn.len() && pn[k as int].position < c) by {
                    if let Some(k) = ch.best_place@[f] {
                        assert(pn[k as int] == p0[k as int]);
                    }
                }
                assert(champions_ok(ch, pn, c as int));
            }
            create_nodes(ch, new_active, passive, c, kind, next, cfg, Ghost(items@), Ghost(allow_disc), Ghost(pn), Ghost(an));
            proof {
                lemma_scan_after_create(items@, cfg, allow_disc, c as int, forced, p0, pn, an, passive@, new_active@);
            }
        }
        *old_l = if l > easy_line { usize::MAX } else { l };
    }
    let t = measure_line(items, r.post_disc, r.line_start, c, kind);
    let width = line_width(cfg, l);
    assert(dim_ok(width as int)) by {
        if 1 <= l && l <= cfg.line_widths@.len() {
            assert(dim_ok(cfg.line_widths@[l - 1] as int));
        }
    }
    let nonempty = line_has_content(items, r.post_disc, r.line_start, c, kind);
    let (b, fit) = line_fit(width, &t, nonempty);
    if forced {
        if b > threshold {
            if final_pass && is_last && new_active.len() == 0 && ch.minimum == AWFUL_BAD {
                record_feasible(ch, fit.index(), r.total_demerits, r.passive, l, Ghost(p0), Ghost(c as int));
            }
            return;
        }
    } else if b > threshold {
        if line_overfull_beyond(width, &t, cfg.fuzz) {
            return;
        }
        proof {
            lemma_scan_keep(items@, cfg, allow_disc, c as int, forced, p0, passive@, new_active@, r);
        }
        new_active.push(r);
        return;
    }
    let ld = line_demerits(cfg, b, pi, fit, r.fitness, hyphenated_break, r.hyphenated, at_end);
    let d = ld + r.total_demerits;
    record_feasible(ch, fit.index(), d, r.passive, l, Ghost(p0), Ghost(c as int));
    if !forced {
        proof {
            lemma_scan_keep(items@, cfg, allow_disc, c as int, forced, p0, passive@, new_active@, r);
        }
        new_active.push(r);
    }
}

/// The active list's answer to a legal break at `c` of kind `kind` and
/// penalty `pi`: each active node is tried as the start of a line ending
/// at `c`. A forced break retires every node, and so does a line that is
/// infeasible and sticks out beyond the fuzz; a line whose badness is
/// within `threshold` is a feasible break,
/// and the best feasible breaks of each line-number class become new
/// active nodes at `c` when the class closes.
fn try_break(
    items: &Vec<Item>,
    cfg: &BreakConfig,
    active: &mut Vec<ActiveNode>,
    passive: &mut Vec<Passive>,
    c: usize,
    kind: BreakKind,
    pi: i64,
    threshold: i64,
    easy_line: usize,
    allow_disc: bool,
)
    requires
        list_ok(items@),
        config_ok(cfg),
        c <= items@.len(),
        break_penalty(items@, c as int, kind, allow_disc, cfg) == Some(pi),
        passive_ok(items@, cfg, old(passive)@, allow_disc),
        forall|i: int| 0 <= i < old(passive)@.len() ==> (#[trigger] old(passive)@[i]).position < c,
        active_ok(items@, old(active)@, old(passive)@, c as int),
    ensures
        passive_ok(items@, cfg, final(passive)@, allow_disc),
        forall|i: int| 0 <= i < final(passive)@.len() ==> (#[trigger] final(passive)@[i]).position < c + 1,
        active_ok(items@, final(active)@, final(passive)@, c + 1),
        threshold >= UNSETTABLE_BAD && old(active)@.len() > 0 ==> final(active)@.len() > 0,
        pi <= EJECT_PENALTY ==> forall|j: int| 0 <= j < final(active)@.len() ==>
            ((#[trigger] final(active)@[j]).passive matches Some(k) && final(passive)@[k as int].position == c),
        (final(active)@, final(passive)@) == try_break_spec(items@, cfg, old(active)@, old(passive)@, c, kind, pi, threshold, easy_line, allow_disc),
{
    proof {
        reveal(break_penalty);
    }
    let old_pi = pi;
    let forced = pi <= EJECT_PENALTY;
    let pi = if forced { EJECT_PENALTY } else { pi };
    let hyphenated_break = match kind {
        BreakKind::Discretionary | BreakKind::End => true,
        _ => false,
    };
    let at_end = match kind {
        BreakKind::End => true,
        _ => false,
    };
    let next = next_line(items, c, kind);
    let ghost p0 = passive@;
    let ghost x = break_ctx(items@, c, kind, old_pi, threshold, easy_line, allow_disc);
    let mut ch = new_champions();
    let mut new_active: Vec<ActiveNode> = Vec::new();
    let mut old_l: usize = 0;
    let mut i: usize = 0;
    let ghost init = ScanState { g: Growth { ch: champs_init(), new_active: Seq::empty(), passive: p0 }, old_l: 0 };
    assert(active@.take(0) =~= Seq::<ActiveNode>::empty());
    while i < active.len()
        invariant
            x == break_ctx(items@, c, kind, old_pi, threshold, easy_line, allow_disc),
            x.pi == pi,
            x.forced == forced,
            x.post == next.post_disc,
            x.start == next.start,
            hyphenated_break == (kind == BreakKind::Discretionary || kind == BreakKind::End),
            at_end == (kind == BreakKind::End),
            (ScanState { g: Growth { ch: champ_view(&ch), new_active: new_active@, passive: passive@ }, old_l })
                == scan_nodes(items@, cfg, init, active@.take(i as int), x, active@.len() as int),
            list_ok(items@),
            config_ok(cfg),
            c <= items@.len(),
            items@.len() <= MAX_LIST_LEN,
            break_penalty(items@, c as int, kind, allow_disc, cfg) is Some,
            kind == BreakKind::Discretionary ==> c < items@.len() && items@[c as int] is Discretionary,
            EJECT_PENALTY <= pi < INF_PENALTY,
            forced == (pi == EJECT_PENALTY),
            line_start_ok(items@, next.post_disc, next.start as int),
            0 <= i <= active@.len(),
            active@ == old(active)@,
            forall|j: int| 0 <= j < p0.len() ==> (#[trigger] p0[j]).position < c,
            active_ok(items@, active@, p0, c as int),
            champions_ok(&ch, p0, c as int),
            scan_state_ok(items@, cfg, allow_disc, c as int, forced, p0, passive@, new_active@),
            threshold >= UNSETTABLE_BAD && i > 0 ==> new_active@.len() > 0 || ch.minimum < AWFUL_BAD,
        decreases active@.len() - i,
    {
        let r = active[i];
        assert(node_ok(items@, r, p0, c as int));
        proof {
            assert(active@.take(i as int + 1).drop_last() =~= active@.take(i as int));
            assert(active@.take(i as int + 1).last() == r);
        }
        try_node(
            items, cfg, &mut ch, &mut new_active, passive, &mut old_l, r, c, kind, pi, forced, threshold, easy_line,
            &next, hyphenated_break, at_end, allow_disc, i + 1 == active.len(), Ghost(allow_disc), Ghost(p0), Ghost(x),
        );
        i = i + 1;
    }
    assert(active@.take(active@.len() as int) =~= active@);
    let ghost st_end = ScanState { g: Growth { ch: champ_view(&ch), new_active: new_active@, passive: passive@ }, old_l };
    if ch.minimum < AWFUL_BAD {
        let ghost pn = passive@;
        let ghost an = new_active@;
        proof {
            assert forall|f: int| 0 <= f < 4 && #[trigger] ch.minimal@[f] < AWFUL_BAD implies
                (ch.best_place@[f] matches Some(k) ==> k < pn.len() && pn[k as int].position < c) by {
                if let Some(k) = ch.best_place@[f] {
                    assert(pn[k as int] == p0[k as int]);
                }
            }
            assert(champions_ok(&ch, pn, c as int));
        }
        create_nodes(&mut ch, &mut new_active, passive, c, kind, &next, cfg, Ghost(items@), Ghost(allow_disc), Ghost(pn), Ghost(an));
        proof {
            lemma_scan_after_create(items@, cfg, allow_disc, c as int, forced, p0, pn, an, passive@, new_active@);
        }
    }
    proof {
        assert forall|j: int| 0 <= j < passive@.len() implies (#[trigger] passive@[j]).position < c + 1 by {
            if j < p0.len() {
                assert(passive@[j] == p0[j]);
            }
        }
        let g = if st_end.g.ch.minimum < AWFUL_BAD { create_spec(st_end.g, c, kind, x.post, x.start, cfg) } else { st_end.g };
        assert(new_active@ == g.new_active && passive@ == g.passive);
    }
    *active = new_active;
}

proof fn lemma_active_ok_later(items: Seq<Item>, active: Seq<ActiveNode>, passive: Seq<Passive>, c: int)
    requires
        active_ok(items, active, passive, c),
    ensures
        active_ok(items, active, passive, c + 1),
{
    assert forall|i: int| 0 <= i < active.len() implies node_ok(items, #[trigger] active[i], passive, c + 1) by {
        assert(node_ok(items, active[i], passive, c));
    }
}

/// What a finished pass hands on: a non-empty active list whose nodes all
/// end at a recorded break at the end of the list, within the demerits that
/// their lines can add up to.
pub open spec fn finished_ok(items: Seq<Item>, cfg: &BreakConfig, allow_disc: bool, active: Seq<ActiveNode>, passive: Seq<Passive>) -> bool {
    &&& active.len() > 0
    &&& passive_ok(items, cfg, passive, allow_disc)
    &&& forall|j: int| 0 <= j < active.len() ==> {
        &&& (#[trigger] active[j]).passive matches Some(k) && k < passive.len() && passive[k as int].position == items.len()
        &&& node_ok(items, active[j], passive, items.len() as int + 1)
    }
}

/// The node that stands for the start of the paragraph.
pub open spec fn start_node() -> ActiveNode {
    ActiveNode {
        line_number: 1,
        fitness: Fitness::Decent,
        hyphenated: false,
        total_demerits: 0,
        passive: None,
        line_start: 0,
        post_disc: None,
    }
}

/// The scan of position `c`: a legal break there is tried; a pass whose
/// active list has run empty stays failed.
pub open spec fn pass_step(
    items: Seq<Item>,
    cfg: &BreakConfig,
    threshold: i64,
    allow_disc: bool,
    easy_line: usize,
    st: Option<(Seq<ActiveNode>, Seq<Passive>)>,
    c: int,
) -> Option<(Seq<ActiveNode>, Seq<Passive>)> {
    match st {
        None => None,
        Some((a, p)) => match break_at_spec(items, c, allow_disc, cfg) {
            Some((kind, pi)) => {
                let (a2, p2) = try_break_spec(items, cfg, a, p, c as usize, kind, pi, threshold, easy_line, allow_disc);
                if a2.len() == 0 { None } else { Some((a2, p2)) }
            },
            None => Some((a, p)),
        },
    }
}

/// The state of a pass once positions `0 .. c` are scanned.
pub open spec fn pass_upto(items: Seq<Item>, cfg: &BreakConfig, threshold: i64, allow_disc: bool, easy_line: usize, c: nat) -> Option<(Seq<ActiveNode>, Seq<Passive>)>
    decreases c,
{
    if c == 0 {
        Some((seq![start_node()], Seq::empty()))
    } else {
        pass_step(items, cfg, threshold, allow_disc, easy_line, pass_upto(items, cfg, threshold, allow_disc, easy_line, (c - 1) as nat), c - 1)
    }
}

/// The outcome of a whole pass: every position of the list and its end scanned.
pub open spec fn run_pass_spec(items: Seq<Item>, cfg: &BreakConfig, threshold: i64, allow_disc: bool, easy_line: usize) -> Option<(Seq<ActiveNode>, Seq<Passive>)> {
    pass_upto(items, cfg, threshold, allow_disc, easy_line, (items.len() + 1) as nat)
}

proof fn lemma_pass_failed_stays(items: Seq<Item>, cfg: &BreakConfig, threshold: i64, allow_disc: bool, easy_line: usize, c: nat, e: nat)
    requires
        c <= e,
        pass_upto(items, cfg, threshold, allow_disc, easy_line, c) is None,
    ensures
        pass_upto(items, cfg, threshold, allow_disc, easy_line, e) is None,
    decreases e - c,
{
    if c < e {
        lemma_pass_failed_stays(items, cfg, threshold, allow_disc, easy_line, (c + 1) as nat, e);
    }
}

pub open spec fn pass_view(r: Option<(Vec<ActiveNode>, Vec<Passive>)>) -> Option<(Seq<ActiveNode>, Seq<Passive>)> {
    match r {
        Some((a, p)) => Some((a@, p@)),
        None => None,
    }
}

/// One pass of the search over the whole list, with badness limit
/// `threshold`, breaking at discretionaries only if `allow_disc`. `None`
/// when the active list runs empty before the end of the list; never so
/// when `threshold` is at least `UNSETTABLE_BAD`.
fn run_pass(items: &Vec<Item>, cfg: &BreakConfig, threshold: i64, allow_disc: bool, easy_line: usize) -> (r: Option<(Vec<ActiveNode>, Vec<Passive>)>)
    requires
        list_ok(items@),
        config_ok(cfg),
    ensures
        r matches Some((a, p)) ==> finished_ok(items@, cfg, allow_disc, a@, p@),
        threshold >= UNSETTABLE_BAD ==> r is Some,
        pass_view(r) == run_pass_spec(items@, cfg, threshold, allow_disc, easy_line),
{
    let mut active: Vec<ActiveNode> = Vec::new();
    active.push(ActiveNode {
        line_number: 1,
        fitness: Fitness::Decent,
        hyphenated: false,
        total_demerits: 0,
        passive: None,
        line_start: 0,
        post_disc: None,
    });
    let mut passive: Vec<Passive> = Vec::new();
    assert(active@ =~= seq![start_node()]);
    assert(passive@ =~= Seq::<Passive>::empty());
    let n = items.len();
    let mut c: usize = 0;
    while c <= n
        invariant
            list_ok(items@),
            config_ok(cfg),
            n == items@.len(),
            n <= MAX_LIST_LEN,
            c <= n + 1,
            active@.len() > 0,
            active_ok(items@, active@, passive@, c as int),
            passive_ok(items@, cfg, passive@, allow_disc),
            forall|i: int| 0 <= i < passive@.len() ==> (#[trigger] passive@[i]).position < c,
            c == n + 1 ==> forall|j: int| 0 <= j < active@.len() ==>
                ((#[trigger] active@[j]).passive matches Some(k) && passive@[k as int].position == n),
            pass_upto(items@, cfg, threshold, allow_disc, easy_line, c as nat) == Some((active@, passive@)),
        decreases n + 1 - c,
    {
        match break_at(items, c, allow_disc, cfg) {
            Some((kind, pi)) => {
                proof {
                    reveal(break_penalty);
                }
                try_break(items, cfg, &mut active, &mut passive, c, kind, pi, threshold, easy_line, allow_disc);
                if active.len() == 0 {
                    proof {
                        lemma_pass_failed_stays(items@, cfg, threshold, allow_disc, easy_line, (c + 1) as nat, (n + 1) as nat);
                    }
                    return None;
                }
            },
            None => {
                proof {
                    lemma_active_ok_later(items@, active@, passive@, c as int);
                    assert(c < n);
                }
            },
        }
        c = c + 1;
    }
    assert forall|j: int| 0 <= j < active@.len() implies {
        &&& (#[trigger] active@[j]).passive matches Some(k) && k < passive@.len() && passive@[k as int].position == items@.len()
        &&& node_ok(items@, active@[j], passive@, items@.len() as int + 1)
    } by {
        assert(node_ok(items@, active@[j], passive@, c as int));
    }
    Some((active, passive))
}

/// The index of the first node with the fewest total demerits among the
/// first `i` (at least one).
pub open spec fn fewest_upto(active: Seq<ActiveNode>, i: nat) -> int
    decreases i,
{
    if i <= 1 {
        0
    } else {
        let b = fewest_upto(active, (i - 1) as nat);
        if active[i - 1].total_demerits < active[b].total_demerits { i - 1 } else { b }
    }
}

/// The choice among nodes for a nonzero looseness: the best so far, the
/// difference of its line count from the fewest-demerits node's, and its
/// demerits.
pub struct LooseState {
    pub best: int,
    pub actual: int,
    pub fewest: int,
}

/// Node `j` weighed for looseness `looseness`: a line count that differs by
/// an amount between the current one and `looseness` wins; so does the same
/// difference with fewer demerits.
pub open spec fn loose_step(st: LooseState, r: ActiveNode, j: int, best_line: int, looseness: int) -> LooseState {
    let line_diff = r.line_number - best_line;
    if (line_diff < st.actual && looseness <= line_diff) || (line_diff > st.actual && looseness >= line_diff) {
        LooseState { best: j, actual: line_diff, fewest: r.total_demerits as int }
    } else if line_diff == st.actual && r.total_demerits < st.fewest {
        LooseState { best: j, fewest: r.total_demerits as int, ..st }
    } else {
        st
    }
}

pub open spec fn loose_upto(active: Seq<ActiveNode>, i: nat, init: LooseState, best_line: int, looseness: int) -> LooseState
    decreases i,
{
    if i == 0 {
        init
    } else {
        loose_step(loose_upto(active, (i - 1) as nat, init, best_line, looseness), active[i - 1], i - 1, best_line, looseness)
    }
}

/// The final node of a pass and whether it meets the looseness: the first
/// node with the fewest demerits, or for a nonzero looseness the node that
/// `loose_step` settles on.
pub open spec fn choose_final_spec(active: Seq<ActiveNode>, looseness: int) -> (int, bool) {
    let first = fewest_upto(active, active.len());
    if looseness == 0 {
        (first, true)
    } else {
        let init = LooseState { best: first, actual: 0, fewest: active[first].total_demerits as int };
        let st = loose_upto(active, active.len(), init, active[first].line_number as int, looseness);
        (st.best, st.actual == looseness)
    }
}

/// The index of the first active node with the fewest total demerits.
fn fewest_demerits(active: &Vec<ActiveNode>) -> (r: usize)
    requires
        active@.len() > 0,
    ensures
        r < active@.len(),
        forall|j: int| 0 <= j < active@.len() ==> active@[r as int].total_demerits <= #[trigger] active@[j].total_demerits,
        forall|j: int| 0 <= j < r ==> active@[r as int].total_demerits < #[trigger] active@[j].total_demerits,
        r == fewest_upto(active@, active@.len()),
{
    let mut best: usize = 0;
    let mut i: usize = 1;
    while i < active.len()
        invariant
            active@.len() > 0,
            1 <= i <= active@.len(),
            best < i,
            best == fewest_upto(active@, i as nat),
            forall|j: int| 0 <= j < i ==> active@[best as int].total_demerits <= #[trigger] active@[j].total_demerits,
            forall|j: int| 0 <= j < best ==> active@[best as int].total_demerits < #[trigger] active@[j].total_demerits,
        decreases active@.len() - i,
    {
        if active[i].total_demerits < active[best].total_demerits {
            best = i;
        }
        i = i + 1;
    }
    best
}

/// Picks the final active node: the first with the fewest demerits; with a
/// nonzero `looseness`, the node whose line count differs from that one's
/// by the amount closest to `looseness` without passing it (fewest
/// demerits among equals). Also tells whether the difference is exactly
/// `looseness`.
fn choose_final(active: &Vec<ActiveNode>, looseness: i64) -> (r: (usize, bool))
    requires
        active@.len() > 0,
        forall|j: int| 0 <= j < active@.len() ==> (#[trigger] active@[j]).line_number <= MAX_LIST_LEN + 2,
    ensures
        r.0 < active@.len(),
        looseness == 0 ==> r.1 && forall|j: int| 0 <= j < active@.len() ==>
            active@[r.0 as int].total_demerits <= #[trigger] active@[j].total_demerits,
        (r.0 as int, r.1) == choose_final_spec(active@, looseness as int),
{
    let first = fewest_demerits(active);
    if looseness == 0 {
        return (first, true);
    }
    let best_line = active[first].line_number as i64;
    let mut best = first;
    let mut actual: i64 = 0;
    let mut fewest = active[first].total_demerits;
    let mut i: usize = 0;
    let ghost init = LooseState { best: first as int, actual: 0, fewest: active@[first as int].total_demerits as int };
    while i < active.len()
        invariant
            active@.len() > 0,
            i <= active@.len(),
            best < active@.len(),
            first < active@.len(),
            init == (LooseState { best: first as int, actual: 0, fewest: active@[first as int].total_demerits as int }),
            best_line == active@[first as int].line_number,
            loose_upto(active@, i as nat, init, best_line as int, looseness as int)
                == (LooseState { best: best as int, actual: actual as int, fewest: fewest as int }),
            0 <= best_line <= MAX_LIST_LEN + 2,
            -(MAX_LIST_LEN + 2) <= actual <= MAX_LIST_LEN + 2,
            forall|j: int| 0 <= j < active@.len() ==> (#[trigger] active@[j]).line_number <= MAX_LIST_LEN + 2,
        decreases active@.len() - i,
    {
        let r = active[i];
        let line_diff = r.line_number as i64 - best_line;
        if (line_diff < actual && looseness <= line_diff) || (line_diff > actual && looseness >= line_diff) {
            best = i;
            actual = line_diff;
            fewest = r.total_demerits;
        } else if line_diff == actual && r.total_demerits < fewest {
            best = i;
            fewest = r.total_demerits;
        }
        i = i + 1;
    }
    (best, actual == looseness)
}

/// A chosen break of the paragraph from a recorded one.
pub open spec fn breakpoint_of(p: Passive) -> Breakpoint {
    Breakpoint { position: p.position, kind: p.kind }
}

/// The recorded breaks from the start of the paragraph to break `k`, in
/// order, following the links back.
pub open spec fn collect_spec(passive: Seq<Passive>, k: int) -> Seq<Breakpoint>
    decreases k,
{
    if 0 <= k < passive.len() {
        match passive[k].prev {
            Some(j) => if 0 <= j < k { collect_spec(passive, j as int).push(breakpoint_of(passive[k])) } else { seq![breakpoint_of(passive[k])] },
            None => seq![breakpoint_of(passive[k])],
        }
    } else {
        Seq::empty()
    }
}

/// The recorded breaks from the start of the paragraph to break `k`, in
/// order, each at a legal break of the list and each after the one before.
fn collect_breaks(passive: &Vec<Passive>, k: usize, Ghost(items): Ghost<Seq<Item>>, cfg: &BreakConfig, Ghost(allow_disc): Ghost<bool>) -> (r: Vec<Breakpoint>)
    requires
        passive_ok(items, cfg, passive@, allow_disc),
        k < passive@.len(),
    ensures
        r@ == collect_spec(passive@, k as int),
        r@.len() >= 1,
        r@.last() == breakpoint_of(passive@[k as int]),
        forall|i: int, j: int| 0 <= i < j < r@.len() ==> r@[i].position < r@[j].position,
        forall|i: int| 0 <= i < r@.len() ==> break_penalty(items, (#[trigger] r@[i]).position as int, r@[i].kind, allow_disc, cfg) is Some,
    decreases k,
{
    let p = passive[k];
    assert(passive_entry_ok(items, cfg, passive@, k as int, allow_disc));
    match p.prev {
        Some(j) => {
            let mut v = collect_breaks(passive, j, Ghost(items), cfg, Ghost(allow_disc));
            let ghost v0 = v@;
            v.push(Breakpoint { position: p.position, kind: p.kind });
            proof {
                assert forall|a: int, b: int| 0 <= a < b < v@.len() implies v@[a].position < v@[b].position by {
                    if b < v0.len() {
                        assert(v@[a] == v0[a] && v@[b] == v0[b]);
                    } else if a < v0.len() - 1 {
                        assert(v@[a] == v0[a]);
                        assert(v0[a].position < v0[v0.len() - 1].position);
                    } else {
                        assert(v@[a] == v0[a]);
                    }
                }
                assert forall|a: int| 0 <= a < v@.len() implies break_penalty(items, (#[trigger] v@[a]).position as int, v@[a].kind, allow_disc, cfg) is Some by {
                    if a < v0.len() {
                        assert(v@[a] == v0[a]);
                    }
                }
            }
            v
        },
        None => {
            let v = vec![Breakpoint { position: p.position, kind: p.kind }];
            assert(v@ =~= seq![breakpoint_of(passive@[k as int])]);
            v
        },
    }
}

/// The breaks chosen for a paragraph, in order, and the total demerits of
/// the lines they make.
#[derive(Debug, PartialEq)]
pub struct LineBreaks {
    pub breaks: Vec<Breakpoint>,
    pub total_demerits: i64,
}

/// Why a paragraph could not be broken.
#[derive(Clone, Copy, Debug, PartialEq, Eq, Structural)]
pub enum BreakError {
    /// Every candidate was retired before the end of the paragraph, in
    /// both passes.
    NoFeasibleBreaks,
}

/// A sequence of breaks for the list: at least one, each at a legal break
/// of the list, in increasing positions, the last at the end of the list.
pub open spec fn breaks_valid(items: Seq<Item>, cfg: &BreakConfig, breaks: Seq<Breakpoint>) -> bool {
    &&& breaks.len() >= 1
    &&& breaks.last() == (Breakpoint { position: items.len() as usize, kind: BreakKind::End })
    &&& forall|i: int, j: int| 0 <= i < j < breaks.len() ==> breaks[i].position < breaks[j].position
    &&& forall|i: int| 0 <= i < breaks.len() ==> break_penalty(items, (#[trigger] breaks[i]).position as int, breaks[i].kind, true, cfg) is Some
}

/// The breaks and total demerits that lead to node `best` of a finished pass.
pub open spec fn finish_spec(active: Seq<ActiveNode>, passive: Seq<Passive>, best: int) -> (Seq<Breakpoint>, i64) {
    match active[best].passive {
        Some(k) => (collect_spec(passive, k as int), active[best].total_demerits),
        None => (Seq::empty(), active[best].total_demerits),
    }
}

/// The class of lines from which on all lines are alike: the last line of
/// given width, unless a looseness asks to tell every line count apart.
pub open spec fn easy_line_of(cfg: &BreakConfig) -> usize {
    if cfg.looseness == 0 { cfg.line_widths@.len() as usize } else { usize::MAX }
}

/// What breaking a paragraph yields: the first pass (when `pretolerance`
/// is not negative), if it reaches the end and meets the looseness; else
/// the second pass, if it reaches the end; else the first pass, if it
/// reached the end (missing only the looseness); else failure.
pub open spec fn break_spec(items: Seq<Item>, cfg: &BreakConfig) -> Result<(Seq<Breakpoint>, i64), BreakError> {
    let easy = easy_line_of(cfg);
    let first = if cfg.pretolerance >= 0 { run_pass_spec(items, cfg, cfg.pretolerance, false, easy) } else { None };
    let first_done = match first {
        Some((a, p)) => {
            let (best, ok) = choose_final_spec(a, cfg.looseness as int);
            if ok { Some(finish_spec(a, p, best)) } else { None }
        },
        None => None,
    };
    match first_done {
        Some(res) => Ok(res),
        None => match run_pass_spec(items, cfg, cfg.tolerance, true, easy) {
            Some((a, p)) => Ok(finish_spec(a, p, choose_final_spec(a, cfg.looseness as int).0)),
            None => match first {
                Some((a, p)) => Ok(finish_spec(a, p, choose_final_spec(a, cfg.looseness as int).0)),
                None => Err(BreakError::NoFeasibleBreaks),
            },
        },
    }
}

pub open spec fn break_view(r: Result<LineBreaks, BreakError>) -> Result<(Seq<Breakpoint>, i64), BreakError> {
    match r {
        Ok(lb) => Ok((lb.breaks@, lb.total_demerits)),
        Err(e) => Err(e),
    }
}

/// Line breaking is a function of the paragraph and its configuration: any
/// two results that `break_paragraph` may give for the same items and
/// configuration have the same breaks and total demerits, or the same error.
pub proof fn lemma_break_paragraph_deterministic(
    items: Seq<Item>,
    cfg: &BreakConfig,
    r1: Result<LineBreaks, BreakError>,
    r2: Result<LineBreaks, BreakError>,
)
    requires
        break_view(r1) == break_spec(items, cfg),
        break_view(r2) == break_spec(items, cfg),
    ensures
        break_view(r1) == break_view(r2),
{
}

/// The breaks that lead to active node `best` of a finished pass.
fn finish(items: &Vec<Item>, cfg: &BreakConfig, active: &Vec<ActiveNode>, passive: &Vec<Passive>, best: usize, Ghost(allow_disc): Ghost<bool>) -> (r: LineBreaks)
    requires
        finished_ok(items@, cfg, allow_disc, active@, passive@),
        best < active@.len(),
    ensures
        breaks_valid(items@, cfg, r.breaks@),
        r.total_demerits == active@[best as int].total_demerits,
        (r.breaks@, r.total_demerits) == finish_spec(active@, passive@, best as int),
{
    proof {
        reveal(break_penalty);
    }
    let node = active[best];
    assert(node.passive is Some);
    let k = node.passive.unwrap();
    let breaks = collect_breaks(passive, k, Ghost(items@), cfg, Ghost(allow_disc));
    assert(passive_entry_ok(items@, cfg, passive@, k as int, allow_disc));
    LineBreaks { breaks, total_demerits: node.total_demerits }
}

/// Breaks the paragraph `items` into lines.
///
/// A first pass, when `pretolerance` is not negative, tries breaks other
/// than discretionaries with badness limit `pretolerance`; when it runs
/// dry, or cannot meet a nonzero `looseness`, a second pass tries all
/// legal breaks with limit `tolerance`; should that pass run dry after a
/// first pass that reached the end, the first pass's choice stands. The
/// breaks returned follow the recorded best predecessors back from the
/// chosen final node.
///
/// In the second pass a forced break that the last remaining node reaches
/// only by an infeasible line, with nothing else recorded there, is taken
/// with no demerits for that line (artificial demerits), so that pass fails
/// only when every node has been retired for sticking out beyond the fuzz.
///
/// Whatever the paragraph, the breaks returned are valid; and with a
/// `tolerance` of at least `UNSETTABLE_BAD` (every line feasible) breaking
/// never fails.
pub fn break_paragraph(items: &Vec<Item>, cfg: &BreakConfig) -> (r: Result<LineBreaks, BreakError>)
    requires
        list_ok(items@),
        config_ok(cfg),
    ensures
        r matches Ok(lb) ==> breaks_valid(items@, cfg, lb.breaks@),
        cfg.tolerance >= UNSETTABLE_BAD ==> r is Ok,
        r is Err ==> (cfg.pretolerance < 0 || run_pass_spec(items@, cfg, cfg.pretolerance, false, easy_line_of(cfg)) is None)
            && run_pass_spec(items@, cfg, cfg.tolerance, true, easy_line_of(cfg)) is None,
        break_view(r) == break_spec(items@, cfg),
{
    proof {
        reveal(break_penalty);
    }
    let easy_line = if cfg.looseness == 0 { cfg.line_widths.len() } else { usize::MAX };
    let mut fallback: Option<LineBreaks> = None;
    if cfg.pretolerance >= 0 {
        if let Some((active, passive)) = run_pass(items, cfg, cfg.pretolerance, false, easy_line) {
            assert forall|j: int| 0 <= j < active@.len() implies (#[trigger] active@[j]).line_number <= MAX_LIST_LEN + 2 by {
                assert(node_ok(items@, active@[j], passive@, items@.len() as int + 1));
            }
            let (best, achieved) = choose_final(&active, cfg.looseness);
            let lb = finish(items, cfg, &active, &passive, best, Ghost(false));
            if achieved {
                return Ok(lb);
            }
            fallback = Some(lb);
        }
    }
    match run_pass(items, cfg, cfg.tolerance, true, easy_line) {
        Some((active, passive)) => {
            assert forall|j: int| 0 <= j < active@.len() implies (#[trigger] active@[j]).line_number <= MAX_LIST_LEN + 2 by {
                assert(node_ok(items@, active@[j], passive@, items@.len() as int + 1));
            }
            let (best, _) = choose_final(&active, cfg.looseness);
            Ok(finish(items, cfg, &active, &passive, best, Ghost(true)))
        },
        None => match fallback {
            Some(lb) => Ok(lb),
            None => Err(BreakError::NoFeasibleBreaks),
        },
    }
}

} // verus!
