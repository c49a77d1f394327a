//! Packing the lines of a broken paragraph.
use vstd::prelude::*;
use crate::hpack::{hpack, hpack_post, moved_material, PackResult};
use crate::item::{dim_ok, item_ok, list_ok, Item, MAX_DISC_LEN, MAX_LIST_LEN};
use crate::linebreak::{
    break_penalty, config_ok, disc_text, lemma_prune_ge, lemma_simple_is_item_ok, line_items, line_start_ok,
    line_width, line_width_spec, next_line, next_line_spec, BreakConfig, BreakKind, Breakpoint, NextLine,
};
use crate::search::breaks_valid;
use crate::setting::{PackConfig, PackMode};

verus! {

/// A packed line of a paragraph, with the vertical material that its
/// adjustments, insertions and marks put after it.
#[derive(Debug, PartialEq)]
pub struct PackedLine {
    pub packed: PackResult,
    pub adjustments: Vec<Item>,
}

/// Where line `k` (from 0) of a paragraph broken at `breaks` begins: at the
/// start for the first line, otherwise after the break before it.
pub open spec fn line_begin(items: Seq<Item>, breaks: Seq<Breakpoint>, k: int) -> (Option<usize>, int) {
    if k == 0 {
        (None, 0)
    } else {
        next_line_spec(items, breaks[k - 1].position as int, breaks[k - 1].kind)
    }
}

/// The items of line `k` (from 0) of a paragraph broken at `breaks`.
pub open spec fn broken_line(items: Seq<Item>, breaks: Seq<Breakpoint>, k: int) -> Seq<Item> {
    let (post, start) = line_begin(items, breaks, k);
    line_items(items, post, start, breaks[k].position as int, breaks[k].kind)
}

/// The post-break text that a line beginning at `post_disc` starts with.
pub open spec fn post_text(items: Seq<Item>, post_disc: Option<usize>) -> Seq<Item> {
    match post_disc {
        Some(p) => disc_text(items[p as int], false),
        None => Seq::empty(),
    }
}

/// The items of the list from `start` up to `p`, none if `p` is not past `start`.
pub open spec fn open_range(items: Seq<Item>, start: int, p: int) -> Seq<Item> {
    if start < p { items.subrange(start, p) } else { Seq::empty() }
}

/// A paragraph short enough that each of its lines, with the texts of the
/// discretionaries around it, is a list that packers accept.
pub open spec fn paragraph_ok(items: Seq<Item>) -> bool {
    list_ok(items) && items.len() + 2 * MAX_DISC_LEN <= MAX_LIST_LEN
}

proof fn lemma_line_ok(items: Seq<Item>, post_disc: Option<usize>, start: int, end: int, kind: BreakKind)
    requires
        paragraph_ok(items),
        line_start_ok(items, post_disc, start),
        0 <= end <= items.len(),
        kind == BreakKind::Discretionary ==> end < items.len() && items[end] is Discretionary,
    ensures
        list_ok(line_items(items, post_disc, start, end, kind)),
{
    let post = post_text(items, post_disc);
    let s = if start < end { start } else { end };
    let pre = if kind == BreakKind::Discretionary { disc_text(items[end], true) } else { Seq::empty() };
    if let Some(p) = post_disc {
        assert(item_ok(items[p as int]));
        lemma_simple_is_item_ok(post);
    }
    if kind == BreakKind::Discretionary {
        assert(item_ok(items[end]));
        lemma_simple_is_item_ok(pre);
    }
    let l = line_items(items, post_disc, start, end, kind);
    let sub = items.subrange(s, end);
    let a = post + sub;
    assert(l =~= a + pre);
    assert forall|i: int| 0 <= i < a.len() implies item_ok(#[trigger] a[i]) by {
        if i < post.len() {
            assert(a[i] == post[i]);
        } else {
            assert(a[i] == sub[i - post.len()]);
            assert(sub[i - post.len()] == items[s + i - post.len()]);
        }
    }
    assert forall|i: int| 0 <= i < l.len() implies item_ok(#[trigger] l[i]) by {
        if i < a.len() {
            assert(l[i] == a[i]);
        } else {
            assert(l[i] == pre[i - a.len()]);
        }
    }
}

/// Line `k` (from 0) of a paragraph broken at `breaks`, packed: its items
/// packed to exactly the width of line `k + 1`, with the material they move
/// out of the box.
#[verifier::opaque]
pub open spec fn packed_line_ok(items: Seq<Item>, breaks: Seq<Breakpoint>, cfg: &BreakConfig, pack_cfg: PackConfig, k: int, pl: PackedLine) -> bool {
    &&& hpack_post(broken_line(items, breaks, k), line_width_spec(cfg, k + 1), PackMode::Exactly, pack_cfg, pl.packed)
    &&& pl.adjustments@ == moved_material(broken_line(items, breaks, k))
}

fn pack_one_line(
    line: Vec<Item>,
    b: usize,
    cfg: &BreakConfig,
    pack_cfg: &PackConfig,
    Ghost(all): Ghost<Seq<Item>>,
    Ghost(breaks): Ghost<Seq<Breakpoint>>,
) -> (r: PackedLine)
    requires
        0 <= b < breaks.len(),
        b < usize::MAX,
        config_ok(cfg),
        line@ == broken_line(all, breaks, b as int),
        list_ok(line@),
    ensures
        packed_line_ok(all, breaks, cfg, *pack_cfg, b as int, r),
{
    let w = line_width(cfg, b + 1);
    assert(dim_ok(w as int)) by {
        if 1 <= b + 1 && b + 1 <= cfg.line_widths@.len() {
            assert(dim_ok(cfg.line_widths@[b as int] as int));
        }
    }
    let mut adj: Vec<Item> = Vec::new();
    let packed = hpack(line, w, PackMode::Exactly, pack_cfg, &mut adj, true);
    assert(adj@ =~= moved_material(broken_line(all, breaks, b as int)));
    let r = PackedLine { packed, adjustments: adj };
    proof {
        reveal(packed_line_ok);
    }
    r
}

/// Packs each line of a paragraph broken at `breaks`: line `k` (from 0) is
/// its items packed to exactly the width of line `k + 1`, with its
/// insertions, marks and adjustments moved after it.
pub fn pack_lines(items: Vec<Item>, breaks: &Vec<Breakpoint>, cfg: &BreakConfig, pack_cfg: &PackConfig) -> (r: Vec<PackedLine>)
    requires
        paragraph_ok(items@),
        config_ok(cfg),
        breaks_valid(items@, cfg, breaks@),
    ensures
        r@.len() == breaks@.len(),
        forall|k: int| 0 <= k < r@.len() ==> packed_line_ok(items@, breaks@, cfg, *pack_cfg, k, #[trigger] r@[k]),
{
    proof {
        reveal(break_penalty);
    }
    let ghost all = items@;
    let n = items.len();
    let nb = breaks.len();
    // Where each line begins.
    let mut begins: Vec<NextLine> = Vec::new();
    begins.push(NextLine { post_disc: None, start: 0 });
    let mut k: usize = 0;
    while k + 1 < nb
        invariant
            all == items@,
            nb == breaks@.len(),
            n == all.len(),
            paragraph_ok(all),
            breaks_valid(all, cfg, breaks@),
            k + 1 <= nb,
            begins@.len() == k + 1,
            forall|j: int| 0 <= j <= k ==> (#[trigger] begins@[j]).post_disc == line_begin(all, breaks@, j).0
                && begins@[j].start == line_begin(all, breaks@, j).1
                && line_start_ok(all, begins@[j].post_disc, begins@[j].start as int),
        decreases nb - k,
    {
        let bk = breaks[k];
        proof {
            reveal(break_penalty);
            assert(breaks@[k as int].position < breaks@[nb - 1].position);
            assert(break_penalty(all, bk.position as int, bk.kind, true, cfg) is Some);
        }
        let nl = next_line(&items, bk.position, bk.kind);
        begins.push(nl);
        k = k + 1;
    }
    let mut out: Vec<PackedLine> = Vec::new();
    let mut current: Vec<Item> = Vec::new();
    let mut b: usize = 0;
    let mut p: usize = 0;
    for it in iter: items.into_iter()
        invariant
            iter.seq() == all,
            p == iter.index(),
            n == all.len(),
            nb == breaks@.len(),
            paragraph_ok(all),
            config_ok(cfg),
            breaks_valid(all, cfg, breaks@),
            begins@.len() == nb,
            forall|j: int| 0 <= j < nb ==> (#[trigger] begins@[j]).post_disc == line_begin(all, breaks@, j).0
                && begins@[j].start == line_begin(all, breaks@, j).1
                && line_start_ok(all, begins@[j].post_disc, begins@[j].start as int),
            b < nb,
            p <= breaks@[b as int].position,
            b > 0 ==> breaks@[b - 1].position < p,
            out@.len() == b,
            current@ == post_text(all, begins@[b as int].post_disc) + open_range(all, begins@[b as int].start as int, p as int),
            forall|j: int| 0 <= j < b ==> packed_line_ok(all, breaks@, cfg, *pack_cfg, j, #[trigger] out@[j]),
    {
        assert(it == all[p as int]);
        if p == breaks[b].position {
            let kind = breaks[b].kind;
            proof {
                reveal(break_penalty);
                assert(break_penalty(all, p as int, kind, true, cfg) is Some);
                assert(breaks@[b as int].position < breaks@[nb - 1].position);
            }
            let (mut pre, post): (Vec<Item>, Vec<Item>) = match it {
                Item::Discretionary(d) => (d.pre_break, d.post_break),
                _ => (Vec::new(), Vec::new()),
            };
            let mut line = current;
            let is_disc = match kind { BreakKind::Discretionary => true, _ => false };
            if is_disc {
                line.append(&mut pre);
            }
            proof {
                let bg = line_begin(all, breaks@, b as int);
                assert(line@ =~= broken_line(all, breaks@, b as int));
                lemma_line_ok(all, bg.0, bg.1, p as int, kind);
            }
            let pl = pack_one_line(line, b, cfg, pack_cfg, Ghost(all), Ghost(breaks@));
            let ghost out0 = out@;
            out.push(pl);
            proof {
                assert forall|j: int| 0 <= j < b + 1 implies packed_line_ok(all, breaks@, cfg, *pack_cfg, j, #[trigger] out@[j]) by {
                    if j < b {
                        assert(out@[j] == out0[j]);
                    }
                }
                lemma_prune_ge(all, p as int + 1);
            }
            b = b + 1;
            current = if begins[b].post_disc.is_some() { post } else { Vec::new() };
            proof {
                assert(current@ =~= post_text(all, begins@[b as int].post_disc) + open_range(all, begins@[b as int].start as int, p + 1));
            }
        } else if p >= begins[b].start {
            current.push(it);
            assert(current@ =~= post_text(all, begins@[b as int].post_disc) + open_range(all, begins@[b as int].start as int, p + 1));
        } else {
            assert(open_range(all, begins@[b as int].start as int, p + 1) =~= Seq::empty());
        }
        p = p + 1;
    }
    // The last line ends at the end of the paragraph.
    assert(b == nb - 1) by {
        if b < nb - 1 {
            assert(breaks@[b as int].position < breaks@[nb - 1].position);
        }
    }
    proof {
        let bg = line_begin(all, breaks@, b as int);
        assert(current@ =~= broken_line(all, breaks@, b as int));
        lemma_line_ok(all, bg.0, bg.1, n as int, BreakKind::End);
    }
    let pl = pack_one_line(current, b, cfg, pack_cfg, Ghost(all), Ghost(breaks@));
    let ghost out0 = out@;
    out.push(pl);
    proof {
        assert forall|j: int| 0 <= j < nb implies packed_line_ok(all, breaks@, cfg, *pack_cfg, j, #[trigger] out@[j]) by {
            if j < b {
                assert(out@[j] == out0[j]);
            }
        }
    }
    out
}

} // verus!
