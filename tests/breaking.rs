use texbox::glue::{GlueOrder, GlueRatio, GlueSign, GlueTotals};
use texbox::hpack::HTotals;
use texbox::item::{Axis, Discretionary, Glue, Glyph, Item, PackedBox};
use texbox::setting::{PackConfig, Provenance};
use texbox::linebreak::{break_at, line_demerits, line_fit, BreakConfig, BreakKind, Breakpoint, Fitness, EJECT_PENALTY};
use texbox::lines::pack_lines;
use texbox::search::{break_paragraph, BreakError};

fn word(width: i64) -> Item {
    Item::Box(PackedBox {
        axis: Axis::Horizontal,
        width,
        height: 7,
        depth: 2,
        shift: 0,
        glue_sign: GlueSign::Normal,
        glue_order: GlueOrder::Normal,
        glue_set: GlueRatio::zero(),
        contents: Vec::new(),
    })
}

fn space() -> Item {
    Item::Glue(Glue { width: 10, stretch: 10, stretch_order: GlueOrder::Normal, shrink: 5, shrink_order: GlueOrder::Normal, leader: None })
}

fn fill() -> Item {
    Item::Glue(Glue { width: 0, stretch: 1, stretch_order: GlueOrder::Fil, shrink: 0, shrink_order: GlueOrder::Normal, leader: None })
}

fn hyphen_disc() -> Item {
    let h = Glyph { font: 0, code: 45, width: 5, height: 3, depth: 0 };
    Item::Discretionary(Discretionary { pre_break: vec![Item::Char(h)], post_break: Vec::new(), no_break: Vec::new() })
}

fn config(width: i64, pretolerance: i64, tolerance: i64) -> BreakConfig {
    BreakConfig {
        line_widths: Vec::new(),
        default_width: width,
        pretolerance,
        tolerance,
        hyphen_penalty: 50,
        ex_hyphen_penalty: 50,
        line_penalty: 10,
        adj_demerits: 10000,
        double_hyphen_demerits: 10000,
        final_hyphen_demerits: 5000,
        looseness: 0,
        fuzz: 0,
    }
}

fn six_words() -> Vec<Item> {
    let mut v = Vec::new();
    for i in 0..6 {
        if i > 0 {
            v.push(space());
        }
        v.push(word(30));
    }
    v
}

fn hyphenated_paragraph() -> Vec<Item> {
    vec![
        word(30),
        space(),
        word(30),
        space(),
        word(30),
        space(),
        word(25),
        hyphen_disc(),
        word(20),
        space(),
        word(30),
        Item::Penalty(10000),
        fill(),
    ]
}

fn bp(position: usize, kind: BreakKind) -> Breakpoint {
    Breakpoint { position, kind }
}

#[test]
fn two_words_per_line() {
    let r = break_paragraph(&six_words(), &config(75, 100, 200)).unwrap();
    assert_eq!(r.breaks, vec![bp(3, BreakKind::Glue), bp(7, BreakKind::Glue), bp(11, BreakKind::End)]);
    assert_eq!(r.total_demerits, 3 * 22 * 22);
}

#[test]
fn breaking_is_deterministic() {
    let a = break_paragraph(&hyphenated_paragraph(), &config(75, 100, 100));
    let b = break_paragraph(&hyphenated_paragraph(), &config(75, 100, 100));
    assert_eq!(a, b);
    let c = break_paragraph(&six_words(), &config(75, 100, 200));
    let d = break_paragraph(&six_words(), &config(75, 100, 200));
    assert_eq!(c, d);
}

#[test]
fn second_pass_breaks_at_discretionary() {
    let r = break_paragraph(&hyphenated_paragraph(), &config(75, 100, 100)).unwrap();
    assert_eq!(r.breaks, vec![bp(3, BreakKind::Glue), bp(7, BreakKind::Discretionary), bp(13, BreakKind::End)]);
    assert_eq!(r.total_demerits, 484 + 484 + 2500 + 100 + 5000);
}

#[test]
fn low_tolerance_fails() {
    let r = break_paragraph(&six_words(), &config(75, -1, 0));
    assert_eq!(r, Err(BreakError::NoFeasibleBreaks));
}

#[test]
fn high_tolerance_never_fails() {
    let items = vec![word(200), space(), word(300), space(), word(10)];
    let r = break_paragraph(&items, &config(75, -1, 1_000_000)).unwrap();
    assert_eq!(r.breaks.last(), Some(&bp(5, BreakKind::End)));
    for w in r.breaks.windows(2) {
        assert!(w[0].position < w[1].position);
    }
}

#[test]
fn empty_paragraph_is_one_line() {
    let r = break_paragraph(&Vec::new(), &config(75, -1, 20000)).unwrap();
    assert_eq!(r.breaks, vec![bp(0, BreakKind::End)]);
}

#[test]
fn per_line_widths() {
    let mut cfg = config(75, 100, 200);
    cfg.line_widths = vec![110];
    let mut items = six_words();
    items.push(Item::Penalty(10000));
    items.push(fill());
    let r = break_paragraph(&items, &cfg).unwrap();
    assert_eq!(r.breaks, vec![bp(5, BreakKind::Glue), bp(9, BreakKind::Glue), bp(13, BreakKind::End)]);
    assert_eq!(r.total_demerits, 100 + 484 + 100);
}

#[test]
fn legal_breakpoints() {
    let items = vec![word(10), space(), space(), Item::Penalty(10000), Item::Penalty(-20000), hyphen_disc()];
    let c = config(75, 100, 200);
    assert_eq!(break_at(&items, 0, true, &c), None);
    assert_eq!(break_at(&items, 1, true, &c), Some((BreakKind::Glue, 0)));
    assert_eq!(break_at(&items, 2, true, &c), None);
    assert_eq!(break_at(&items, 3, true, &c), None);
    assert_eq!(break_at(&items, 4, true, &c), Some((BreakKind::Penalty, -20000)));
    assert_eq!(break_at(&items, 5, false, &c), None);
    assert_eq!(break_at(&items, 5, true, &c), Some((BreakKind::Discretionary, 50)));
    assert_eq!(break_at(&items, 6, true, &c), Some((BreakKind::End, EJECT_PENALTY)));
}

fn totals(width: i64, stretch: i64, fil: i64, shrink: i64) -> HTotals {
    HTotals {
        width,
        height: 0,
        depth: 0,
        stretch: GlueTotals { normal: stretch, fil, fill: 0, filll: 0 },
        shrink: GlueTotals { normal: shrink, fil: 0, fill: 0, filll: 0 },
    }
}

#[test]
fn line_fitness_classes() {
    assert_eq!(line_fit(75, &totals(70, 10, 0, 5), true), (12, Fitness::Decent));
    assert_eq!(line_fit(80, &totals(70, 10, 0, 5), true), (100, Fitness::VeryLoose));
    assert_eq!(line_fit(77, &totals(70, 10, 0, 5), true), (34, Fitness::Loose));
    assert_eq!(line_fit(75, &totals(70, 0, 0, 5), true), (1_000_000, Fitness::VeryLoose));
    assert_eq!(line_fit(75, &totals(70, 0, 0, 5), false), (0, Fitness::Decent));
    assert_eq!(line_fit(75, &totals(70, 0, 1, 5), true), (0, Fitness::Decent));
    assert_eq!(line_fit(66, &totals(70, 10, 0, 5), true), (51, Fitness::Tight));
    assert_eq!(line_fit(60, &totals(70, 10, 0, 5), true), (1_000_000, Fitness::Tight));
    let mut inf_shrink = totals(70, 10, 0, 5);
    inf_shrink.shrink.fil = 1;
    assert_eq!(line_fit(60, &inf_shrink, true), (0, Fitness::Decent));
}

#[test]
fn demerits_formula() {
    let c = config(75, 100, 200);
    assert_eq!(line_demerits(&c, 12, 0, Fitness::Decent, Fitness::Decent, false, false, false), 484);
    assert_eq!(line_demerits(&c, 12, 50, Fitness::Decent, Fitness::Decent, true, false, false), 2984);
    assert_eq!(line_demerits(&c, 12, -50, Fitness::Decent, Fitness::Decent, false, false, false), 484 - 2500);
    assert_eq!(line_demerits(&c, 12, EJECT_PENALTY, Fitness::Decent, Fitness::Decent, false, false, false), 484);
    assert_eq!(line_demerits(&c, 0, 50, Fitness::Tight, Fitness::VeryLoose, true, true, false), 100 + 2500 + 10000 + 10000);
    assert_eq!(line_demerits(&c, 0, 0, Fitness::Tight, Fitness::Loose, true, true, true), 100 + 5000 + 10000);
    assert_eq!(line_demerits(&c, 9995, 0, Fitness::Decent, Fitness::Decent, false, false, false), 100_000_000);
}

fn pack_cfg() -> PackConfig {
    PackConfig { badness_limit: 10000, fuzz: 0, overfull_rule: 0, provenance: Provenance::Paragraph(3) }
}

#[test]
fn lines_are_packed_to_their_widths() {
    let cfg = config(75, 100, 200);
    let r = break_paragraph(&six_words(), &cfg).unwrap();
    let lines = pack_lines(six_words(), &r.breaks, &cfg, &pack_cfg());
    assert_eq!(lines.len(), 3);
    for l in &lines {
        assert_eq!(l.packed.boxed.width, 75);
        assert_eq!(l.packed.boxed.contents, vec![word(30), space(), word(30)]);
        assert_eq!(l.packed.boxed.glue_sign, GlueSign::Stretching);
        assert_eq!(l.packed.boxed.glue_set.numerator * 10, 5 * l.packed.boxed.glue_set.denominator);
        assert!(l.adjustments.is_empty());
    }
}

#[test]
fn hyphenated_line_gets_pre_break_text() {
    let cfg = config(75, 100, 100);
    let r = break_paragraph(&hyphenated_paragraph(), &cfg).unwrap();
    let lines = pack_lines(hyphenated_paragraph(), &r.breaks, &cfg, &pack_cfg());
    assert_eq!(lines.len(), 3);
    let h = Glyph { font: 0, code: 45, width: 5, height: 3, depth: 0 };
    assert_eq!(lines[1].packed.boxed.contents, vec![word(30), space(), word(25), Item::Char(h)]);
    assert_eq!(lines[2].packed.boxed.contents, vec![word(20), space(), word(30), Item::Penalty(10000), fill()]);
    assert_eq!(lines[2].packed.boxed.glue_order, GlueOrder::Fil);
}

#[test]
fn adjustments_follow_their_line() {
    let mut items = six_words();
    items.insert(1, Item::Adjustment(vec![Item::Kern(4)]));
    let cfg = config(75, 100, 200);
    let r = break_paragraph(&items, &cfg).unwrap();
    assert_eq!(r.breaks.len(), 3);
    let lines = pack_lines(items, &r.breaks, &cfg, &pack_cfg());
    assert_eq!(lines[0].adjustments, vec![Item::Kern(4)]);
    assert!(lines[1].adjustments.is_empty());
}

fn stretchy() -> Item {
    Item::Glue(Glue { width: 10, stretch: 30, stretch_order: GlueOrder::Normal, shrink: 5, shrink_order: GlueOrder::Normal, leader: None })
}

fn four_short_words() -> Vec<Item> {
    vec![word(20), stretchy(), word(20), stretchy(), word(20), stretchy(), word(20), Item::Penalty(10000), fill()]
}

#[test]
fn looseness_asks_for_more_lines() {
    let mut cfg = config(65, -1, 1_000_000);
    let tight = break_paragraph(&four_short_words(), &cfg).unwrap();
    assert_eq!(tight.breaks.len(), 2);
    cfg.looseness = 1;
    let loose = break_paragraph(&four_short_words(), &cfg).unwrap();
    assert_eq!(loose.breaks.len(), 3);
    assert_eq!(loose.breaks.last(), Some(&bp(9, BreakKind::End)));
}

#[test]
fn unreachable_looseness_keeps_the_best() {
    let mut items = six_words();
    items.push(Item::Penalty(10000));
    items.push(fill());
    let mut cfg = config(75, 100, 200);
    let best = break_paragraph(&items, &cfg).unwrap();
    cfg.looseness = 1;
    let loose = break_paragraph(&items, &cfg).unwrap();
    assert_eq!(loose.breaks, best.breaks);
}

#[test]
fn first_pass_stands_when_looseness_retry_fails() {
    let items = vec![word(150), space(), word(10)];
    let mut cfg = config(100, 1_000_000, 0);
    cfg.looseness = 2;
    let r = break_paragraph(&items, &cfg).unwrap();
    assert_eq!(r.breaks, vec![bp(1, BreakKind::Glue), bp(3, BreakKind::End)]);
}

#[test]
fn artificial_demerits_reach_the_end() {
    let r = break_paragraph(&vec![word(50)], &config(100, -1, 0)).unwrap();
    assert_eq!(r.breaks, vec![bp(1, BreakKind::End)]);
    assert_eq!(r.total_demerits, 0);
}

fn scenario_word(width: i64) -> Item {
    word(width)
}

fn scenario_glue() -> Item {
    Item::Glue(Glue { width: 10, stretch: 6, stretch_order: GlueOrder::Normal, shrink: 3, shrink_order: GlueOrder::Normal, leader: None })
}

#[test]
fn three_words_make_one_overfull_line() {
    let items = || vec![scenario_word(30), scenario_glue(), scenario_word(30), scenario_glue(), scenario_word(30)];
    let cfg = config(100, -1, 1_000_000);
    let r = break_paragraph(&items(), &cfg).unwrap();
    assert_eq!(r.breaks, vec![bp(5, BreakKind::End)]);
    let lines = pack_lines(items(), &r.breaks, &cfg, &pack_cfg());
    assert_eq!(lines.len(), 1);
    let b = &lines[0].packed;
    assert_eq!(b.boxed.width, 100);
    assert_eq!(b.boxed.glue_set, GlueRatio::one());
    assert_eq!(b.diagnostic.unwrap().amount, 4);
}
