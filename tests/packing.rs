use texbox::badness::{badness, INF_BAD, UNSETTABLE_BAD};
use texbox::glue::{resolve, GlueOrder, GlueRatio, GlueSign, GlueTotals};
use texbox::hpack::{hpack, measure_hlist};
use texbox::item::{Axis, Glue, Glyph, Item, PackedBox, Rule, RuleDim};
use texbox::setting::{DiagnosticKind, PackConfig, PackMode, Provenance};
use texbox::vpack::{vpack, vpackage, PackError};

fn cfg() -> PackConfig {
    PackConfig { badness_limit: 1000, fuzz: 0, overfull_rule: 0, provenance: Provenance::SourceLine(1) }
}

fn word(width: i64) -> Item {
    Item::Box(PackedBox {
        axis: Axis::Horizontal,
        width,
        height: 7,
        depth: 2,
        shift: 0,
        glue_sign: GlueSign::Normal,
        glue_order: GlueOrder::Normal,
        glue_set: GlueRatio::zero(),
        contents: Vec::new(),
    })
}

fn vbox(height: i64, depth: i64) -> Item {
    Item::Box(PackedBox {
        axis: Axis::Horizontal,
        width: 40,
        height,
        depth,
        shift: 0,
        glue_sign: GlueSign::Normal,
        glue_order: GlueOrder::Normal,
        glue_set: GlueRatio::zero(),
        contents: Vec::new(),
    })
}

fn glue(width: i64, stretch: i64, so: GlueOrder, shrink: i64, ho: GlueOrder) -> Item {
    Item::Glue(Glue { width, stretch, stretch_order: so, shrink, shrink_order: ho, leader: None })
}

fn three_words() -> Vec<Item> {
    vec![
        word(30),
        glue(10, 6, GlueOrder::Normal, 3, GlueOrder::Normal),
        word(30),
        glue(10, 6, GlueOrder::Normal, 3, GlueOrder::Normal),
        word(30),
    ]
}

fn ratio_is(r: GlueRatio, n: i64, d: i64) -> bool {
    r.denominator != 0 && r.numerator * d == n * r.denominator
}

#[test]
fn resolve_ignores_lower_orders() {
    let t = GlueTotals { normal: 6, fil: 0, fill: 2, filll: 0 };
    let (o, r) = resolve(&t, 20);
    assert_eq!(o, GlueOrder::Fill);
    assert!(ratio_is(r, 10, 1));
    let t2 = GlueTotals { normal: -400, fil: 77, fill: 2, filll: 0 };
    assert_eq!(resolve(&t2, 20), (o, r));
}

#[test]
fn resolve_with_nothing_available() {
    let t = GlueTotals { normal: 0, fil: 0, fill: 0, filll: 0 };
    let (o, r) = resolve(&t, 20);
    assert_eq!(o, GlueOrder::Normal);
    assert_eq!(r, GlueRatio::zero());
}

#[test]
fn badness_boundaries() {
    assert_eq!(badness(0, 0), 0);
    assert_eq!(badness(0, 50), 0);
    assert_eq!(badness(5, 0), UNSETTABLE_BAD);
    assert_eq!(badness(5, -3), UNSETTABLE_BAD);
    assert_eq!(badness(100, 100), 100);
    assert_eq!(badness(10, 100), 0);
    assert_eq!(badness(50, 100), 12);
    assert_eq!(badness(1000, 10), INF_BAD);
    let mut last = 0;
    for e in 0..500 {
        let b = badness(e, 100);
        assert!(b >= last);
        last = b;
    }
}

#[test]
fn overfull_line_clamps_ratio() {
    let mut sink = Vec::new();
    let r = hpack(three_words(), 100, PackMode::Exactly, &cfg(), &mut sink, true);
    assert_eq!(r.boxed.width, 100);
    assert_eq!(r.boxed.glue_sign, GlueSign::Shrinking);
    assert_eq!(r.boxed.glue_order, GlueOrder::Normal);
    assert_eq!(r.boxed.glue_set, GlueRatio::one());
    let d = r.diagnostic.unwrap();
    assert_eq!(d.kind, DiagnosticKind::Overfull);
    assert_eq!(d.amount, 4);
    assert_eq!(d.axis, Axis::Horizontal);
    assert_eq!(r.badness, UNSETTABLE_BAD);
    assert_eq!(r.boxed.contents.len(), 5);
}

#[test]
fn overfull_rule_is_appended() {
    let c = PackConfig { overfull_rule: 5, ..cfg() };
    let mut sink = Vec::new();
    let r = hpack(three_words(), 100, PackMode::Exactly, &c, &mut sink, true);
    assert_eq!(r.boxed.contents.len(), 6);
    assert_eq!(
        r.boxed.contents[5],
        Item::Rule(Rule { width: RuleDim::Fixed(5), height: RuleDim::Running, depth: RuleDim::Running })
    );
}

#[test]
fn natural_width_of_three_words() {
    let t = measure_hlist(&three_words());
    assert_eq!(t.width, 110);
    assert_eq!(t.height, 7);
    assert_eq!(t.depth, 2);
    assert_eq!(t.shrink.normal, 6);
    assert_eq!(t.stretch.normal, 12);
}

#[test]
fn fil_glue_stretches_to_spread() {
    let items = vec![glue(0, 5, GlueOrder::Fil, 0, GlueOrder::Normal)];
    let mut sink = Vec::new();
    let r = hpack(items, 50, PackMode::Additional, &cfg(), &mut sink, true);
    assert_eq!(r.boxed.width, 50);
    assert_eq!(r.boxed.glue_sign, GlueSign::Stretching);
    assert_eq!(r.boxed.glue_order, GlueOrder::Fil);
    assert!(ratio_is(r.boxed.glue_set, 10, 1));
    assert!(r.diagnostic.is_none());
}

#[test]
fn natural_pack_leaves_glue_unset() {
    let mut sink = Vec::new();
    let r = hpack(three_words(), 0, PackMode::Additional, &cfg(), &mut sink, true);
    assert_eq!(r.boxed.width, 110);
    assert_eq!(r.boxed.glue_sign, GlueSign::Normal);
    assert_eq!(r.boxed.glue_set, GlueRatio::zero());
    assert!(r.diagnostic.is_none());
}

#[test]
fn packing_twice_gives_identical_boxes() {
    let mut s1 = Vec::new();
    let mut s2 = Vec::new();
    let a = hpack(three_words(), 120, PackMode::Exactly, &cfg(), &mut s1, true);
    let b = hpack(three_words(), 120, PackMode::Exactly, &cfg(), &mut s2, true);
    assert_eq!(a, b);
    let v1 = vpack(vec![vbox(10, 3), vbox(20, 4)], 50, PackMode::Exactly, &cfg()).unwrap();
    let v2 = vpack(vec![vbox(10, 3), vbox(20, 4)], 50, PackMode::Exactly, &cfg()).unwrap();
    assert_eq!(v1, v2);
}

#[test]
fn underfull_and_loose_reports() {
    let mut sink = Vec::new();
    let r = hpack(three_words(), 130, PackMode::Exactly, &PackConfig { badness_limit: 0, ..cfg() }, &mut sink, true);
    let d = r.diagnostic.unwrap();
    assert_eq!(d.kind, DiagnosticKind::Underfull);
    assert_eq!(r.badness, badness(20, 12));
    let r2 = hpack(three_words(), 114, PackMode::Exactly, &PackConfig { badness_limit: 0, ..cfg() }, &mut sink, true);
    assert_eq!(r2.diagnostic.unwrap().kind, DiagnosticKind::Loose);
    assert_eq!(r2.badness, badness(4, 12));
}

#[test]
fn tight_report() {
    let mut sink = Vec::new();
    let r = hpack(three_words(), 105, PackMode::Exactly, &PackConfig { badness_limit: 0, ..cfg() }, &mut sink, true);
    assert_eq!(r.boxed.glue_sign, GlueSign::Shrinking);
    assert!(ratio_is(r.boxed.glue_set, 5, 6));
    assert_eq!(r.diagnostic.unwrap().kind, DiagnosticKind::Tight);
    assert_eq!(r.badness, badness(5, 6));
}

#[test]
fn pass_through_items_move_to_sink() {
    let items = vec![
        word(10),
        Item::Mark(7),
        Item::Adjustment(vec![Item::Kern(1), Item::Kern(2)]),
        word(20),
        Item::Insertion(vec![Item::Kern(3)]),
    ];
    let mut sink = vec![Item::Kern(99)];
    let r = hpack(items, 0, PackMode::Additional, &cfg(), &mut sink, true);
    assert_eq!(r.boxed.contents, vec![word(10), word(20)]);
    assert_eq!(
        sink,
        vec![Item::Kern(99), Item::Mark(7), Item::Kern(1), Item::Kern(2), Item::Insertion(vec![Item::Kern(3)])]
    );
    assert_eq!(r.boxed.width, 30);
}

#[test]
fn pass_through_items_dropped_without_collecting() {
    let items = vec![word(10), Item::Mark(7), Item::Adjustment(vec![Item::Kern(1)])];
    let mut sink = vec![Item::Kern(99)];
    let r = hpack(items, 0, PackMode::Additional, &cfg(), &mut sink, false);
    assert_eq!(r.boxed.contents, vec![word(10)]);
    assert_eq!(sink, vec![Item::Kern(99)]);
}

#[test]
fn empty_box_is_never_reported() {
    let mut sink = Vec::new();
    let r = hpack(Vec::new(), 50, PackMode::Exactly, &PackConfig { badness_limit: -1, ..cfg() }, &mut sink, true);
    assert_eq!(r.boxed.width, 50);
    assert!(r.diagnostic.is_none());
}

#[test]
fn shifted_box_and_glyph_heights() {
    let g = Glyph { font: 0, code: 65, width: 5, height: 9, depth: 1 };
    let mut b = word(10);
    if let Item::Box(ref mut pb) = b {
        pb.shift = 3;
    }
    let t = measure_hlist(&vec![Item::Char(g), b]);
    assert_eq!(t.width, 15);
    assert_eq!(t.height, 9);
    assert_eq!(t.depth, 5);
}

#[test]
fn vpackage_clamps_depth() {
    let unclamped = vpackage(vec![vbox(10, 3), vbox(20, 5)], 0, PackMode::Additional, 100, &cfg()).unwrap();
    let clamped = vpackage(vec![vbox(10, 3), vbox(20, 5)], 0, PackMode::Additional, 0, &cfg()).unwrap();
    assert_eq!(unclamped.boxed.depth, 5);
    assert_eq!(unclamped.boxed.height, 33);
    assert_eq!(clamped.boxed.depth, 0);
    assert_eq!(clamped.boxed.height, 38);
    assert_eq!(clamped.boxed.width, 40);
}

#[test]
fn vpack_refuses_glyphs() {
    let g = Glyph { font: 0, code: 65, width: 5, height: 9, depth: 1 };
    let r = vpack(vec![vbox(10, 3), Item::Char(g)], 0, PackMode::Additional, &cfg());
    assert_eq!(r, Err(PackError::GlyphInVerticalList));
}

#[test]
fn vpack_glue_and_kern() {
    let items = vec![vbox(10, 3), glue(4, 2, GlueOrder::Normal, 0, GlueOrder::Normal), Item::Kern(5), vbox(20, 4)];
    let r = vpack(items, 46, PackMode::Exactly, &cfg()).unwrap();
    assert_eq!(r.boxed.height, 46);
    assert_eq!(r.boxed.depth, 4);
    assert_eq!(r.boxed.glue_sign, GlueSign::Stretching);
    assert!(ratio_is(r.boxed.glue_set, 4, 2));
    assert_eq!(r.badness, badness(4, 2));
}

#[test]
fn overfull_vbox_adds_no_rule() {
    let c = PackConfig { overfull_rule: 5, ..cfg() };
    let r = vpack(vec![vbox(10, 3), vbox(20, 4)], 20, PackMode::Exactly, &c).unwrap();
    assert_eq!(r.boxed.contents.len(), 2);
    let d = r.diagnostic.unwrap();
    assert_eq!(d.kind, DiagnosticKind::Overfull);
    assert_eq!(d.axis, Axis::Vertical);
    assert_eq!(d.amount, 13);
    assert_eq!(r.boxed.glue_set, GlueRatio::one());
}

#[test]
fn overfull_within_fuzz_is_reported_without_rule() {
    let c = PackConfig { badness_limit: 100, fuzz: 100, overfull_rule: 5, provenance: Provenance::SourceLine(1) };
    let mut sink = Vec::new();
    let r = hpack(vec![word(10)], 0, PackMode::Exactly, &c, &mut sink, true);
    assert_eq!(r.boxed.glue_set, GlueRatio::one());
    let d = r.diagnostic.unwrap();
    assert_eq!(d.kind, DiagnosticKind::Overfull);
    assert_eq!(d.amount, 10);
    assert_eq!(d.badness, UNSETTABLE_BAD);
    assert_eq!(r.boxed.contents, vec![word(10)]);
}

#[test]
fn box_of_only_a_mark_is_still_clamped() {
    let mut sink = Vec::new();
    let r = hpack(vec![Item::Mark(3)], -1, PackMode::Exactly, &cfg(), &mut sink, true);
    assert_eq!(r.boxed.width, -1);
    assert_eq!(r.boxed.glue_set, GlueRatio::one());
    assert_eq!(r.diagnostic.unwrap().amount, 1);
    assert_eq!(sink, vec![Item::Mark(3)]);
}

#[test]
fn vpack_refuses_discretionaries() {
    let d = Item::Discretionary(texbox::item::Discretionary { pre_break: Vec::new(), post_break: Vec::new(), no_break: Vec::new() });
    let r = vpack(vec![vbox(10, 3), d], 0, PackMode::Additional, &cfg());
    assert_eq!(r, Err(PackError::DiscretionaryInVerticalList));
    let g = Glyph { font: 0, code: 65, width: 5, height: 9, depth: 1 };
    let d2 = Item::Discretionary(texbox::item::Discretionary { pre_break: Vec::new(), post_break: Vec::new(), no_break: Vec::new() });
    let r2 = vpack(vec![Item::Ligature(g), d2], 0, PackMode::Additional, &cfg());
    assert_eq!(r2, Err(PackError::GlyphInVerticalList));
}
