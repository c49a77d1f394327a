//! Box packaging and paragraph line breaking for a typesetting engine.
//!
//! The library measures lists of typesetting items, packs them into boxes
//! whose glue is resolved against four orders of infinity, and chooses the
//! breakpoints of a paragraph with a pruned search over active breakpoints.
//!
//! - `glue`: orders of infinity, glue ratios, and resolving an excess.
//! - `badness`: how badly a box's glue is stretched or shrunk.
//! - `item`: the items of horizontal and vertical lists, and packed boxes.
//! - `setting`: the size, glue setting and diagnostics of a box.
//! - `hpack`, `vpack`: the horizontal and vertical packers.
//! - `linebreak`: legal breakpoints and the scoring of one line.
//! - `search`: the search for the breaks of a paragraph.
//! - `lines`: packing the lines of a broken paragraph.
//! - `string_pool`: numbering the program's string literals.
pub mod glue;
pub mod badness;
pub mod item;
pub mod setting;
pub mod hpack;
pub mod vpack;
pub mod linebreak;
pub mod search;
pub mod lines;
pub mod string_pool;
