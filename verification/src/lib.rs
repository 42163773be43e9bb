//! Layout partitioning and text editing for a terminal dashboard.
//!
//! The crate has two engines. The layout engine divides a rectangle among a
//! tree of named regions according to sizing constraints. The text engine
//! keeps an editable line of characters together with a cursor and a
//! horizontally scrolling window. Both are independent of any rendering
//! backend: they take and return plain values.
//!
//! Around the two engines stand the parts of the dashboard that compute
//! without drawing: the tree of the dashboard's regions, the area of a
//! page's content beside its scrollbar, what a key press does to the
//! application, and what the widgets hand to whoever draws them.

pub mod constraint;
pub mod geometry;
pub mod layout;
pub mod layout_result;
pub mod navigation;
pub mod pages;
pub mod resolver;
pub mod resolver_proofs;
pub mod shape;
pub mod sums;
pub mod walk;
pub mod widgets;
