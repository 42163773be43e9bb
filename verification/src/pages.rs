//! The pages of the dashboard, as far as they compute: how high the
//! content of each is, what is left of its width beside a scrollbar, and
//! into which named regions the dashboard divides its content.

pub mod dashboard;
pub mod scroll;
