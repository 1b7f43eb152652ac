//! Wholesale and retail pricing for a small manufacturing order.

pub mod text;
pub mod money;
pub mod pricing;
