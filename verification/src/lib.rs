//! Pricing engine core: catalog, rules, promotions, quotes and audit trail,
//! the planning half of the price waterfall, CEL condition evaluation and the
//! tax table, with their contracts proved by Verus.

pub mod tax;
pub mod text;
pub mod ids;
pub mod types;
pub mod inputs;
pub mod scan;
pub mod cel;
pub mod waterfall;
pub mod ranking;
pub mod store;
pub mod laws;
