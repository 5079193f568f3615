//! The records the pricing engine keeps: products, rules, segments,
//! promotions, quotes and audit entries.

use vstd::prelude::*;

verus! {

/// A flat JSON object whose fields all hold strings, as `(key, value)` pairs
/// in insertion order.
pub type JsonFields = Vec<(String, String)>;

/// A real number (a price, a percentage, a quantity) carried by the library
/// as the bit pattern of an IEEE-754 binary64 value. The library stores and
/// returns amounts but never computes with them, so no precision is lost.
#[derive(Clone, Copy, Debug, PartialEq, Eq, Structural)]
pub struct Amount {
    pub bits: u64,
}

impl Amount {
    /// The amount `0.0` (whose bit pattern is all zeros).
    pub fn zero() -> (r: Amount)
        ensures
            r.bits == 0,
    {
        Amount { bits: 0 }
    }
}

/// A catalog product.
#[derive(Clone, Debug)]
pub struct Product {
    pub sku: String,
    pub name: String,
    pub category: String,
    pub list_price: Amount,
    pub cost: Amount,
    pub currency: String,
    pub tags: Vec<String>,
    pub attributes: JsonFields,
}

/// A pricing rule: a CEL condition and the actions taken when it holds.
#[derive(Clone, Debug)]
pub struct PricingRule {
    pub id: String,
    pub name: String,
    pub description: String,
    pub priority: i32,
    /// CEL expression; the empty text always holds.
    pub condition: String,
    pub actions: Vec<PricingAction>,
    pub segments: Option<Vec<String>>,
    pub channels: Option<Vec<String>>,
    pub tags: Vec<String>,
    pub active: bool,
    pub created_at: String,
    pub updated_at: String,
}

/// One action of a rule: `set_price`, `pct_discount`, `absolute_discount`,
/// `markup_pct`, `multiply_price`, `set_floor` or `set_ceiling`; other
/// types have no effect.
#[derive(Clone, Debug)]
pub struct PricingAction {
    pub action_type: String,
    pub value: Amount,
}

/// A customer segment.
#[derive(Clone, Debug)]
pub struct Segment {
    pub id: String,
    pub name: String,
    /// CEL expression.
    pub condition: String,
    pub priority: i32,
    pub discount_pct: Amount,
    pub metadata: JsonFields,
}

/// A promotion (coupon, volume tier, BOGO, flash sale, loyalty).
#[derive(Clone, Debug)]
pub struct Promotion {
    pub id: String,
    pub name: String,
    pub promo_type: String,
    pub code: Option<String>,
    /// `pct`, `absolute` or another type (which leaves the price unchanged).
    pub discount_type: String,
    pub discount_value: Amount,
    /// CEL expression; the empty text always holds.
    pub condition: String,
    pub max_uses: Option<u32>,
    pub uses: u32,
    pub valid_from: String,
    pub valid_until: String,
    pub stackable: bool,
    pub active: bool,
}

/// A customer quote.
#[derive(Clone, Debug)]
pub struct Quote {
    pub id: String,
    pub customer_id: String,
    /// `draft`, `pending_approval`, `approved`, `rejected`, `converted` or `expired`.
    pub status: String,
    pub lines: Vec<QuoteLine>,
    pub currency: String,
    pub total_list: Amount,
    pub total_net: Amount,
    pub total_discount: Amount,
    pub total_tax: Amount,
    pub valid_until: String,
    pub notes: String,
    pub created_at: String,
}

/// One line of a quote.
#[derive(Clone, Debug)]
pub struct QuoteLine {
    pub sku: String,
    pub quantity: Amount,
    pub list_price: Amount,
    pub net_price: Amount,
    pub discount: Amount,
    pub tax: Amount,
    pub applied_rules: Vec<String>,
}

/// One entry of the audit trail.
#[derive(Clone, Debug)]
pub struct AuditEntry {
    pub id: String,
    pub timestamp: String,
    /// `rule`, `product`, `quote`, `promotion` or `segment`.
    pub entity_type: String,
    pub entity_id: String,
    /// `created`, `upserted`, `activated`, `deactivated`, `approved`, ...
    pub action: String,
    pub actor: String,
    pub details: JsonFields,
}

} // verus!
