//! The arguments of the pricing tools, as the library receives them.

use vstd::prelude::*;
use crate::types::{Amount, PricingAction};

verus! {

/// A SKU to look up.
pub struct SkuInput {
    pub sku: String,
}

/// A rule to activate or deactivate.
pub struct RuleIdInput {
    pub rule_id: String,
}

/// A quote to fetch or approve.
pub struct QuoteIdInput {
    pub quote_id: String,
}

/// A base currency and the currencies to quote against it.
pub struct FxRatesInput {
    pub base: String,
    pub targets: Vec<String>,
}

/// Filters on the audit trail.
pub struct AuditInput {
    /// Entity type filter: rule, product, quote, promotion, segment.
    pub entity_type: Option<String>,
    /// Entity id filter.
    pub entity_id: Option<String>,
    /// Max results (50 when absent).
    pub limit: Option<usize>,
}

/// A CEL expression to validate.
pub struct CelValidateInput {
    pub expression: String,
}

/// A product to add to or update in the catalog.
pub struct ProductInput {
    pub sku: String,
    pub name: String,
    pub category: String,
    pub list_price: Amount,
    pub cost: Amount,
    /// ISO 4217 currency; `USD` when absent.
    pub currency: Option<String>,
    pub tags: Option<Vec<String>>,
}

/// One action of a rule as given: its `type` when that is a string and its
/// `value` when that is a number.
pub struct ActionInput {
    pub action_type: Option<String>,
    pub value: Option<Amount>,
}

/// The actions that have both a type and a value, in order.
pub open spec fn kept_actions(raw: Seq<ActionInput>) -> Seq<PricingAction>
    decreases raw.len(),
{
    if raw.len() == 0 {
        seq![]
    } else {
        let earlier = kept_actions(raw.drop_last());
        match (raw.last().action_type, raw.last().value) {
            (Some(t), Some(v)) => earlier.push(PricingAction { action_type: t, value: v }),
            _ => earlier,
        }
    }
}

/// The actions of a rule input that have both a type and a value, in order.
pub fn read_actions(raw: &Vec<ActionInput>) -> (r: Vec<PricingAction>)
    ensures
        r@ == kept_actions(raw@),
{
    let mut out: Vec<PricingAction> = Vec::new();
    let mut i: usize = 0;
    while i < raw.len()
        invariant
            i <= raw@.len(),
            out@ == kept_actions(raw@.take(i as int)),
        decreases raw@.len() - i,
    {
        let a = &raw[i];
        assert(raw@.take(i + 1).drop_last() =~= raw@.take(i as int));
        match (&a.action_type, a.value) {
            (Some(t), Some(v)) => {
                out.push(PricingAction { action_type: t.clone(), value: v });
            },
            _ => {},
        }
        i = i + 1;
    }
    assert(raw@.take(raw@.len() as int) =~= raw@);
    out
}

/// A pricing rule to create.
pub struct RuleInput {
    pub name: String,
    pub description: Option<String>,
    /// Lower is higher priority; 100 when absent.
    pub priority: Option<i32>,
    /// CEL condition.
    pub condition: String,
    /// The actions as given; those without a type or a value are dropped.
    pub actions: Vec<ActionInput>,
    pub segments: Option<Vec<String>>,
    pub channels: Option<Vec<String>>,
    pub tags: Option<Vec<String>>,
    /// Active immediately; inactive when absent.
    pub active: Option<bool>,
}

/// A customer segment to create.
pub struct SegmentInput {
    pub name: String,
    /// CEL condition.
    pub condition: String,
    /// 100 when absent.
    pub priority: Option<i32>,
    /// Default discount percentage; 0 when absent.
    pub discount_pct: Option<Amount>,
}

/// A promotion to create.
pub struct PromoInput {
    pub name: String,
    pub promo_type: String,
    pub code: Option<String>,
    pub discount_type: String,
    pub discount_value: Amount,
    /// CEL condition; empty (always holds) when absent.
    pub condition: Option<String>,
    pub max_uses: Option<u32>,
    /// The current time when absent.
    pub valid_from: Option<String>,
    /// `2099-12-31T23:59:59Z` when absent.
    pub valid_until: Option<String>,
    /// Does not stack when absent.
    pub stackable: Option<bool>,
}

} // verus!
