//! The in-memory store of the pricing engine: catalog, rules, segments,
//! promotions, quotes and the audit trail.
//!
//! The operations behind the pricing tools (`upsert_product`,
//! `catalog_upsert`, `add_rule`, `create_rule`, `set_rule_active`,
//! `add_segment`, `create_segment`, `add_promotion`, `create_promotion`,
//! `create_quote`, `approve_quote`) each append one entry to the audit
//! trail. The building blocks they are made of (`put_product`,
//! `insert_rule`, `mark_rule`, `insert_segment`, `insert_promotion`,
//! `put_quote`, `mark_quote_approved`) change what they are given and write
//! no entry, and `log_audit_at` appends the entry it is given. No operation
//! changes or removes an entry already in the trail.

use vstd::prelude::*;
use crate::types::{Amount, AuditEntry, JsonFields, PricingRule, Product, Promotion, Quote, QuoteLine, Segment};
use crate::inputs::{kept_actions, read_actions, AuditInput, ProductInput, PromoInput, RuleInput, SegmentInput};
use crate::cel::{condition_error, validate_cel, CelVars};
use crate::waterfall::{resolve_segment, resolved_segment};
use crate::tax::{get_tax_rate, tax_rate_spec, upper_case_text};
use crate::ids::{is_uid, is_utc_clock_text, now, now_seconds, parse_rfc3339_seconds, rfc3339_seconds, uid};
use crate::text::{concat_text, opt_text, owned, text_eq};
use crate::ranking::{insert_ranked, lemma_sort_by_priority, lemma_sort_keeps_ties, priorities_ascending, rules_of, sort_by_priority, with_priority};

verus! {

/// `id` is `prefix` followed by a fresh identifier suffix.
pub open spec fn has_prefixed_uid(id: Seq<char>, prefix: Seq<char>) -> bool {
    &&& id.len() == prefix.len() + 8
    &&& id.take(prefix.len() as int) == prefix
    &&& is_uid(id.skip(prefix.len() as int))
}

/// `fields` is the JSON object with the single string field `key: value`.
pub open spec fn single_field(fields: Seq<(String, String)>, key: Seq<char>, value: Seq<char>) -> bool {
    fields.len() == 1 && fields[0].0@ == key && fields[0].1@ == value
}

/// `e` records `action` by `actor` on the entity `entity_type`/`entity_id`,
/// under a fresh `aud_` identifier.
pub open spec fn audit_entry_for(
    e: AuditEntry,
    entity_type: Seq<char>,
    entity_id: Seq<char>,
    action: Seq<char>,
    actor: Seq<char>,
) -> bool {
    &&& has_prefixed_uid(e.id@, "aud_"@)
    &&& e.entity_type@ == entity_type
    &&& e.entity_id@ == entity_id
    &&& e.action@ == action
    &&& e.actor@ == actor
}

/// `after` is `before` with exactly one entry appended.
pub open spec fn appends_one(before: Seq<AuditEntry>, after: Seq<AuditEntry>) -> bool {
    after.len() == before.len() + 1 && after.drop_last() == before
}

/// No two products share a SKU.
pub open spec fn distinct_skus(s: Seq<Product>) -> bool {
    forall|i: int, j: int| 0 <= i < s.len() && 0 <= j < s.len() && i != j ==> s[i].sku@ != s[j].sku@
}

/// Some product has SKU `sku`.
pub open spec fn has_sku(s: Seq<Product>, sku: Seq<char>) -> bool {
    exists|i: int| 0 <= i < s.len() && s[i].sku@ == sku
}

/// The position of the product with SKU `sku` (when there is one).
pub open spec fn sku_index(s: Seq<Product>, sku: Seq<char>) -> int {
    choose|i: int| 0 <= i < s.len() && s[i].sku@ == sku
}

/// The catalog as a map from SKU to product.
pub open spec fn catalog_of(s: Seq<Product>) -> Map<Seq<char>, Product> {
    Map::new(|sku: Seq<char>| has_sku(s, sku), |sku: Seq<char>| s[sku_index(s, sku)])
}

/// The products after `p` is put into the catalog: it replaces the product
/// with the same SKU in place, or is appended.
pub open spec fn put_product_spec(s: Seq<Product>, p: Product) -> Seq<Product> {
    if has_sku(s, p.sku@) {
        s.update(sku_index(s, p.sku@), p)
    } else {
        s.push(p)
    }
}

/// The active rules, in order of creation.
pub open spec fn active_rules_of(s: Seq<PricingRule>) -> Seq<PricingRule> {
    s.filter(|r: PricingRule| r.active)
}

/// `i` is the position of the first rule with identifier `id`.
pub open spec fn is_first_rule_with_id(s: Seq<PricingRule>, id: Seq<char>, i: int) -> bool {
    &&& 0 <= i < s.len()
    &&& s[i].id@ == id
    &&& forall|j: int| 0 <= j < i ==> s[j].id@ != id
}

/// The position of the first rule with identifier `id`, if any.
pub open spec fn first_rule_with_id(s: Seq<PricingRule>, id: Seq<char>) -> Option<int> {
    if exists|i: int| is_first_rule_with_id(s, id, i) {
        Some(choose|i: int| is_first_rule_with_id(s, id, i))
    } else {
        None
    }
}

/// The active promotions, in order of creation.
pub open spec fn active_promotions_of(s: Seq<Promotion>) -> Seq<Promotion> {
    s.filter(|p: Promotion| p.active)
}

/// The promotions that a list of references points to.
pub open spec fn promotions_of(s: Seq<&Promotion>) -> Seq<Promotion> {
    s.map_values(|p: &Promotion| *p)
}

/// A promotion is named by `code` when its coupon code or its identifier
/// is `code`.
pub open spec fn promo_named(p: Promotion, code: Seq<char>) -> bool {
    (p.code matches Some(c) && c@ == code) || p.id@ == code
}

/// `i` is the position of the first promotion named by `code`.
pub open spec fn is_first_promo_named(s: Seq<Promotion>, code: Seq<char>, i: int) -> bool {
    &&& 0 <= i < s.len()
    &&& promo_named(s[i], code)
    &&& forall|j: int| 0 <= j < i ==> !promo_named(s[j], code)
}

/// The position of the first promotion named by `code`, if any.
pub open spec fn first_promo_named(s: Seq<Promotion>, code: Seq<char>) -> Option<int> {
    if exists|i: int| is_first_promo_named(s, code, i) {
        Some(choose|i: int| is_first_promo_named(s, code, i))
    } else {
        None
    }
}

/// `after` is `before` with the rule at `i` switched on (`active`) or off,
/// stamped with an update time of its own; nothing else changes.
pub open spec fn rule_switched(before: Seq<PricingRule>, after: Seq<PricingRule>, i: int, active: bool) -> bool {
    after == before.update(i, (PricingRule { active: active, updated_at: after[i].updated_at, ..before[i] }))
}

/// The quotes `after` are `before` with the quote at `i` approved: its
/// status reads `approved`, and nothing else of it and no other quote
/// changes.
pub open spec fn approved_at(before: Seq<Quote>, after: Seq<Quote>, i: int) -> bool {
    &&& after.len() == before.len()
    &&& after[i].status@ == "approved"@
    &&& after[i] == (Quote { status: after[i].status, ..before[i] })
    &&& forall|j: int| 0 <= j < before.len() && j != i ==> after[j] == before[j]
}

/// The quantity of a quote item: as given, or one (`1.0`) when absent.
pub open spec fn item_quantity(q: Option<Amount>) -> Amount {
    match q {
        Some(a) => a,
        None => Amount { bits: 0x3FF0_0000_0000_0000 },
    }
}

/// The products and quantities a quote is made of: the items whose SKU is
/// in the catalog, in order, each with its catalog product and its
/// quantity; items with an unknown SKU are left out.
pub open spec fn quote_selection(
    catalog: Map<Seq<char>, Product>,
    items: Seq<(String, Option<Amount>)>,
) -> Seq<(Product, Amount)>
    decreases items.len(),
{
    if items.len() == 0 {
        Seq::empty()
    } else {
        let rest = quote_selection(catalog, items.drop_last());
        let sku = items.last().0@;
        if catalog.contains_key(sku) {
            rest.push((catalog[sku], item_quantity(items.last().1)))
        } else {
            rest
        }
    }
}

/// What pricing a request takes from the store: the variables with the
/// customer's segment resolved, that segment's discount, the active rules
/// in priority order, the active promotions in order of creation, and the
/// tax rate of the country (in hundredths of a percent).
pub struct PricingInputs<'a> {
    pub vars: CelVars,
    pub segment_discount: Amount,
    pub rules: Vec<&'a PricingRule>,
    pub promotions: Vec<&'a Promotion>,
    pub tax_rate: u32,
}

/// The variables for pricing once the customer's segment (if any) is known.
pub open spec fn vars_with_segment(segs: Seq<Segment>, vars: CelVars) -> CelVars {
    match resolved_segment(segs, vars) {
        Some(i) => CelVars { segment_id: segs[i].id, segment: segs[i].name, ..vars },
        None => vars,
    }
}

/// The discount of the customer's segment; zero when there is none.
pub open spec fn segment_discount_of(segs: Seq<Segment>, vars: CelVars) -> Amount {
    match resolved_segment(segs, vars) {
        Some(i) => segs[i].discount_pct,
        None => Amount { bits: 0 },
    }
}

/// The products and quantities a list of selected items refers to.
pub open spec fn selected_of(s: Seq<(&Product, Amount)>) -> Seq<(Product, Amount)> {
    s.map_values(|x: (&Product, Amount)| (*x.0, x.1))
}

/// A promotion is in force at `now` (seconds since the Unix epoch): it is
/// active, its use limit (if it has one) is not reached, and `now` lies in
/// its validity window, bounds included; a bound that is not an RFC 3339
/// date does not restrict.
pub open spec fn promo_in_force(p: Promotion, now: i64) -> bool {
    &&& p.active
    &&& (p.max_uses matches Some(m) ==> p.uses < m)
    &&& (rfc3339_seconds(p.valid_from@) matches Some(f) ==> f <= now)
    &&& (rfc3339_seconds(p.valid_until@) matches Some(u) ==> now <= u)
}

/// Whether a promotion is in force at `now`.
pub fn in_force(p: &Promotion, now: i64) -> (r: bool)
    ensures
        r == promo_in_force(*p, now),
{
    if !p.active {
        return false;
    }
    if let Some(m) = p.max_uses {
        if p.uses >= m {
            return false;
        }
    }
    if let Some(f) = parse_rfc3339_seconds(p.valid_from.as_str()) {
        if now < f {
            return false;
        }
    }
    if let Some(u) = parse_rfc3339_seconds(p.valid_until.as_str()) {
        if u < now {
            return false;
        }
    }
    true
}

/// An audit entry passes the optional entity type and entity id filters.
pub open spec fn audit_matches(
    e: AuditEntry,
    entity_type: Option<Seq<char>>,
    entity_id: Option<Seq<char>>,
) -> bool {
    &&& (entity_type matches Some(t) ==> e.entity_type@ == t)
    &&& (entity_id matches Some(d) ==> e.entity_id@ == d)
}

/// The entries that pass the filters, newest first, at most `limit` of them.
pub open spec fn audit_query(
    audit: Seq<AuditEntry>,
    entity_type: Option<Seq<char>>,
    entity_id: Option<Seq<char>>,
    limit: nat,
) -> Seq<AuditEntry> {
    let m = audit.reverse().filter(|e: AuditEntry| audit_matches(e, entity_type, entity_id));
    if m.len() <= limit {
        m
    } else {
        m.take(limit as int)
    }
}

/// The audit entries that a list of references points to.
pub open spec fn entries_of(s: Seq<&AuditEntry>) -> Seq<AuditEntry> {
    s.map_values(|e: &AuditEntry| *e)
}


/// The text of an optional string, or `default` when it is absent.
pub open spec fn text_or(o: Option<String>, default: Seq<char>) -> Seq<char> {
    match o {
        Some(s) => s@,
        None => default,
    }
}

/// `p` is the product that `catalog_upsert` makes of `input`.
pub open spec fn product_from_input(p: Product, input: ProductInput) -> bool {
    &&& p.sku == input.sku
    &&& p.name == input.name
    &&& p.category == input.category
    &&& p.list_price == input.list_price
    &&& p.cost == input.cost
    &&& p.currency@ == text_or(input.currency, "USD"@)
    &&& p.tags@ == (match input.tags {
        Some(t) => t@,
        None => Seq::<String>::empty(),
    })
    &&& p.attributes@.len() == 0
}

/// `r` is the rule that `rules_create` makes of `input` (before it is given
/// an identifier and timestamps).
pub open spec fn rule_from_input(r: PricingRule, input: RuleInput) -> bool {
    &&& r.name == input.name
    &&& r.description@ == text_or(input.description, Seq::<char>::empty())
    &&& r.priority == (match input.priority {
        Some(p) => p,
        None => 100,
    })
    &&& r.condition == input.condition
    &&& r.actions@ == kept_actions(input.actions@)
    &&& r.segments == input.segments
    &&& r.channels == input.channels
    &&& r.tags@ == (match input.tags {
        Some(t) => t@,
        None => Seq::<String>::empty(),
    })
    &&& r.active == (match input.active {
        Some(a) => a,
        None => false,
    })
    &&& is_utc_clock_text(r.created_at@)
    &&& is_utc_clock_text(r.updated_at@)
}

/// `seg` is the segment that `segments_create` makes of `input` (before it
/// is given an identifier).
pub open spec fn segment_from_input(seg: Segment, input: SegmentInput) -> bool {
    &&& seg.name == input.name
    &&& seg.condition == input.condition
    &&& seg.priority == (match input.priority {
        Some(p) => p,
        None => 100,
    })
    &&& seg.discount_pct == (match input.discount_pct {
        Some(d) => d,
        None => Amount { bits: 0 },
    })
    &&& seg.metadata@.len() == 0
}

/// `p` is the promotion that `promotions_create` makes of `input` (before it
/// is given an identifier); its start time is the given one or, when none
/// is given, some time read from the clock.
pub open spec fn promotion_from_input(p: Promotion, input: PromoInput) -> bool {
    &&& p.name == input.name
    &&& p.promo_type == input.promo_type
    &&& p.code == input.code
    &&& p.discount_type == input.discount_type
    &&& p.discount_value == input.discount_value
    &&& p.condition@ == text_or(input.condition, Seq::<char>::empty())
    &&& p.max_uses == input.max_uses
    &&& p.uses == 0
    &&& (match input.valid_from {
        Some(v) => p.valid_from == v,
        None => is_utc_clock_text(p.valid_from@),
    })
    &&& p.valid_until@ == text_or(input.valid_until, "2099-12-31T23:59:59Z"@)
    &&& p.stackable == (match input.stackable {
        Some(b) => b,
        None => false,
    })
    &&& p.active
}

/// The condition of a promotion input, when it is not empty.
pub open spec fn promo_condition(input: PromoInput) -> Seq<char> {
    text_or(input.condition, Seq::<char>::empty())
}

/// No two quotes share an identifier.
pub open spec fn distinct_quote_ids(s: Seq<Quote>) -> bool {
    forall|i: int, j: int| 0 <= i < s.len() && 0 <= j < s.len() && i != j ==> s[i].id@ != s[j].id@
}

/// Some quote has identifier `id`.
pub open spec fn has_quote(s: Seq<Quote>, id: Seq<char>) -> bool {
    exists|i: int| 0 <= i < s.len() && s[i].id@ == id
}

/// The position of the quote with identifier `id` (when there is one).
pub open spec fn quote_index(s: Seq<Quote>, id: Seq<char>) -> int {
    choose|i: int| 0 <= i < s.len() && s[i].id@ == id
}

/// The quotes as a map from identifier to quote.
pub open spec fn quote_book_of(s: Seq<Quote>) -> Map<Seq<char>, Quote> {
    Map::new(|id: Seq<char>| has_quote(s, id), |id: Seq<char>| s[quote_index(s, id)])
}

/// The quotes after `q` is stored: it replaces the quote with the same
/// identifier in place, or is appended.
pub open spec fn put_quote_spec(s: Seq<Quote>, q: Quote) -> Seq<Quote> {
    if has_quote(s, q.id@) {
        s.update(quote_index(s, q.id@), q)
    } else {
        s.push(q)
    }
}

/// Putting a product into a catalog with distinct SKUs keeps the SKUs
/// distinct, and the catalog map afterwards is the old one with the SKU
/// bound to the new product.
pub proof fn lemma_put_product(s: Seq<Product>, p: Product)
    requires
        distinct_skus(s),
    ensures
        distinct_skus(put_product_spec(s, p)),
        catalog_of(put_product_spec(s, p)) == catalog_of(s).insert(p.sku@, p),
{
    let t = put_product_spec(s, p);
    assert(distinct_skus(t));
    assert forall|k: Seq<char>| #[trigger] has_sku(t, k) == (has_sku(s, k) || k == p.sku@) by {
        if has_sku(s, k) && k != p.sku@ {
            let i = choose|i: int| 0 <= i < s.len() && s[i].sku@ == k;
            assert(t[i].sku@ == k);
        }
        if k == p.sku@ {
            if has_sku(s, p.sku@) {
                assert(t[sku_index(s, p.sku@)].sku@ == k);
            } else {
                assert(t[s.len() as int].sku@ == k);
            }
        }
    }
    assert forall|k: Seq<char>| has_sku(t, k) implies #[trigger] t[sku_index(t, k)] == (if k == p.sku@ {
        p
    } else {
        s[sku_index(s, k)]
    }) by {
        let i = sku_index(t, k);
        if k != p.sku@ {
            let j = sku_index(s, k);
            assert(t[j].sku@ == k);
        } else if has_sku(s, p.sku@) {
            assert(t[sku_index(s, p.sku@)].sku@ == k);
        } else {
            assert(t[s.len() as int].sku@ == k);
        }
    }
    assert(catalog_of(t) =~= catalog_of(s).insert(p.sku@, p));
}

/// Storing a quote among quotes with distinct identifiers keeps them
/// distinct, and the quote map afterwards is the old one with the
/// identifier bound to the new quote.
pub proof fn lemma_put_quote(s: Seq<Quote>, q: Quote)
    requires
        distinct_quote_ids(s),
    ensures
        distinct_quote_ids(put_quote_spec(s, q)),
        quote_book_of(put_quote_spec(s, q)) == quote_book_of(s).insert(q.id@, q),
{
    let t = put_quote_spec(s, q);
    assert(distinct_quote_ids(t));
    assert forall|k: Seq<char>| #[trigger] has_quote(t, k) == (has_quote(s, k) || k == q.id@) by {
        if has_quote(s, k) && k != q.id@ {
            let i = choose|i: int| 0 <= i < s.len() && s[i].id@ == k;
            assert(t[i].id@ == k);
        }
        if k == q.id@ {
            if has_quote(s, q.id@) {
                assert(t[quote_index(s, q.id@)].id@ == k);
            } else {
                assert(t[s.len() as int].id@ == k);
            }
        }
    }
    assert forall|k: Seq<char>| has_quote(t, k) implies #[trigger] t[quote_index(t, k)] == (if k == q.id@ {
        q
    } else {
        s[quote_index(s, k)]
    }) by {
        if k != q.id@ {
            let j = quote_index(s, k);
            assert(t[j].id@ == k);
        } else if has_quote(s, q.id@) {
            assert(t[quote_index(s, q.id@)].id@ == k);
        } else {
            assert(t[s.len() as int].id@ == k);
        }
    }
    assert(quote_book_of(t) =~= quote_book_of(s).insert(q.id@, q));
}

proof fn lemma_prefixed(prefix: Seq<char>, suffix: Seq<char>)
    requires
        is_uid(suffix),
    ensures
        has_prefixed_uid(prefix + suffix, prefix),
{
    assert((prefix + suffix).take(prefix.len() as int) =~= prefix);
    assert((prefix + suffix).skip(prefix.len() as int) =~= suffix);
}

/// `prefix` followed by a fresh identifier suffix.
fn fresh_id(prefix: &str) -> (r: String)
    ensures
        has_prefixed_uid(r@, prefix@),
{
    let suffix = uid();
    proof {
        lemma_prefixed(prefix@, suffix@);
    }
    concat_text(prefix, suffix.as_str())
}

/// The JSON object `{key: value}`.
fn one_field(key: &str, value: &String) -> (r: JsonFields)
    ensures
        single_field(r@, key@, value@),
{
    vec![(owned(key), value.clone())]
}

/// The totals of a quote.
pub struct QuoteTotals {
    pub total_list: Amount,
    pub total_net: Amount,
    pub total_discount: Amount,
    pub total_tax: Amount,
}

/// `q` is the draft quote made of these parts (see `draft_quote`).
pub open spec fn is_draft_quote(
    q: Quote,
    customer_id: String,
    lines: Vec<QuoteLine>,
    currency: Option<String>,
    totals: QuoteTotals,
    valid_until: String,
    notes: Option<String>,
) -> bool {
    &&& q.id@ == Seq::<char>::empty()
    &&& q.customer_id == customer_id
    &&& q.status@ == "draft"@
    &&& q.lines == lines
    &&& q.currency@ == text_or(currency, "USD"@)
    &&& q.total_list == totals.total_list
    &&& q.total_net == totals.total_net
    &&& q.total_discount == totals.total_discount
    &&& q.total_tax == totals.total_tax
    &&& q.valid_until == valid_until
    &&& q.notes@ == text_or(notes, Seq::<char>::empty())
    &&& q.created_at@ == Seq::<char>::empty()
}

/// A new quote in status `draft` for `customer_id` with the given lines and
/// totals; the currency is `USD` and the notes empty when absent. Its
/// identifier and creation time are left empty for `create_quote` to set.
pub fn draft_quote(
    customer_id: String,
    lines: Vec<QuoteLine>,
    currency: Option<String>,
    totals: QuoteTotals,
    valid_until: String,
    notes: Option<String>,
) -> (q: Quote)
    ensures
        is_draft_quote(q, customer_id, lines, currency, totals, valid_until, notes),
{
    Quote {
        id: String::new(),
        customer_id,
        status: owned("draft"),
        lines,
        currency: match currency {
            Some(c) => c,
            None => owned("USD"),
        },
        total_list: totals.total_list,
        total_net: totals.total_net,
        total_discount: totals.total_discount,
        total_tax: totals.total_tax,
        valid_until,
        notes: match notes {
            Some(n) => n,
            None => String::new(),
        },
        created_at: String::new(),
    }
}

/// The pricing engine's data.
pub struct Store {
    products: Vec<Product>,
    rules: Vec<PricingRule>,
    segments: Vec<Segment>,
    promotions: Vec<Promotion>,
    quotes: Vec<Quote>,
    audit: Vec<AuditEntry>,
}

impl Store {
    /// The products, in catalog order.
    pub closed spec fn product_seq(self) -> Seq<Product> {
        self.products@
    }

    /// The pricing rules, in order of creation.
    pub closed spec fn rule_seq(self) -> Seq<PricingRule> {
        self.rules@
    }

    /// The customer segments, in order of creation.
    pub closed spec fn segment_seq(self) -> Seq<Segment> {
        self.segments@
    }

    /// The promotions, in order of creation.
    pub closed spec fn promotion_seq(self) -> Seq<Promotion> {
        self.promotions@
    }

    /// The quotes, in order of creation.
    pub closed spec fn quote_seq(self) -> Seq<Quote> {
        self.quotes@
    }

    /// The audit trail, oldest entry first.
    pub closed spec fn audit_seq(self) -> Seq<AuditEntry> {
        self.audit@
    }

    /// The catalog as a map from SKU to product.
    pub open spec fn catalog(self) -> Map<Seq<char>, Product> {
        catalog_of(self.product_seq())
    }

    /// The quotes as a map from identifier to quote.
    pub open spec fn quote_book(self) -> Map<Seq<char>, Quote> {
        quote_book_of(self.quote_seq())
    }

    /// No two products share a SKU and no two quotes share an identifier.
    pub open spec fn keys_unique(self) -> bool {
        distinct_skus(self.product_seq()) && distinct_quote_ids(self.quote_seq())
    }

    /// An empty store.
    pub fn new() -> (r: Store)
        ensures
            r.product_seq() == Seq::<Product>::empty(),
            r.rule_seq() == Seq::<PricingRule>::empty(),
            r.segment_seq() == Seq::<Segment>::empty(),
            r.promotion_seq() == Seq::<Promotion>::empty(),
            r.quote_seq() == Seq::<Quote>::empty(),
            r.audit_seq() == Seq::<AuditEntry>::empty(),
            r.keys_unique(),
    {
        Store {
            products: Vec::new(),
            rules: Vec::new(),
            segments: Vec::new(),
            promotions: Vec::new(),
            quotes: Vec::new(),
            audit: Vec::new(),
        }
    }

    /// The products, in catalog order.
    pub fn products(&self) -> (r: &Vec<Product>)
        ensures
            r@ == self.product_seq(),
    {
        &self.products
    }

    /// The pricing rules, in order of creation.
    pub fn rules(&self) -> (r: &Vec<PricingRule>)
        ensures
            r@ == self.rule_seq(),
    {
        &self.rules
    }

    /// The customer segments, in order of creation.
    pub fn segments(&self) -> (r: &Vec<Segment>)
        ensures
            r@ == self.segment_seq(),
    {
        &self.segments
    }

    /// The promotions, in order of creation.
    pub fn promotions(&self) -> (r: &Vec<Promotion>)
        ensures
            r@ == self.promotion_seq(),
    {
        &self.promotions
    }

    /// The audit trail, oldest entry first.
    pub fn audit(&self) -> (r: &Vec<AuditEntry>)
        ensures
            r@ == self.audit_seq(),
    {
        &self.audit
    }

    /// The position of the product with SKU `sku`, if any.
    fn find_product(&self, sku: &String) -> (r: Option<usize>)
        requires
            self.keys_unique(),
        ensures
            r is Some <==> has_sku(self.product_seq(), sku@),
            r matches Some(i) ==> i == sku_index(self.product_seq(), sku@) && i < self.product_seq().len(),
    {
        let mut i: usize = 0;
        while i < self.products.len()
            invariant
                i <= self.products@.len(),
                distinct_skus(self.products@),
                forall|k: int| 0 <= k < i ==> self.products@[k].sku@ != sku@,
            decreases self.products@.len() - i,
        {
            if self.products[i].sku == *sku {
                assert(self.products@[i as int].sku@ == sku@);
                let ghost j = sku_index(self.products@, sku@);
                assert(j == i);
                return Some(i);
            }
            i = i + 1;
        }
        None
    }

    /// Puts `p` into the catalog: it replaces the product with the same SKU
    /// in place, or is appended. Nothing else changes (no audit entry).
    pub fn put_product(&mut self, p: Product)
        requires
            old(self).keys_unique(),
        ensures
            final(self).keys_unique(),
            final(self).product_seq() == put_product_spec(old(self).product_seq(), p),
            final(self).catalog() == old(self).catalog().insert(p.sku@, p),
            final(self).rule_seq() == old(self).rule_seq(),
            final(self).segment_seq() == old(self).segment_seq(),
            final(self).promotion_seq() == old(self).promotion_seq(),
            final(self).quote_seq() == old(self).quote_seq(),
            final(self).audit_seq() == old(self).audit_seq(),
    {
        proof {
            lemma_put_product(self.products@, p);
        }
        match self.find_product(&p.sku) {
            Some(i) => {
                self.products.set(i, p);
            },
            None => {
                self.products.push(p);
            },
        }
    }

    /// Adds or updates a product (keyed by SKU) and records `upserted` in the
    /// audit trail, with the product name as detail.
    pub fn upsert_product(&mut self, p: Product)
        requires
            old(self).keys_unique(),
        ensures
            final(self).keys_unique(),
            final(self).product_seq() == put_product_spec(old(self).product_seq(), p),
            final(self).catalog() == old(self).catalog().insert(p.sku@, p),
            appends_one(old(self).audit_seq(), final(self).audit_seq()),
            audit_entry_for(final(self).audit_seq().last(), "product"@, p.sku@, "upserted"@, "system"@),
            single_field(final(self).audit_seq().last().details@, "name"@, p.name@),
            final(self).rule_seq() == old(self).rule_seq(),
            final(self).segment_seq() == old(self).segment_seq(),
            final(self).promotion_seq() == old(self).promotion_seq(),
            final(self).quote_seq() == old(self).quote_seq(),
    {
        let details = one_field("name", &p.name);
        self.log_audit("product", p.sku.as_str(), "upserted", "system", details);
        self.put_product(p);
    }

    /// The product with SKU `sku`, if the catalog holds one.
    pub fn get_product(&self, sku: &str) -> (r: Option<&Product>)
        requires
            self.keys_unique(),
        ensures
            r is Some <==> self.catalog().contains_key(sku@),
            r matches Some(p) ==> *p == self.catalog()[sku@],
    {
        let key = owned(sku);
        match self.find_product(&key) {
            Some(i) => Some(&self.products[i]),
            None => None,
        }
    }

    /// `r` holds what pricing a request with variables `vars` in `country`
    /// takes from this store.
    pub open spec fn are_pricing_inputs(self, r: PricingInputs, vars: CelVars, country: Seq<char>) -> bool {
        &&& r.vars == vars_with_segment(self.segment_seq(), vars)
        &&& r.segment_discount == segment_discount_of(self.segment_seq(), vars)
        &&& rules_of(r.rules@) == sort_by_priority(active_rules_of(self.rule_seq()))
        &&& promotions_of(r.promotions@) == active_promotions_of(self.promotion_seq())
        &&& r.tax_rate == tax_rate_spec(upper_case_text(country), None)
    }

    /// What pricing a request with variables `vars` in `country` takes from
    /// the store (see `PricingInputs`). It only reads the store, so pricing
    /// changes nothing, and the same store and request give the same inputs.
    pub fn pricing_inputs(&self, vars: CelVars, country: &str) -> (r: PricingInputs)
        requires
            self.keys_unique(),
        ensures
            self.are_pricing_inputs(r, vars, country@),
    {
        let (vars, segment_discount) = match resolve_segment(self.segments.as_slice(), &vars) {
            Some(i) => {
                let seg = &self.segments[i];
                let d = seg.discount_pct;
                (vars.with_segment(seg.id.clone(), seg.name.clone()), d)
            },
            None => (vars, Amount::zero()),
        };
        let rules = self.get_active_rules();
        let promotions = self.get_active_promotions();
        let tax_rate = get_tax_rate(country, None);
        PricingInputs { vars, segment_discount, rules, promotions, tax_rate }
    }

    /// The products and quantities a quote for `items` (SKU and optional
    /// quantity each) is made of: see `quote_selection`.
    pub fn select_quote_items(&self, items: &Vec<(String, Option<Amount>)>) -> (r: Vec<(&Product, Amount)>)
        requires
            self.keys_unique(),
        ensures
            selected_of(r@) == quote_selection(self.catalog(), items@),
    {
        let mut out: Vec<(&Product, Amount)> = Vec::new();
        let mut i: usize = 0;
        while i < items.len()
            invariant
                self.keys_unique(),
                i <= items@.len(),
                selected_of(out@) == quote_selection(self.catalog(), items@.take(i as int)),
            decreases items@.len() - i,
        {
            proof {
                assert(items@.take(i + 1).drop_last() =~= items@.take(i as int));
            }
            let sku = items[i].0.as_str();
            match self.get_product(sku) {
                Some(p) => {
                    let q = match items[i].1 {
                        Some(a) => a,
                        None => Amount { bits: 0x3FF0_0000_0000_0000 },
                    };
                    out.push((p, q));
                    assert(selected_of(out@) =~= quote_selection(self.catalog(), items@.take(i as int)).push((*p, q)));
                },
                None => {},
            }
            i = i + 1;
        }
        proof {
            assert(items@.take(items@.len() as int) =~= items@);
        }
        out
    }

    /// Appends `r` to the rules under identifier `id` with the given creation
    /// and update times. Nothing else changes (no audit entry).
    pub fn insert_rule(&mut self, r: PricingRule, id: String, created_at: String, updated_at: String)
        requires
            old(self).keys_unique(),
        ensures
            final(self).keys_unique(),
            final(self).rule_seq() == old(self).rule_seq().push(
                (PricingRule { id: id, created_at: created_at, updated_at: updated_at, ..r }),
            ),
            final(self).product_seq() == old(self).product_seq(),
            final(self).segment_seq() == old(self).segment_seq(),
            final(self).promotion_seq() == old(self).promotion_seq(),
            final(self).quote_seq() == old(self).quote_seq(),
            final(self).audit_seq() == old(self).audit_seq(),
    {
        let mut r = r;
        r.id = id;
        r.created_at = created_at;
        r.updated_at = updated_at;
        self.rules.push(r);
    }

    /// Adds a rule under a fresh `rule_` identifier, stamped with the current
    /// time, records `created` in the audit trail (with the rule name as
    /// detail) and returns the identifier.
    pub fn add_rule(&mut self, r: PricingRule) -> (id: String)
        requires
            old(self).keys_unique(),
        ensures
            final(self).keys_unique(),
            has_prefixed_uid(id@, "rule_"@),
            final(self).rule_seq().len() == old(self).rule_seq().len() + 1,
            final(self).rule_seq().drop_last() == old(self).rule_seq(),
            final(self).rule_seq().last() == (PricingRule {
                id: final(self).rule_seq().last().id,
                created_at: final(self).rule_seq().last().created_at,
                updated_at: final(self).rule_seq().last().updated_at,
                ..r
            }),
            final(self).rule_seq().last().id@ == id@,
            is_utc_clock_text(final(self).rule_seq().last().created_at@),
            is_utc_clock_text(final(self).rule_seq().last().updated_at@),
            appends_one(old(self).audit_seq(), final(self).audit_seq()),
            audit_entry_for(final(self).audit_seq().last(), "rule"@, id@, "created"@, "system"@),
            single_field(final(self).audit_seq().last().details@, "name"@, r.name@),
            final(self).product_seq() == old(self).product_seq(),
            final(self).segment_seq() == old(self).segment_seq(),
            final(self).promotion_seq() == old(self).promotion_seq(),
            final(self).quote_seq() == old(self).quote_seq(),
    {
        let id = fresh_id("rule_");
        let created_at = now();
        let updated_at = now();
        let details = one_field("name", &r.name);
        self.log_audit("rule", id.as_str(), "created", "system", details);
        self.insert_rule(r, id.clone(), created_at, updated_at);
        assert(self.rules@.drop_last() =~= old(self).rules@);
        id
    }

    /// The active rules, ordered by priority (lower first); rules of equal
    /// priority keep their order of creation (`with_priority`).
    pub fn get_active_rules(&self) -> (r: Vec<&PricingRule>)
        ensures
            rules_of(r@) == sort_by_priority(active_rules_of(self.rule_seq())),
            priorities_ascending(rules_of(r@)),
            rules_of(r@).to_multiset() == active_rules_of(self.rule_seq()).to_multiset(),
            forall|p: i32| #[trigger] with_priority(rules_of(r@), p) == with_priority(active_rules_of(self.rule_seq()), p),
    {
        let mut out: Vec<&PricingRule> = Vec::new();
        let mut i: usize = 0;
        while i < self.rules.len()
            invariant
                i <= self.rules@.len(),
                rules_of(out@) == sort_by_priority(active_rules_of(self.rules@.take(i as int))),
            decreases self.rules@.len() - i,
        {
            let rule = &self.rules[i];
            proof {
                let t = self.rules@.take(i as int);
                assert(self.rules@.take(i + 1) =~= t.push(*rule));
                t.lemma_filter_push(*rule, |r: PricingRule| r.active);
                let f = active_rules_of(t);
                assert(f.push(*rule).drop_last() =~= f);
            }
            if rule.active {
                insert_ranked(&mut out, rule);
            }
            i = i + 1;
        }
        proof {
            assert(self.rules@.take(self.rules@.len() as int) =~= self.rules@);
            lemma_sort_by_priority(active_rules_of(self.rules@));
            assert forall|p: i32| #[trigger] with_priority(rules_of(out@), p) == with_priority(active_rules_of(self.rules@), p) by {
                lemma_sort_keeps_ties(active_rules_of(self.rules@), p);
            }
        }
        out
    }

    /// Sets the active flag and the update time of the first rule with
    /// identifier `rule_id`; `false` (and no change) when there is none.
    /// Nothing else changes (no audit entry).
    pub fn mark_rule(&mut self, rule_id: &str, active: bool, timestamp: String) -> (found: bool)
        requires
            old(self).keys_unique(),
        ensures
            final(self).keys_unique(),
            found == first_rule_with_id(old(self).rule_seq(), rule_id@) is Some,
            match first_rule_with_id(old(self).rule_seq(), rule_id@) {
                Some(i) => final(self).rule_seq() == old(self).rule_seq().update(
                    i,
                    (PricingRule { active: active, updated_at: timestamp, ..old(self).rule_seq()[i] }),
                ),
                None => final(self).rule_seq() == old(self).rule_seq(),
            },
            final(self).product_seq() == old(self).product_seq(),
            final(self).segment_seq() == old(self).segment_seq(),
            final(self).promotion_seq() == old(self).promotion_seq(),
            final(self).quote_seq() == old(self).quote_seq(),
            final(self).audit_seq() == old(self).audit_seq(),
    {
        let key = owned(rule_id);
        let mut i: usize = 0;
        while i < self.rules.len()
            invariant
                i <= self.rules@.len(),
                *self == *old(self),
                old(self).keys_unique(),
                forall|j: int| 0 <= j < i ==> self.rules@[j].id@ != rule_id@,
                key@ == rule_id@,
            decreases self.rules@.len() - i,
        {
            if self.rules[i].id == key {
                proof {
                    assert(is_first_rule_with_id(self.rules@, rule_id@, i as int));
                    let c = choose|c: int| is_first_rule_with_id(self.rules@, rule_id@, c);
                    assert(c == i) by {
                        if c < i {
                        } else if c > i {
                        }
                    }
                }
                let mut rule = self.rules.remove(i);
                rule.active = active;
                rule.updated_at = timestamp;
                self.rules.insert(i, rule);
                assert(self.rules@ =~= old(self).rules@.update(i as int, rule));
                return true;
            }
            i = i + 1;
        }
        proof {
            assert forall|c: int| !is_first_rule_with_id(self.rules@, rule_id@, c) by {}
        }
        false
    }

    /// Activates (`active`) or deactivates the first rule with identifier
    /// `rule_id`, stamping it with the current time, and records `activated`
    /// or `deactivated` in the audit trail; `false`, with nothing changed,
    /// when there is no such rule.
    pub fn set_rule_active(&mut self, rule_id: &str, active: bool) -> (found: bool)
        requires
            old(self).keys_unique(),
        ensures
            final(self).keys_unique(),
            found == first_rule_with_id(old(self).rule_seq(), rule_id@) is Some,
            match first_rule_with_id(old(self).rule_seq(), rule_id@) {
                Some(i) => {
                    &&& rule_switched(old(self).rule_seq(), final(self).rule_seq(), i, active)
                    &&& is_utc_clock_text(final(self).rule_seq()[i].updated_at@)
                    &&& appends_one(old(self).audit_seq(), final(self).audit_seq())
                    &&& audit_entry_for(
                        final(self).audit_seq().last(),
                        "rule"@,
                        rule_id@,
                        if active { "activated"@ } else { "deactivated"@ },
                        "system"@,
                    )
                    &&& final(self).audit_seq().last().details@.len() == 0
                },
                None => {
                    &&& final(self).rule_seq() == old(self).rule_seq()
                    &&& final(self).audit_seq() == old(self).audit_seq()
                },
            },
            final(self).product_seq() == old(self).product_seq(),
            final(self).segment_seq() == old(self).segment_seq(),
            final(self).promotion_seq() == old(self).promotion_seq(),
            final(self).quote_seq() == old(self).quote_seq(),
    {
        let timestamp = now();
        if self.mark_rule(rule_id, active, timestamp) {
            let action = if active {
                "activated"
            } else {
                "deactivated"
            };
            self.log_audit("rule", rule_id, action, "system", Vec::new());
            true
        } else {
            false
        }
    }

    /// Appends `seg` to the segments under identifier `id`. Nothing else
    /// changes (no audit entry).
    pub fn insert_segment(&mut self, seg: Segment, id: String)
        requires
            old(self).keys_unique(),
        ensures
            final(self).keys_unique(),
            final(self).segment_seq() == old(self).segment_seq().push((Segment { id: id, ..seg })),
            final(self).product_seq() == old(self).product_seq(),
            final(self).rule_seq() == old(self).rule_seq(),
            final(self).promotion_seq() == old(self).promotion_seq(),
            final(self).quote_seq() == old(self).quote_seq(),
            final(self).audit_seq() == old(self).audit_seq(),
    {
        let mut seg = seg;
        seg.id = id;
        self.segments.push(seg);
    }

    /// Adds a segment under a fresh `seg_` identifier, records `created` in
    /// the audit trail (with the segment name as detail) and returns the
    /// identifier.
    pub fn add_segment(&mut self, seg: Segment) -> (id: String)
        requires
            old(self).keys_unique(),
        ensures
            final(self).keys_unique(),
            has_prefixed_uid(id@, "seg_"@),
            final(self).segment_seq() == old(self).segment_seq().push(
                (Segment { id: final(self).segment_seq().last().id, ..seg }),
            ),
            final(self).segment_seq().last().id@ == id@,
            appends_one(old(self).audit_seq(), final(self).audit_seq()),
            audit_entry_for(final(self).audit_seq().last(), "segment"@, id@, "created"@, "system"@),
            single_field(final(self).audit_seq().last().details@, "name"@, seg.name@),
            final(self).product_seq() == old(self).product_seq(),
            final(self).rule_seq() == old(self).rule_seq(),
            final(self).promotion_seq() == old(self).promotion_seq(),
            final(self).quote_seq() == old(self).quote_seq(),
    {
        let id = fresh_id("seg_");
        let details = one_field("name", &seg.name);
        self.log_audit("segment", id.as_str(), "created", "system", details);
        self.insert_segment(seg, id.clone());
        id
    }

    /// Appends `p` to the promotions under identifier `id`. Nothing else
    /// changes (no audit entry).
    pub fn insert_promotion(&mut self, p: Promotion, id: String)
        requires
            old(self).keys_unique(),
        ensures
            final(self).keys_unique(),
            final(self).promotion_seq() == old(self).promotion_seq().push((Promotion { id: id, ..p })),
            final(self).product_seq() == old(self).product_seq(),
            final(self).rule_seq() == old(self).rule_seq(),
            final(self).segment_seq() == old(self).segment_seq(),
            final(self).quote_seq() == old(self).quote_seq(),
            final(self).audit_seq() == old(self).audit_seq(),
    {
        let mut p = p;
        p.id = id;
        self.promotions.push(p);
    }

    /// Adds a promotion under a fresh `promo_` identifier, records `created`
    /// in the audit trail (with the promotion name as detail) and returns
    /// the identifier.
    pub fn add_promotion(&mut self, p: Promotion) -> (id: String)
        requires
            old(self).keys_unique(),
        ensures
            final(self).keys_unique(),
            has_prefixed_uid(id@, "promo_"@),
            final(self).promotion_seq() == old(self).promotion_seq().push(
                (Promotion { id: final(self).promotion_seq().last().id, ..p }),
            ),
            final(self).promotion_seq().last().id@ == id@,
            appends_one(old(self).audit_seq(), final(self).audit_seq()),
            audit_entry_for(final(self).audit_seq().last(), "promotion"@, id@, "created"@, "system"@),
            single_field(final(self).audit_seq().last().details@, "name"@, p.name@),
            final(self).product_seq() == old(self).product_seq(),
            final(self).rule_seq() == old(self).rule_seq(),
            final(self).segment_seq() == old(self).segment_seq(),
            final(self).quote_seq() == old(self).quote_seq(),
    {
        let id = fresh_id("promo_");
        let details = one_field("name", &p.name);
        self.log_audit("promotion", id.as_str(), "created", "system", details);
        self.insert_promotion(p, id.clone());
        id
    }

    /// The active promotions, in order of creation.
    pub fn get_active_promotions(&self) -> (r: Vec<&Promotion>)
        ensures
            promotions_of(r@) == active_promotions_of(self.promotion_seq()),
    {
        let mut out: Vec<&Promotion> = Vec::new();
        let mut i: usize = 0;
        while i < self.promotions.len()
            invariant
                i <= self.promotions@.len(),
                promotions_of(out@) == active_promotions_of(self.promotions@.take(i as int)),
            decreases self.promotions@.len() - i,
        {
            let p = &self.promotions[i];
            proof {
                let t = self.promotions@.take(i as int);
                assert(self.promotions@.take(i + 1) =~= t.push(*p));
                t.lemma_filter_push(*p, |q: Promotion| q.active);
            }
            if p.active {
                out.push(p);
                assert(promotions_of(out@) =~= active_promotions_of(self.promotions@.take(i as int)).push(*p));
            }
            i = i + 1;
        }
        assert(self.promotions@.take(self.promotions@.len() as int) =~= self.promotions@);
        out
    }

    /// The first promotion whose coupon code or identifier is `code`, when
    /// that promotion is in force at `now`; `None` when there is no such
    /// promotion or it is not in force (inactive, used up, not yet valid or
    /// expired).
    pub fn find_promotion_in_force(&self, code: &str, now: i64) -> (r: Option<&Promotion>)
        ensures
            r is Some <==> (first_promo_named(self.promotion_seq(), code@) matches Some(i)
                && promo_in_force(self.promotion_seq()[i], now)),
            r matches Some(p) ==> *p == self.promotion_seq()[first_promo_named(
                self.promotion_seq(),
                code@,
            )->0],
    {
        let key = owned(code);
        let mut i: usize = 0;
        while i < self.promotions.len()
            invariant
                i <= self.promotions@.len(),
                key@ == code@,
                forall|j: int| 0 <= j < i ==> !promo_named(self.promotions@[j], code@),
            decreases self.promotions@.len() - i,
        {
            let p = &self.promotions[i];
            let named = match &p.code {
                Some(c) => *c == key,
                None => false,
            } || p.id == key;
            if named {
                proof {
                    assert(is_first_promo_named(self.promotions@, code@, i as int));
                    let c = choose|c: int| is_first_promo_named(self.promotions@, code@, c);
                    assert(c == i) by {
                        if c < i {
                        } else if c > i {
                        }
                    }
                }
                if in_force(p, now) {
                    return Some(p);
                } else {
                    return None;
                }
            }
            i = i + 1;
        }
        proof {
            assert forall|c: int| !is_first_promo_named(self.promotions@, code@, c) by {}
        }
        None
    }

    /// The first promotion whose coupon code or identifier is `code`, when
    /// that promotion is in force now (the clock is read once); `None` when
    /// there is no such promotion or it is not in force. Whatever the clock
    /// reads, a promotion that is inactive or used up is never returned, one
    /// that is returned is in force at some instant, and one in force at
    /// every instant is returned.
    pub fn find_active_promotion(&self, code: &str) -> (r: Option<&Promotion>)
        ensures
            r is Some ==> (first_promo_named(self.promotion_seq(), code@) matches Some(i)
                && self.promotion_seq()[i].active
                && (self.promotion_seq()[i].max_uses matches Some(m) ==> self.promotion_seq()[i].uses < m)),
            r matches Some(p) ==> *p == self.promotion_seq()[first_promo_named(
                self.promotion_seq(),
                code@,
            )->0] && exists|t: i64| promo_in_force(*p, t),
            (first_promo_named(self.promotion_seq(), code@) matches Some(i)
                && forall|t: i64| #[trigger] promo_in_force(self.promotion_seq()[i], t)) ==> r is Some,
    {
        let t = now_seconds();
        self.find_promotion_in_force(code, t)
    }

    /// The position of the quote with identifier `id`, if any.
    fn find_quote(&self, id: &String) -> (r: Option<usize>)
        requires
            self.keys_unique(),
        ensures
            r is Some <==> has_quote(self.quote_seq(), id@),
            r matches Some(i) ==> i == quote_index(self.quote_seq(), id@) && i < self.quote_seq().len(),
    {
        let mut i: usize = 0;
        while i < self.quotes.len()
            invariant
                i <= self.quotes@.len(),
                distinct_quote_ids(self.quotes@),
                forall|k: int| 0 <= k < i ==> self.quotes@[k].id@ != id@,
            decreases self.quotes@.len() - i,
        {
            if self.quotes[i].id == *id {
                assert(self.quotes@[i as int].id@ == id@);
                let ghost j = quote_index(self.quotes@, id@);
                assert(j == i);
                return Some(i);
            }
            i = i + 1;
        }
        None
    }

    /// Stores `q` under its identifier: it replaces the quote with the same
    /// identifier in place, or is appended. Nothing else changes (no audit
    /// entry).
    pub fn put_quote(&mut self, q: Quote)
        requires
            old(self).keys_unique(),
        ensures
            final(self).keys_unique(),
            final(self).quote_seq() == put_quote_spec(old(self).quote_seq(), q),
            final(self).quote_book() == old(self).quote_book().insert(q.id@, q),
            final(self).product_seq() == old(self).product_seq(),
            final(self).rule_seq() == old(self).rule_seq(),
            final(self).segment_seq() == old(self).segment_seq(),
            final(self).promotion_seq() == old(self).promotion_seq(),
            final(self).audit_seq() == old(self).audit_seq(),
    {
        proof {
            lemma_put_quote(self.quotes@, q);
        }
        match self.find_quote(&q.id) {
            Some(i) => {
                self.quotes.set(i, q);
            },
            None => {
                self.quotes.push(q);
            },
        }
    }

    /// Stores a quote under a fresh `qt_` identifier, stamped with the
    /// current time, records `created` in the audit trail (with the customer
    /// as detail) and returns the identifier.
    pub fn create_quote(&mut self, q: Quote) -> (id: String)
        requires
            old(self).keys_unique(),
        ensures
            final(self).keys_unique(),
            has_prefixed_uid(id@, "qt_"@),
            final(self).quote_book().contains_key(id@),
            final(self).quote_book() == old(self).quote_book().insert(id@, final(self).quote_book()[id@]),
            final(self).quote_book()[id@] == (Quote { id: id, created_at: final(self).quote_book()[id@].created_at, ..q }),
            is_utc_clock_text(final(self).quote_book()[id@].created_at@),
            final(self).quote_seq() == put_quote_spec(
                old(self).quote_seq(),
                (Quote { id: id, created_at: final(self).quote_book()[id@].created_at, ..q }),
            ),
            appends_one(old(self).audit_seq(), final(self).audit_seq()),
            audit_entry_for(final(self).audit_seq().last(), "quote"@, id@, "created"@, "system"@),
            single_field(final(self).audit_seq().last().details@, "customer"@, q.customer_id@),
            final(self).product_seq() == old(self).product_seq(),
            final(self).rule_seq() == old(self).rule_seq(),
            final(self).segment_seq() == old(self).segment_seq(),
            final(self).promotion_seq() == old(self).promotion_seq(),
    {
        let id = fresh_id("qt_");
        let created_at = now();
        let details = one_field("customer", &q.customer_id);
        self.log_audit("quote", id.as_str(), "created", "system", details);
        let mut q = q;
        q.id = id.clone();
        q.created_at = created_at;
        let ghost stored = q;
        self.put_quote(q);
        proof {
            lemma_put_quote(old(self).quotes@, stored);
        }
        id
    }

    /// The quote with identifier `quote_id`, if there is one.
    pub fn get_quote(&self, quote_id: &str) -> (r: Option<&Quote>)
        requires
            self.keys_unique(),
        ensures
            r is Some <==> self.quote_book().contains_key(quote_id@),
            r matches Some(q) ==> *q == self.quote_book()[quote_id@],
    {
        let key = owned(quote_id);
        match self.find_quote(&key) {
            Some(i) => Some(&self.quotes[i]),
            None => None,
        }
    }

    /// Sets the status of the quote with identifier `quote_id` to `approved`;
    /// `false` (and no change) when there is none. Nothing else changes (no
    /// audit entry).
    pub fn mark_quote_approved(&mut self, quote_id: &str) -> (found: bool)
        requires
            old(self).keys_unique(),
        ensures
            final(self).keys_unique(),
            found == has_quote(old(self).quote_seq(), quote_id@),
            found ==> {
                let i = quote_index(old(self).quote_seq(), quote_id@);
                &&& final(self).quote_seq().len() == old(self).quote_seq().len()
                &&& final(self).quote_seq()[i].status@ == "approved"@
                &&& final(self).quote_seq()[i] == (Quote {
                    status: final(self).quote_seq()[i].status,
                    ..old(self).quote_seq()[i]
                })
                &&& forall|j: int|
                    0 <= j < old(self).quote_seq().len() && j != i ==> final(self).quote_seq()[j]
                        == old(self).quote_seq()[j]
            },
            !found ==> final(self).quote_seq() == old(self).quote_seq(),
            final(self).product_seq() == old(self).product_seq(),
            final(self).rule_seq() == old(self).rule_seq(),
            final(self).segment_seq() == old(self).segment_seq(),
            final(self).promotion_seq() == old(self).promotion_seq(),
            final(self).audit_seq() == old(self).audit_seq(),
    {
        let key = owned(quote_id);
        match self.find_quote(&key) {
            Some(i) => {
                let mut q = self.quotes.remove(i);
                q.status = owned("approved");
                self.quotes.insert(i, q);
                assert(self.quotes@ =~= old(self).quotes@.update(i as int, q));
                true
            },
            None => false,
        }
    }

    /// Approves the quote with identifier `quote_id` (its status becomes
    /// `approved`) and records `approved` in the audit trail; `false`, with
    /// nothing changed, when there is no such quote.
    pub fn approve_quote(&mut self, quote_id: &str) -> (found: bool)
        requires
            old(self).keys_unique(),
        ensures
            final(self).keys_unique(),
            found == has_quote(old(self).quote_seq(), quote_id@),
            found ==> {
                let i = quote_index(old(self).quote_seq(), quote_id@);
                &&& approved_at(old(self).quote_seq(), final(self).quote_seq(), i)
                &&& appends_one(old(self).audit_seq(), final(self).audit_seq())
                &&& audit_entry_for(final(self).audit_seq().last(), "quote"@, quote_id@, "approved"@, "system"@)
                &&& final(self).audit_seq().last().details@.len() == 0
            },
            !found ==> final(self).quote_seq() == old(self).quote_seq() && final(self).audit_seq()
                == old(self).audit_seq(),
            final(self).product_seq() == old(self).product_seq(),
            final(self).rule_seq() == old(self).rule_seq(),
            final(self).segment_seq() == old(self).segment_seq(),
            final(self).promotion_seq() == old(self).promotion_seq(),
    {
        if self.mark_quote_approved(quote_id) {
            self.log_audit("quote", quote_id, "approved", "system", Vec::new());
            true
        } else {
            false
        }
    }

    /// Whether an audit entry passes the optional filters.
    fn entry_matches(e: &AuditEntry, entity_type: Option<&str>, entity_id: Option<&str>) -> (r: bool)
        ensures
            r == audit_matches(*e, opt_text(entity_type), opt_text(entity_id)),
    {
        let type_ok = match entity_type {
            Some(t) => text_eq(e.entity_type.as_str(), t),
            None => true,
        };
        let id_ok = match entity_id {
            Some(d) => text_eq(e.entity_id.as_str(), d),
            None => true,
        };
        type_ok && id_ok
    }

    /// The audit entries that pass the optional entity type and entity id
    /// filters, newest first, at most `limit` of them (50 when no limit is
    /// given).
    pub fn query_audit(&self, entity_type: Option<&str>, entity_id: Option<&str>, limit: Option<usize>) -> (r: Vec<&AuditEntry>)
        ensures
            entries_of(r@) == audit_query(
                self.audit_seq(),
                opt_text(entity_type),
                opt_text(entity_id),
                match limit {
                    Some(l) => l as nat,
                    None => 50,
                },
            ),
    {
        let lim: usize = match limit {
            Some(l) => l,
            None => 50,
        };
        let ghost pred = |e: AuditEntry| audit_matches(e, opt_text(entity_type), opt_text(entity_id));
        let mut out: Vec<&AuditEntry> = Vec::new();
        let mut i: usize = self.audit.len();
        while i > 0 && out.len() < lim
            invariant
                i <= self.audit@.len(),
                out@.len() <= lim,
                pred == (|e: AuditEntry| audit_matches(e, opt_text(entity_type), opt_text(entity_id))),
                entries_of(out@) == self.audit@.skip(i as int).reverse().filter(pred),
            decreases i,
        {
            i = i - 1;
            let e = &self.audit[i];
            proof {
                let t = self.audit@.skip(i + 1).reverse();
                assert(self.audit@.skip(i as int).reverse() =~= t.push(*e));
                t.lemma_filter_push(*e, pred);
            }
            if Self::entry_matches(e, entity_type, entity_id) {
                out.push(e);
                assert(entries_of(out@) =~= self.audit@.skip(i + 1).reverse().filter(pred).push(*e));
            }
        }
        proof {
            let head = self.audit@.skip(i as int).reverse();
            let tail = self.audit@.take(i as int).reverse();
            assert(self.audit@.reverse() =~= head + tail);
            Seq::filter_distributes_over_add(head, tail, pred);
            let m = self.audit@.reverse().filter(pred);
            assert(m == head.filter(pred) + tail.filter(pred));
            if i == 0 {
                assert(tail =~= Seq::<AuditEntry>::empty());
                assert(tail.filter(pred) =~= Seq::<AuditEntry>::empty()) by {
                    reveal(Seq::filter);
                }
                assert(m =~= head.filter(pred));
            } else {
                assert(m.take(lim as int) =~= head.filter(pred));
            }
        }
        out
    }

    /// Adds or updates the product described by `input` (currency `USD` and
    /// no tags when absent, no attributes), as `upsert_product` does.
    pub fn catalog_upsert(&mut self, input: ProductInput)
        requires
            old(self).keys_unique(),
        ensures
            final(self).keys_unique(),
            final(self).catalog() == old(self).catalog().insert(input.sku@, final(self).catalog()[input.sku@]),
            product_from_input(final(self).catalog()[input.sku@], input),
            final(self).product_seq() == put_product_spec(old(self).product_seq(), final(self).catalog()[input.sku@]),
            appends_one(old(self).audit_seq(), final(self).audit_seq()),
            audit_entry_for(final(self).audit_seq().last(), "product"@, input.sku@, "upserted"@, "system"@),
            single_field(final(self).audit_seq().last().details@, "name"@, input.name@),
            final(self).rule_seq() == old(self).rule_seq(),
            final(self).segment_seq() == old(self).segment_seq(),
            final(self).promotion_seq() == old(self).promotion_seq(),
            final(self).quote_seq() == old(self).quote_seq(),
    {
        let p = Product {
            sku: input.sku,
            name: input.name,
            category: input.category,
            list_price: input.list_price,
            cost: input.cost,
            currency: match input.currency {
                Some(c) => c,
                None => owned("USD"),
            },
            tags: match input.tags {
                Some(t) => t,
                None => Vec::new(),
            },
            attributes: Vec::new(),
        };
        let ghost stored = p;
        self.upsert_product(p);
        proof {
            lemma_put_product(old(self).products@, stored);
        }
    }

    /// Creates the rule described by `input` (see `rule_from_input` for the
    /// defaults) when its condition parses, and returns its identifier; an
    /// unparsable condition is refused with the parser report and nothing
    /// changes.
    pub fn create_rule(&mut self, input: RuleInput) -> (r: Result<String, String>)
        requires
            old(self).keys_unique(),
        ensures
            final(self).keys_unique(),
            r is Err <==> condition_error(input.condition@) is Some,
            r matches Err(m) ==> condition_error(input.condition@) == Some(m@) && *final(self) == *old(self),
            r matches Ok(id) ==> {
                &&& has_prefixed_uid(id@, "rule_"@)
                &&& final(self).rule_seq().drop_last() == old(self).rule_seq()
                &&& final(self).rule_seq().len() == old(self).rule_seq().len() + 1
                &&& final(self).rule_seq().last().id@ == id@
                &&& rule_from_input(final(self).rule_seq().last(), input)
                &&& appends_one(old(self).audit_seq(), final(self).audit_seq())
                &&& audit_entry_for(final(self).audit_seq().last(), "rule"@, id@, "created"@, "system"@)
                &&& single_field(final(self).audit_seq().last().details@, "name"@, input.name@)
                &&& final(self).product_seq() == old(self).product_seq()
                &&& final(self).segment_seq() == old(self).segment_seq()
                &&& final(self).promotion_seq() == old(self).promotion_seq()
                &&& final(self).quote_seq() == old(self).quote_seq()
            },
    {
        if let Err(e) = validate_cel(input.condition.as_str()) {
            return Err(e);
        }
        let rule = PricingRule {
            id: String::new(),
            name: input.name,
            description: match input.description {
                Some(d) => d,
                None => String::new(),
            },
            priority: match input.priority {
                Some(p) => p,
                None => 100,
            },
            condition: input.condition,
            actions: read_actions(&input.actions),
            segments: input.segments,
            channels: input.channels,
            tags: match input.tags {
                Some(t) => t,
                None => Vec::new(),
            },
            active: match input.active {
                Some(a) => a,
                None => false,
            },
            created_at: String::new(),
            updated_at: String::new(),
        };
        Ok(self.add_rule(rule))
    }

    /// Creates the segment described by `input` (priority 100 and discount
    /// 0 when absent, no metadata) when its condition parses, and returns
    /// its identifier; an unparsable condition is refused with the parser
    /// report and nothing changes.
    pub fn create_segment(&mut self, input: SegmentInput) -> (r: Result<String, String>)
        requires
            old(self).keys_unique(),
        ensures
            final(self).keys_unique(),
            r is Err <==> condition_error(input.condition@) is Some,
            r matches Err(m) ==> condition_error(input.condition@) == Some(m@) && *final(self) == *old(self),
            r matches Ok(id) ==> {
                &&& has_prefixed_uid(id@, "seg_"@)
                &&& final(self).segment_seq().drop_last() == old(self).segment_seq()
                &&& final(self).segment_seq().len() == old(self).segment_seq().len() + 1
                &&& final(self).segment_seq().last().id@ == id@
                &&& segment_from_input(final(self).segment_seq().last(), input)
                &&& appends_one(old(self).audit_seq(), final(self).audit_seq())
                &&& audit_entry_for(final(self).audit_seq().last(), "segment"@, id@, "created"@, "system"@)
                &&& single_field(final(self).audit_seq().last().details@, "name"@, input.name@)
                &&& final(self).product_seq() == old(self).product_seq()
                &&& final(self).rule_seq() == old(self).rule_seq()
                &&& final(self).promotion_seq() == old(self).promotion_seq()
                &&& final(self).quote_seq() == old(self).quote_seq()
            },
    {
        if let Err(e) = validate_cel(input.condition.as_str()) {
            return Err(e);
        }
        let seg = Segment {
            id: String::new(),
            name: input.name,
            condition: input.condition,
            priority: match input.priority {
                Some(p) => p,
                None => 100,
            },
            discount_pct: match input.discount_pct {
                Some(d) => d,
                None => Amount::zero(),
            },
            metadata: Vec::new(),
        };
        let id = self.add_segment(seg);
        assert(self.segments@.drop_last() =~= old(self).segments@);
        Ok(id)
    }

    /// Creates the promotion described by `input` (see
    /// `promotion_from_input` for the defaults; it starts active and unused)
    /// when its condition is empty or parses, and returns its identifier; an
    /// unparsable condition is refused with the parser report and nothing
    /// changes.
    pub fn create_promotion(&mut self, input: PromoInput) -> (r: Result<String, String>)
        requires
            old(self).keys_unique(),
        ensures
            final(self).keys_unique(),
            r is Err <==> (promo_condition(input).len() > 0 && condition_error(promo_condition(input)) is Some),
            r matches Err(m) ==> condition_error(promo_condition(input)) == Some(m@) && *final(self) == *old(self),
            r matches Ok(id) ==> {
                &&& has_prefixed_uid(id@, "promo_"@)
                &&& final(self).promotion_seq().drop_last() == old(self).promotion_seq()
                &&& final(self).promotion_seq().len() == old(self).promotion_seq().len() + 1
                &&& final(self).promotion_seq().last().id@ == id@
                &&& promotion_from_input(final(self).promotion_seq().last(), input)
                &&& appends_one(old(self).audit_seq(), final(self).audit_seq())
                &&& audit_entry_for(final(self).audit_seq().last(), "promotion"@, id@, "created"@, "system"@)
                &&& single_field(final(self).audit_seq().last().details@, "name"@, input.name@)
                &&& final(self).product_seq() == old(self).product_seq()
                &&& final(self).rule_seq() == old(self).rule_seq()
                &&& final(self).segment_seq() == old(self).segment_seq()
                &&& final(self).quote_seq() == old(self).quote_seq()
            },
    {
        let condition = match input.condition {
            Some(c) => c,
            None => String::new(),
        };
        if !condition.as_str().is_empty() {
            if let Err(e) = validate_cel(condition.as_str()) {
                return Err(e);
            }
        }
        let p = Promotion {
            id: String::new(),
            name: input.name,
            promo_type: input.promo_type,
            code: input.code,
            discount_type: input.discount_type,
            discount_value: input.discount_value,
            condition,
            max_uses: input.max_uses,
            uses: 0,
            valid_from: match input.valid_from {
                Some(v) => v,
                None => now(),
            },
            valid_until: match input.valid_until {
                Some(v) => v,
                None => owned("2099-12-31T23:59:59Z"),
            },
            stackable: match input.stackable {
                Some(b) => b,
                None => false,
            },
            active: true,
        };
        let id = self.add_promotion(p);
        assert(self.promotions@.drop_last() =~= old(self).promotions@);
        Ok(id)
    }

    /// The audit entries that pass the filters of `input`, newest first, at
    /// most `input.limit` of them (50 when absent).
    pub fn audit_log(&self, input: &AuditInput) -> (r: Vec<&AuditEntry>)
        ensures
            entries_of(r@) == audit_query(
                self.audit_seq(),
                match input.entity_type {
                    Some(t) => Some(t@),
                    None => None,
                },
                match input.entity_id {
                    Some(d) => Some(d@),
                    None => None,
                },
                match input.limit {
                    Some(l) => l as nat,
                    None => 50,
                },
            ),
    {
        let entity_type = match &input.entity_type {
            Some(t) => Some(t.as_str()),
            None => None,
        };
        let entity_id = match &input.entity_id {
            Some(d) => Some(d.as_str()),
            None => None,
        };
        self.query_audit(entity_type, entity_id, input.limit)
    }

    /// Appends an audit entry with the identifier `aud_` followed by `suffix`
    /// and the given timestamp; nothing else changes.
    pub fn log_audit_at(
        &mut self,
        suffix: &str,
        timestamp: String,
        entity_type: &str,
        entity_id: &str,
        action: &str,
        actor: &str,
        details: JsonFields,
    )
        requires
            old(self).keys_unique(),
        ensures
            final(self).keys_unique(),
            appends_one(old(self).audit_seq(), final(self).audit_seq()),
            final(self).audit_seq().last().id@ == "aud_"@ + suffix@,
            final(self).audit_seq().last().timestamp == timestamp,
            final(self).audit_seq().last().entity_type@ == entity_type@,
            final(self).audit_seq().last().entity_id@ == entity_id@,
            final(self).audit_seq().last().action@ == action@,
            final(self).audit_seq().last().actor@ == actor@,
            final(self).audit_seq().last().details@ == details@,
            final(self).product_seq() == old(self).product_seq(),
            final(self).rule_seq() == old(self).rule_seq(),
            final(self).segment_seq() == old(self).segment_seq(),
            final(self).promotion_seq() == old(self).promotion_seq(),
            final(self).quote_seq() == old(self).quote_seq(),
    {
        let entry = AuditEntry {
            id: concat_text("aud_", suffix),
            timestamp,
            entity_type: owned(entity_type),
            entity_id: owned(entity_id),
            action: owned(action),
            actor: owned(actor),
            details,
        };
        self.audit.push(entry);
        assert(self.audit@.drop_last() =~= old(self).audit@);
    }

    /// Appends an audit entry, under a fresh identifier and the current
    /// time, recording `action` by `actor` on an entity; nothing else changes.
    pub fn log_audit(
        &mut self,
        entity_type: &str,
        entity_id: &str,
        action: &str,
        actor: &str,
        details: JsonFields,
    )
        requires
            old(self).keys_unique(),
        ensures
            final(self).keys_unique(),
            appends_one(old(self).audit_seq(), final(self).audit_seq()),
            audit_entry_for(final(self).audit_seq().last(), entity_type@, entity_id@, action@, actor@),
            is_utc_clock_text(final(self).audit_seq().last().timestamp@),
            final(self).audit_seq().last().details@ == details@,
            final(self).product_seq() == old(self).product_seq(),
            final(self).rule_seq() == old(self).rule_seq(),
            final(self).segment_seq() == old(self).segment_seq(),
            final(self).promotion_seq() == old(self).promotion_seq(),
            final(self).quote_seq() == old(self).quote_seq(),
    {
        let suffix = uid();
        proof {
            lemma_prefixed("aud_"@, suffix@);
        }
        self.log_audit_at(suffix.as_str(), now(), entity_type, entity_id, action, actor, details);
    }
}

} // verus!
