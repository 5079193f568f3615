//! Properties of the pricing engine that span several operations.

use vstd::prelude::*;
use crate::types::{Amount, AuditEntry, PricingAction, PricingRule, Product, Promotion, Quote, QuoteLine, Segment};
use crate::cel::{
    cel_bool_outcome, cel_holds, cel_parse_error, int_fields, is_request_vars, object_of, pricing_bindings,
    text_fields, CelVars,
};
use crate::inputs::{kept_actions, ActionInput, ProductInput, PromoInput, RuleInput, SegmentInput};
use crate::ids::{is_utc_clock_text, rfc3339_seconds};
use crate::ranking::{lemma_sort_by_priority, rules_of, sort_by_priority};
use crate::scan::supported_condition;
use crate::store::{
    active_rules_of, appends_one, approved_at, audit_matches, audit_query, distinct_quote_ids,
    first_promo_named, first_rule_with_id, has_quote, is_draft_quote, is_first_promo_named,
    is_first_rule_with_id, item_quantity, product_from_input, promo_in_force, promo_named,
    promotion_from_input, promotions_of, quote_book_of, quote_index, quote_selection, rule_from_input,
    rule_switched, segment_from_input, PricingInputs, QuoteTotals, Store,
};
use crate::tax::tax_rate_spec;
use crate::waterfall::{
    actions_taken, condition_applies, discount_of, effect_of, is_plan_given, is_resolved_segment,
    last_value_of, lemma_resolved_unique, promotion_steps_from, resolved_segment,
    rule_outcomes, true_positions, PriceEffect, PromoDiscount, PromotionStep, WaterfallPlan,
};

verus! {

broadcast use vstd::seq_lib::group_to_multiset_ensures;

/// Activating a rule makes it take part in pricing: once the rule at
/// position `i` is marked active (whatever its update time), it is among
/// the active rules in priority order.
pub proof fn law_activated_rule_is_applied(rules: Seq<PricingRule>, i: int, updated_at: String)
    requires
        0 <= i < rules.len(),
    ensures
        sort_by_priority(
            active_rules_of(rules.update(i, (PricingRule { active: true, updated_at: updated_at, ..rules[i] }))),
        ).contains((PricingRule { active: true, updated_at: updated_at, ..rules[i] })),
{
    let m = PricingRule { active: true, updated_at: updated_at, ..rules[i] };
    let u = rules.update(i, m);
    let f = active_rules_of(u);
    assert(u[i] == m);
    u.lemma_filter_contains(|r: PricingRule| r.active, i);
    assert(f.contains(m));
    lemma_sort_by_priority(f);
    assert(f.to_multiset().count(m) > 0);
    assert(sort_by_priority(f).to_multiset().count(m) > 0);
}

/// Deactivating a rule takes it out of pricing: once the rule at position
/// `i` is marked inactive, it is not among the active rules.
pub proof fn law_deactivated_rule_is_not_applied(rules: Seq<PricingRule>, i: int, updated_at: String)
    requires
        0 <= i < rules.len(),
    ensures
        !sort_by_priority(
            active_rules_of(rules.update(i, (PricingRule { active: false, updated_at: updated_at, ..rules[i] }))),
        ).contains((PricingRule { active: false, updated_at: updated_at, ..rules[i] })),
{
    let m = PricingRule { active: false, updated_at: updated_at, ..rules[i] };
    let u = rules.update(i, m);
    let f = active_rules_of(u);
    lemma_sort_by_priority(f);
    if sort_by_priority(f).contains(m) {
        assert(sort_by_priority(f).to_multiset().count(m) > 0);
        assert(f.to_multiset().count(m) > 0);
        assert(f.contains(m));
        let k = choose|k: int| 0 <= k < f.len() && f[k] == m;
        u.lemma_filter_pred(|r: PricingRule| r.active, k);
    }
}

/// The audit trail is append-only: an operation that appends an entry
/// leaves every earlier entry as it was.
pub proof fn law_audit_append_only(before: Seq<AuditEntry>, after: Seq<AuditEntry>)
    requires
        appends_one(before, after),
    ensures
        forall|k: int| 0 <= k < before.len() ==> after[k] == before[k],
{
    assert forall|k: int| 0 <= k < before.len() implies after[k] == before[k] by {
        assert(after.drop_last()[k] == after[k]);
    }
}

/// An audit query returns at most `limit` entries, each of them passing
/// the filters.
pub proof fn law_audit_query_filters(
    audit: Seq<AuditEntry>,
    entity_type: Option<Seq<char>>,
    entity_id: Option<Seq<char>>,
    limit: nat,
)
    ensures
        audit_query(audit, entity_type, entity_id, limit).len() <= limit,
        forall|k: int|
            0 <= k < audit_query(audit, entity_type, entity_id, limit).len() ==> audit_matches(
                #[trigger] audit_query(audit, entity_type, entity_id, limit)[k],
                entity_type,
                entity_id,
            ),
{
    let pred = |e: AuditEntry| audit_matches(e, entity_type, entity_id);
    let m = audit.reverse().filter(pred);
    assert forall|k: int| 0 <= k < m.len() implies audit_matches(m[k], entity_type, entity_id) by {
        audit.reverse().lemma_filter_pred(pred, k);
    }
}

/// The promotion step at `k` names a promotion at or after `i` that is
/// active, applies and has the step's discount; it stacks unless it is the
/// last step, and later steps name later promotions.
pub open spec fn step_sound_at(promos: Seq<Promotion>, applies: Seq<bool>, i: int, steps: Seq<PromotionStep>, k: int) -> bool {
    let p = steps[k].index as int;
    &&& i <= p < promos.len()
    &&& promos[p].active
    &&& applies[p]
    &&& steps[k].discount == discount_of(promos[p].discount_type@)
    &&& (k + 1 < steps.len() ==> promos[p].stackable)
    &&& (forall|l: int| k < l < steps.len() ==> p < #[trigger] steps[l].index)
}

proof fn lemma_promotion_steps_sound(promos: Seq<Promotion>, applies: Seq<bool>, i: int)
    requires
        0 <= i,
        promos.len() <= usize::MAX,
        applies.len() == promos.len(),
    ensures
        forall|k: int|
            0 <= k < promotion_steps_from(promos, applies, i).len() ==> #[trigger] step_sound_at(
                promos,
                applies,
                i,
                promotion_steps_from(promos, applies, i),
                k,
            ),
    decreases promos.len() - i,
{
    let steps = promotion_steps_from(promos, applies, i);
    if i < promos.len() {
        lemma_promotion_steps_sound(promos, applies, i + 1);
        let rest = promotion_steps_from(promos, applies, i + 1);
        if promos[i].active && applies[i] {
            let step = PromotionStep { index: i as usize, discount: discount_of(promos[i].discount_type@) };
            if promos[i].stackable {
                assert(steps == seq![step] + rest);
                assert forall|k: int| 0 <= k < steps.len() implies #[trigger] step_sound_at(
                    promos,
                    applies,
                    i,
                    steps,
                    k,
                ) by {
                    if k > 0 {
                        assert(steps[k] == rest[k - 1]);
                        assert(step_sound_at(promos, applies, i + 1, rest, k - 1));
                        assert forall|l: int| k < l < steps.len() implies steps[k].index < #[trigger] steps[l].index by {
                            assert(steps[l] == rest[l - 1]);
                        }
                    } else {
                        assert forall|l: int| k < l < steps.len() implies steps[k].index < #[trigger] steps[l].index by {
                            assert(steps[l] == rest[l - 1]);
                            assert(step_sound_at(promos, applies, i + 1, rest, l - 1));
                        }
                    }
                }
            } else {
                assert(steps == seq![step]);
            }
        } else {
            assert(steps == rest);
            assert forall|k: int| 0 <= k < steps.len() implies #[trigger] step_sound_at(
                promos,
                applies,
                i,
                steps,
                k,
            ) by {
                assert(step_sound_at(promos, applies, i + 1, rest, k));
            }
        }
    }
}

proof fn lemma_promotion_steps_complete(promos: Seq<Promotion>, applies: Seq<bool>, i: int, j: int)
    requires
        0 <= i <= j < promos.len(),
        promos.len() <= usize::MAX,
        applies.len() == promos.len(),
        promos[j].active,
        applies[j],
    ensures
        exists|k: int|
            0 <= k < promotion_steps_from(promos, applies, i).len() && (#[trigger] promotion_steps_from(
                promos,
                applies,
                i,
            )[k].index == j || !promos[promotion_steps_from(promos, applies, i)[k].index as int].stackable),
    decreases j - i,
{
    let steps = promotion_steps_from(promos, applies, i);
    let rest = promotion_steps_from(promos, applies, i + 1);
    if promos[i].active && applies[i] {
        let step = PromotionStep { index: i as usize, discount: discount_of(promos[i].discount_type@) };
        if promos[i].stackable {
            assert(steps == seq![step] + rest);
        } else {
            assert(steps == seq![step]);
        }
        assert(steps[0] == step);
        if i == j || !promos[i].stackable {
            assert(steps[0].index == i);
        } else {
            lemma_promotion_steps_complete(promos, applies, i + 1, j);
            let k = choose|k: int|
                0 <= k < rest.len() && (#[trigger] rest[k].index == j || !promos[rest[k].index as int].stackable);
            assert(steps[k + 1] == rest[k]);
        }
    } else {
        assert(steps == rest);
        lemma_promotion_steps_complete(promos, applies, i + 1, j);
    }
}

/// The promotions that apply: each is active and its condition applies,
/// their positions increase, every one but the last stacks, and every
/// promotion that is active and applies is taken, unless the scan ended
/// before it at a promotion that does not stack.
pub proof fn law_promotion_steps(promos: Seq<Promotion>, applies: Seq<bool>)
    requires
        promos.len() <= usize::MAX,
        applies.len() == promos.len(),
    ensures
        forall|k: int|
            0 <= k < promotion_steps_from(promos, applies, 0).len() ==> #[trigger] step_sound_at(
                promos,
                applies,
                0,
                promotion_steps_from(promos, applies, 0),
                k,
            ),
        forall|j: int|
            0 <= j < promos.len() && promos[j].active && applies[j]
                ==> exists|k: int|
                0 <= k < promotion_steps_from(promos, applies, 0).len() && (#[trigger] promotion_steps_from(
                    promos,
                    applies,
                    0,
                )[k].index == j || !promos[promotion_steps_from(promos, applies, 0)[k].index as int].stackable),
{
    lemma_promotion_steps_sound(promos, applies, 0);
    assert forall|j: int|
        0 <= j < promos.len() && promos[j].active && applies[j] implies exists|k: int|
            0 <= k < promotion_steps_from(promos, applies, 0).len() && (#[trigger] promotion_steps_from(
                promos,
                applies,
                0,
            )[k].index == j || !promos[promotion_steps_from(promos, applies, 0)[k].index as int].stackable) by {
        lemma_promotion_steps_complete(promos, applies, 0, j);
    }
}

/// The waterfall plan is determined by its inputs: two plans for the same
/// rules, promotions and condition outcomes agree in every part.
pub proof fn law_plan_is_deterministic(
    a: WaterfallPlan,
    b: WaterfallPlan,
    rules: Seq<PricingRule>,
    promos: Seq<Promotion>,
    rule_applies: Seq<bool>,
    promo_applies: Seq<bool>,
)
    requires
        is_plan_given(a, rules, promos, rule_applies, promo_applies),
        is_plan_given(b, rules, promos, rule_applies, promo_applies),
    ensures
        a.promotions@ == b.promotions@,
        a.rules@.len() == b.rules@.len(),
        forall|k: int|
            0 <= k < a.rules@.len() ==> #[trigger] a.rules@[k].index == b.rules@[k].index
                && a.rules@[k].effects@ == b.rules@[k].effects@,
        a.floor == b.floor,
        a.ceiling == b.ceiling,
{
    assert forall|k: int| 0 <= k < a.rules@.len() implies #[trigger] a.rules@[k].index == b.rules@[k].index
        && a.rules@[k].effects@ == b.rules@[k].effects@ by {
        assert(a.rules@[k].index == true_positions(rule_applies)[k]);
        assert(b.rules@[k].index == true_positions(rule_applies)[k]);
    }
}

/// Approving a quote twice is approving it once: the second approval finds
/// the quote again, at the same place, and changes nothing of it but the
/// text of its status, which already reads `approved`; no other quote
/// changes.
pub proof fn law_approve_is_idempotent(q0: Seq<Quote>, q1: Seq<Quote>, q2: Seq<Quote>, id: Seq<char>)
    requires
        distinct_quote_ids(q0),
        has_quote(q0, id),
        approved_at(q0, q1, quote_index(q0, id)),
        has_quote(q1, id) ==> approved_at(q1, q2, quote_index(q1, id)),
    ensures
        has_quote(q1, id),
        quote_index(q1, id) == quote_index(q0, id),
        q2.len() == q1.len(),
        forall|j: int| 0 <= j < q1.len() && j != quote_index(q0, id) ==> q2[j] == q1[j],
        q2[quote_index(q0, id)] == (Quote {
            status: q2[quote_index(q0, id)].status,
            ..q1[quote_index(q0, id)]
        }),
        q2[quote_index(q0, id)].status@ == q1[quote_index(q0, id)].status@,
{
    let i = quote_index(q0, id);
    assert(q1[i].id == q0[i].id);
    assert(has_quote(q1, id));
    let k = quote_index(q1, id);
    if k != i {
        assert(q1[k] == q0[k]);
    }
}

/// Every quote of `before` is in `after` at the same place with the same
/// lines, prices, totals and dates; only its status may differ.
pub open spec fn prices_kept(before: Seq<Quote>, after: Seq<Quote>) -> bool {
    &&& after.len() == before.len()
    &&& forall|j: int| 0 <= j < before.len() ==> #[trigger] after[j] == (Quote { status: after[j].status, ..before[j] })
}

/// Quote prices are locked: an operation that leaves the quotes as they
/// were (every operation but `create_quote` and `approve_quote`) or approves
/// one of them keeps the prices of all of them, and so does any run of such
/// operations.
pub proof fn law_quote_prices_locked(q0: Seq<Quote>, q1: Seq<Quote>, q2: Seq<Quote>, i: int)
    ensures
        prices_kept(q0, q0),
        0 <= i < q0.len() && approved_at(q0, q1, i) ==> prices_kept(q0, q1),
        prices_kept(q0, q1) && prices_kept(q1, q2) ==> prices_kept(q0, q2),
{
    assert forall|j: int| 0 <= j < q0.len() implies #[trigger] q0[j] == (Quote { status: q0[j].status, ..q0[j] }) by {}
    if 0 <= i < q0.len() && approved_at(q0, q1, i) {
        assert forall|j: int| 0 <= j < q0.len() implies #[trigger] q1[j] == (Quote { status: q1[j].status, ..q0[j] }) by {
            if j != i {
                assert(q1[j] == q0[j]);
            }
        }
    }
    if prices_kept(q0, q1) && prices_kept(q1, q2) {
        assert forall|j: int| 0 <= j < q0.len() implies #[trigger] q2[j] == (Quote { status: q2[j].status, ..q0[j] }) by {
            assert(q1[j] == (Quote { status: q1[j].status, ..q0[j] }));
            assert(q2[j] == (Quote { status: q2[j].status, ..q1[j] }));
        }
    }
}

/// A quote read back after operations that keep prices is the quote that
/// was created, but for its status.
pub proof fn law_quote_read_back(before: Seq<Quote>, after: Seq<Quote>, id: Seq<char>)
    requires
        distinct_quote_ids(before),
        has_quote(before, id),
        prices_kept(before, after),
    ensures
        quote_book_of(after).contains_key(id),
        quote_book_of(after)[id] == (Quote { status: quote_book_of(after)[id].status, ..quote_book_of(before)[id] }),
{
    let i = quote_index(before, id);
    assert(after[i] == (Quote { status: after[i].status, ..before[i] }));
    assert(has_quote(after, id));
    let k = quote_index(after, id);
    assert(after[k] == (Quote { status: after[k].status, ..before[k] }));
    assert(k == i);
}

proof fn lemma_inactive_update_keeps_active(s: Seq<PricingRule>, i: int, x: PricingRule)
    requires
        0 <= i < s.len(),
        !s[i].active,
        !x.active,
    ensures
        active_rules_of(s.update(i, x)) == active_rules_of(s),
    decreases s.len(),
{
    let pred = |r: PricingRule| r.active;
    let u = s.update(i, x);
    assert(s == s.drop_last().push(s.last()));
    assert(u == u.drop_last().push(u.last()));
    s.drop_last().lemma_filter_push(s.last(), pred);
    u.drop_last().lemma_filter_push(u.last(), pred);
    if i == s.len() - 1 {
        assert(u.drop_last() == s.drop_last());
    } else {
        assert(u.drop_last() == s.drop_last().update(i, x));
        lemma_inactive_update_keeps_active(s.drop_last(), i, x);
    }
}

/// Activating an inactive rule and then deactivating it again gives back
/// the rules as they were, but for the rule's update time, and so the same
/// active rules: pricing is as before.
pub proof fn law_activate_then_deactivate(rules: Seq<PricingRule>, id: Seq<char>, t1: String, t2: String)
    requires
        first_rule_with_id(rules, id) matches Some(i) && !rules[i].active,
    ensures
        ({
            let i = first_rule_with_id(rules, id)->0;
            let on = rules.update(i, (PricingRule { active: true, updated_at: t1, ..rules[i] }));
            &&& first_rule_with_id(on, id) == Some(i)
            &&& {
                let off = on.update(i, (PricingRule { active: false, updated_at: t2, ..on[i] }));
                &&& off == rules.update(i, (PricingRule { updated_at: t2, ..rules[i] }))
                &&& active_rules_of(off) == active_rules_of(rules)
                &&& sort_by_priority(active_rules_of(off)) == sort_by_priority(active_rules_of(rules))
            }
        }),
{
    let i = first_rule_with_id(rules, id)->0;
    assert(is_first_rule_with_id(rules, id, i));
    let on = rules.update(i, (PricingRule { active: true, updated_at: t1, ..rules[i] }));
    assert(is_first_rule_with_id(on, id, i));
    let j = choose|j: int| is_first_rule_with_id(on, id, j);
    assert(j == i) by {
        if j < i {
            assert(on[j] == rules[j]);
        } else if j > i {
        }
    }
    let off = on.update(i, (PricingRule { active: false, updated_at: t2, ..on[i] }));
    assert(off =~= rules.update(i, (PricingRule { updated_at: t2, ..rules[i] })));
    lemma_inactive_update_keeps_active(rules, i, (PricingRule { updated_at: t2, ..rules[i] }));
}

/// A customer falls in one segment at most: two positions that both
/// resolve as the customer's segment are the same.
pub proof fn law_one_segment(segs: Seq<Segment>, vars: CelVars, i: int, k: int)
    requires
        is_resolved_segment(segs, vars, i),
        is_resolved_segment(segs, vars, k),
    ensures
        i == k,
{
    lemma_resolved_unique(segs, vars, i, k);
}

/// Pricing is read-only and repeatable: `Store::pricing_inputs` takes the
/// store by shared reference, and any two answers it may give for the same
/// store and request agree in every part the price depends on.
pub proof fn law_pricing_is_repeatable(
    store: Store,
    vars: CelVars,
    country: Seq<char>,
    a: PricingInputs,
    b: PricingInputs,
)
    requires
        store.are_pricing_inputs(a, vars, country),
        store.are_pricing_inputs(b, vars, country),
    ensures
        a.vars == b.vars,
        a.segment_discount == b.segment_discount,
        rules_of(a.rules@) == rules_of(b.rules@),
        promotions_of(a.promotions@) == promotions_of(b.promotions@),
        a.tax_rate == b.tax_rate,
{
}

/// A pricing condition sees the request as it is: each CEL variable
/// (`item.sku`, `item.channel`, `item.quantity`, `customer.id`,
/// `customer.segment`, `customer.country`, `customer.annual_spend`,
/// `catalog.category`, `catalog.list_price`, `catalog.cost`) is bound to its
/// own field of the request, and the three objects hold no other field.
pub proof fn law_conditions_see_the_request(vars: CelVars)
    ensures
        ({
            let b = pricing_bindings(vars);
            &&& b.dom() =~= set!["item"@, "customer"@, "catalog"@]
            &&& b["item"@].0.dom() =~= set!["sku"@, "channel"@]
            &&& b["item"@].1.dom() =~= set!["quantity"@]
            &&& b["item"@].0["sku"@] == vars.sku@
            &&& b["item"@].0["channel"@] == vars.channel@
            &&& b["item"@].1["quantity"@] == vars.quantity
            &&& b["customer"@].0.dom() =~= set!["id"@, "segment"@, "country"@]
            &&& b["customer"@].1.dom() =~= set!["annual_spend"@]
            &&& b["customer"@].0["id"@] == vars.customer_id@
            &&& b["customer"@].0["segment"@] == vars.segment@
            &&& b["customer"@].0["country"@] == vars.country@
            &&& b["customer"@].1["annual_spend"@] == vars.annual_spend
            &&& b["catalog"@].0.dom() =~= set!["category"@]
            &&& b["catalog"@].1.dom() =~= set!["list_price"@, "cost"@]
            &&& b["catalog"@].0["category"@] == vars.category@
            &&& b["catalog"@].1["list_price"@] == vars.list_price
            &&& b["catalog"@].1["cost"@] == vars.cost
        }),
{
    reveal_strlit("item");
    reveal_strlit("customer");
    reveal_strlit("catalog");
    reveal_strlit("sku");
    reveal_strlit("channel");
    reveal_strlit("quantity");
    reveal_strlit("id");
    reveal_strlit("segment");
    reveal_strlit("country");
    reveal_strlit("annual_spend");
    reveal_strlit("category");
    reveal_strlit("list_price");
    reveal_strlit("cost");
    reveal_with_fuel(text_fields, 4);
    reveal_with_fuel(int_fields, 3);
    let item = object_of(seq![("sku", vars.sku), ("channel", vars.channel)], seq![("quantity", vars.quantity)]);
    let customer = object_of(
        seq![("id", vars.customer_id), ("segment", vars.segment), ("country", vars.country)],
        seq![("annual_spend", vars.annual_spend)],
    );
    let catalog = object_of(seq![("category", vars.category)], seq![("list_price", vars.list_price), ("cost", vars.cost)]);
    assert(seq![("sku", vars.sku), ("channel", vars.channel)].drop_last() =~= seq![("sku", vars.sku)]);
    assert(seq![("sku", vars.sku)].drop_last() =~= Seq::<(&str, String)>::empty());
    assert(seq![("quantity", vars.quantity)].drop_last() =~= Seq::<(&str, i64)>::empty());
    assert(text_fields(seq![("sku", vars.sku), ("channel", vars.channel)]) =~= map!["sku"@ => vars.sku@, "channel"@ => vars.channel@]);
    assert(int_fields(seq![("quantity", vars.quantity)]).dom() =~= set!["quantity"@]);
    assert("sku"@ != "quantity"@ && "channel"@ != "quantity"@) by {
        assert("sku"@.len() != "quantity"@.len());
        assert("channel"@.len() != "quantity"@.len());
    }
    assert(item.0 =~= map!["sku"@ => vars.sku@, "channel"@ => vars.channel@]);
    assert(item.1 =~= map!["quantity"@ => vars.quantity]);
    assert(seq![("id", vars.customer_id), ("segment", vars.segment), ("country", vars.country)].drop_last()
        =~= seq![("id", vars.customer_id), ("segment", vars.segment)]);
    assert(seq![("id", vars.customer_id), ("segment", vars.segment)].drop_last() =~= seq![("id", vars.customer_id)]);
    assert(seq![("id", vars.customer_id)].drop_last() =~= Seq::<(&str, String)>::empty());
    assert(seq![("annual_spend", vars.annual_spend)].drop_last() =~= Seq::<(&str, i64)>::empty());
    assert(text_fields(seq![("id", vars.customer_id), ("segment", vars.segment), ("country", vars.country)])
        =~= map!["id"@ => vars.customer_id@, "segment"@ => vars.segment@, "country"@ => vars.country@]);
    assert(int_fields(seq![("annual_spend", vars.annual_spend)]).dom() =~= set!["annual_spend"@]);
    assert("id"@ != "annual_spend"@ && "segment"@ != "annual_spend"@ && "country"@ != "annual_spend"@) by {
        assert("id"@.len() != "annual_spend"@.len());
        assert("segment"@.len() != "annual_spend"@.len());
        assert("country"@.len() != "annual_spend"@.len());
    }
    assert(customer.0 =~= map!["id"@ => vars.customer_id@, "segment"@ => vars.segment@, "country"@ => vars.country@]);
    assert(customer.1 =~= map!["annual_spend"@ => vars.annual_spend]);
    assert(seq![("category", vars.category)].drop_last() =~= Seq::<(&str, String)>::empty());
    assert(seq![("list_price", vars.list_price), ("cost", vars.cost)].drop_last() =~= seq![("list_price", vars.list_price)]);
    assert(seq![("list_price", vars.list_price)].drop_last() =~= Seq::<(&str, i64)>::empty());
    assert(text_fields(seq![("category", vars.category)]) =~= map!["category"@ => vars.category@]);
    assert(int_fields(seq![("list_price", vars.list_price), ("cost", vars.cost)]).dom() =~= set!["list_price"@, "cost"@]);
    assert("category"@ != "list_price"@ && "category"@ != "cost"@) by {
        assert("category"@.len() != "list_price"@.len());
        assert("category"@.len() != "cost"@.len());
    }
    assert(catalog.0 =~= map!["category"@ => vars.category@]);
    assert(catalog.1 =~= map!["list_price"@ => vars.list_price, "cost"@ => vars.cost]);
    assert("item"@ != "customer"@ && "item"@ != "catalog"@ && "customer"@ != "catalog"@) by {
        assert("item"@.len() != "customer"@.len());
        assert("item"@.len() != "catalog"@.len());
        assert("customer"@.len() != "catalog"@.len());
    }
    assert("sku"@ != "channel"@) by {
        assert("sku"@.len() != "channel"@.len());
    }
    assert("id"@ != "segment"@ && "id"@ != "country"@ && "segment"@ != "country"@) by {
        assert("id"@.len() != "segment"@.len());
        assert("id"@.len() != "country"@.len());
        assert("segment"@[0] != "country"@[0]);
    }
    assert("list_price"@ != "cost"@) by {
        assert("list_price"@.len() != "cost"@.len());
    }
    assert(pricing_bindings(vars) =~= map!["item"@ => item, "customer"@ => customer, "catalog"@ => catalog]);
}

/// A product is stored with what was given for it: its SKU, name,
/// category, prices and tags as given, its currency as given or `USD` when
/// none is given, and no attributes.
pub proof fn law_product_keeps_input(p: Product, input: ProductInput)
    requires
        product_from_input(p, input),
    ensures
        p.sku == input.sku,
        p.name == input.name,
        p.category == input.category,
        p.list_price == input.list_price,
        p.cost == input.cost,
        input.currency matches Some(c) ==> p.currency@ == c@,
        input.currency is None ==> p.currency@ == "USD"@,
        input.tags matches Some(t) ==> p.tags@ == t@,
        input.tags is None ==> p.tags@.len() == 0,
        p.attributes@.len() == 0,
{
}

/// The actions of a rule are the actions given, in order, less those that
/// lack a type or a value: when every action is complete, each is kept with
/// its type and value.
pub proof fn law_actions_keep_input(raw: Seq<ActionInput>)
    requires
        forall|k: int| 0 <= k < raw.len() ==> (#[trigger] raw[k]).action_type is Some && raw[k].value is Some,
    ensures
        kept_actions(raw).len() == raw.len(),
        forall|k: int|
            0 <= k < raw.len() ==> #[trigger] kept_actions(raw)[k] == (PricingAction {
                action_type: raw[k].action_type->0,
                value: raw[k].value->0,
            }),
    decreases raw.len(),
{
    if raw.len() > 0 {
        let d = raw.drop_last();
        assert forall|k: int| 0 <= k < d.len() implies (#[trigger] d[k]).action_type is Some && d[k].value is Some by {
            assert(d[k] == raw[k]);
        }
        law_actions_keep_input(d);
        assert forall|k: int| 0 <= k < raw.len() implies #[trigger] kept_actions(raw)[k] == (PricingAction {
            action_type: raw[k].action_type->0,
            value: raw[k].value->0,
        }) by {
            if k < raw.len() - 1 {
                assert(d[k] == raw[k]);
            }
        }
    }
}

/// An action that lacks a type or a value is dropped: a rule never holds
/// more actions than were given.
pub proof fn law_actions_never_grow(raw: Seq<ActionInput>)
    ensures
        kept_actions(raw).len() <= raw.len(),
    decreases raw.len(),
{
    if raw.len() > 0 {
        law_actions_never_grow(raw.drop_last());
    }
}

/// A rule is created with what was asked of it: name, condition, channel
/// and segment limits as given; priority as given or 100; description and
/// tags as given or empty; active exactly when `active: true` was asked
/// (inactive when absent); stamped with the clock.
pub proof fn law_rule_keeps_input(r: PricingRule, input: RuleInput)
    requires
        rule_from_input(r, input),
    ensures
        r.name == input.name,
        r.condition == input.condition,
        r.channels == input.channels,
        r.segments == input.segments,
        input.priority matches Some(p) ==> r.priority == p,
        input.priority is None ==> r.priority == 100,
        input.description matches Some(d) ==> r.description@ == d@,
        input.description is None ==> r.description@.len() == 0,
        input.tags matches Some(t) ==> r.tags@ == t@,
        input.tags is None ==> r.tags@.len() == 0,
        input.active matches Some(a) ==> r.active == a,
        input.active is None ==> !r.active,
        r.actions@ == kept_actions(input.actions@),
        is_utc_clock_text(r.created_at@),
        is_utc_clock_text(r.updated_at@),
{
}

/// A segment is created with what was asked of it: name and condition as
/// given, priority as given or 100, discount as given or 0, no metadata.
pub proof fn law_segment_keeps_input(seg: Segment, input: SegmentInput)
    requires
        segment_from_input(seg, input),
    ensures
        seg.name == input.name,
        seg.condition == input.condition,
        input.priority matches Some(p) ==> seg.priority == p,
        input.priority is None ==> seg.priority == 100,
        input.discount_pct matches Some(d) ==> seg.discount_pct == d,
        input.discount_pct is None ==> seg.discount_pct.bits == 0,
        seg.metadata@.len() == 0,
{
}

/// A promotion is created with what was asked of it: name, type, code,
/// discount and use limit as given; condition as given or empty; validity
/// window as given (from the clock, and to the end of 2099, when absent);
/// stacking exactly when `stackable: true` was asked; active and unused.
pub proof fn law_promotion_keeps_input(p: Promotion, input: PromoInput)
    requires
        promotion_from_input(p, input),
    ensures
        p.name == input.name,
        p.promo_type == input.promo_type,
        p.code == input.code,
        p.discount_type == input.discount_type,
        p.discount_value == input.discount_value,
        p.max_uses == input.max_uses,
        input.condition matches Some(c) ==> p.condition@ == c@,
        input.condition is None ==> p.condition@.len() == 0,
        input.valid_from matches Some(v) ==> p.valid_from == v,
        input.valid_from is None ==> is_utc_clock_text(p.valid_from@),
        input.valid_until matches Some(v) ==> p.valid_until@ == v@,
        input.valid_until is None ==> p.valid_until@ == "2099-12-31T23:59:59Z"@,
        input.stackable matches Some(b) ==> p.stackable == b,
        input.stackable is None ==> !p.stackable,
        p.active,
        p.uses == 0,
{
}

/// The rules taken in a waterfall are exactly those that apply, each once,
/// in the order given: every position listed applies, every position that
/// applies is listed, and the positions increase.
pub proof fn law_applied_rules_in_order(applies: Seq<bool>)
    ensures
        forall|k: int|
            0 <= k < true_positions(applies).len() ==> 0 <= #[trigger] true_positions(applies)[k] < applies.len()
                && applies[true_positions(applies)[k]],
        forall|j: int| 0 <= j < applies.len() && #[trigger] applies[j] ==> true_positions(applies).contains(j),
        forall|k: int, l: int|
            0 <= k < l < true_positions(applies).len() ==> #[trigger] true_positions(applies)[k]
                < #[trigger] true_positions(applies)[l],
    decreases applies.len(),
{
    if applies.len() > 0 {
        let d = applies.drop_last();
        law_applied_rules_in_order(d);
        let e = true_positions(d);
        assert forall|k: int| 0 <= k < e.len() implies e[k] < d.len() && applies[e[k]] by {
            assert(d[e[k]] == applies[e[k]]);
        }
        assert forall|j: int| 0 <= j < applies.len() && #[trigger] applies[j] implies true_positions(applies).contains(j) by {
            if j < applies.len() - 1 {
                assert(d[j] == applies[j]);
                let k = choose|k: int| 0 <= k < e.len() && e[k] == j;
                if applies.last() {
                    assert(true_positions(applies)[k] == j);
                }
            } else {
                assert(true_positions(applies).last() == j);
            }
        }
    }
}

/// A guard is the value of the last action of its kind: it is absent
/// exactly when no action has that effect, and when present it is the value
/// of an action with that effect after which no action has it.
pub proof fn law_guard_is_last_of_its_kind(actions: Seq<PricingAction>, effect: PriceEffect)
    ensures
        last_value_of(actions, effect) is None <==> forall|k: int|
            0 <= k < actions.len() ==> effect_of(#[trigger] actions[k].action_type@) != effect,
        last_value_of(actions, effect) matches Some(v) ==> exists|k: int|
            0 <= k < actions.len() && #[trigger] actions[k].value == v && effect_of(actions[k].action_type@) == effect
                && forall|l: int| k < l < actions.len() ==> effect_of(#[trigger] actions[l].action_type@) != effect,
    decreases actions.len(),
{
    if actions.len() > 0 {
        let d = actions.drop_last();
        law_guard_is_last_of_its_kind(d, effect);
        let n = actions.len() - 1;
        if effect_of(actions.last().action_type@) == effect {
            assert(actions[n].value == actions.last().value);
        } else {
            assert forall|k: int| 0 <= k < d.len() implies d[k] == actions[k] by {}
            if last_value_of(d, effect) is None {
                assert forall|k: int| 0 <= k < actions.len() implies effect_of(#[trigger] actions[k].action_type@) != effect by {
                    if k < n {
                        assert(d[k] == actions[k]);
                    }
                }
            } else {
                let v = last_value_of(d, effect)->0;
                let k = choose|k: int|
                    0 <= k < d.len() && #[trigger] d[k].value == v && effect_of(d[k].action_type@) == effect
                        && forall|l: int| k < l < d.len() ==> effect_of(#[trigger] d[l].action_type@) != effect;
                assert(actions[k] == d[k]);
                assert forall|l: int| k < l < actions.len() implies effect_of(#[trigger] actions[l].action_type@) != effect by {
                    if l < n {
                        assert(d[l] == actions[l]);
                    }
                }
            }
        }
    }
}

/// The action types of the rule action table: each documented type has its
/// own effect, and every other type has none.
pub proof fn law_action_table(t: Seq<char>)
    ensures
        effect_of("pct_discount"@) == PriceEffect::PctDiscount,
        effect_of("absolute_discount"@) == PriceEffect::AbsoluteDiscount,
        effect_of("markup_pct"@) == PriceEffect::MarkupPct,
        effect_of("set_price"@) == PriceEffect::SetPrice,
        effect_of("multiply_price"@) == PriceEffect::MultiplyPrice,
        effect_of("set_floor"@) == PriceEffect::SetFloor,
        effect_of("set_ceiling"@) == PriceEffect::SetCeiling,
        (effect_of(t) == PriceEffect::NoEffect) <== (t != "pct_discount"@ && t != "absolute_discount"@
            && t != "markup_pct"@ && t != "set_price"@ && t != "multiply_price"@ && t != "set_floor"@
            && t != "set_ceiling"@),
        discount_of("pct"@) == PromoDiscount::Pct,
        discount_of("absolute"@) == PromoDiscount::Absolute,
        (t != "pct"@ && t != "absolute"@) ==> discount_of(t) == PromoDiscount::NoChange,
{
    reveal_strlit("pct_discount");
    reveal_strlit("absolute_discount");
    reveal_strlit("markup_pct");
    reveal_strlit("set_price");
    reveal_strlit("multiply_price");
    reveal_strlit("set_floor");
    reveal_strlit("set_ceiling");
    reveal_strlit("pct");
    reveal_strlit("absolute");
    assert("absolute_discount"@ != "pct_discount"@) by { assert("absolute_discount"@.len() != "pct_discount"@.len()); }
    assert("markup_pct"@ != "pct_discount"@) by { assert("markup_pct"@.len() != "pct_discount"@.len()); }
    assert("markup_pct"@ != "absolute_discount"@) by { assert("markup_pct"@.len() != "absolute_discount"@.len()); }
    assert("set_price"@ != "pct_discount"@) by { assert("set_price"@.len() != "pct_discount"@.len()); }
    assert("set_price"@ != "absolute_discount"@) by { assert("set_price"@.len() != "absolute_discount"@.len()); }
    assert("set_price"@ != "markup_pct"@) by { assert("set_price"@.len() != "markup_pct"@.len()); }
    assert("multiply_price"@ != "pct_discount"@) by { assert("multiply_price"@.len() != "pct_discount"@.len()); }
    assert("multiply_price"@ != "absolute_discount"@) by { assert("multiply_price"@.len() != "absolute_discount"@.len()); }
    assert("multiply_price"@ != "markup_pct"@) by { assert("multiply_price"@.len() != "markup_pct"@.len()); }
    assert("multiply_price"@ != "set_price"@) by { assert("multiply_price"@.len() != "set_price"@.len()); }
    assert("set_floor"@ != "pct_discount"@) by { assert("set_floor"@.len() != "pct_discount"@.len()); }
    assert("set_floor"@ != "absolute_discount"@) by { assert("set_floor"@.len() != "absolute_discount"@.len()); }
    assert("set_floor"@ != "markup_pct"@) by { assert("set_floor"@.len() != "markup_pct"@.len()); }
    assert("set_floor"@ != "set_price"@) by { assert("set_floor"@[4] != "set_price"@[4]); }
    assert("set_floor"@ != "multiply_price"@) by { assert("set_floor"@.len() != "multiply_price"@.len()); }
    assert("set_ceiling"@ != "pct_discount"@) by { assert("set_ceiling"@.len() != "pct_discount"@.len()); }
    assert("set_ceiling"@ != "absolute_discount"@) by { assert("set_ceiling"@.len() != "absolute_discount"@.len()); }
    assert("set_ceiling"@ != "markup_pct"@) by { assert("set_ceiling"@.len() != "markup_pct"@.len()); }
    assert("set_ceiling"@ != "set_price"@) by { assert("set_ceiling"@.len() != "set_price"@.len()); }
    assert("set_ceiling"@ != "multiply_price"@) by { assert("set_ceiling"@.len() != "multiply_price"@.len()); }
    assert("set_ceiling"@ != "set_floor"@) by { assert("set_ceiling"@.len() != "set_floor"@.len()); }
    assert("absolute"@ != "pct"@) by { assert("absolute"@.len() != "pct"@.len()); }
}

/// A promotion is in force only while it is active, under its use limit and
/// inside its validity window; within all of them it is in force.
pub proof fn law_promotion_window(p: Promotion, now: i64)
    ensures
        !p.active ==> !promo_in_force(p, now),
        (p.max_uses matches Some(m) && p.uses >= m) ==> !promo_in_force(p, now),
        (rfc3339_seconds(p.valid_until@) matches Some(u) && u < now) ==> !promo_in_force(p, now),
        (rfc3339_seconds(p.valid_from@) matches Some(f) && now < f) ==> !promo_in_force(p, now),
        (p.active && (p.max_uses matches Some(m) ==> p.uses < m)
            && (rfc3339_seconds(p.valid_from@) matches Some(f) ==> f <= now)
            && (rfc3339_seconds(p.valid_until@) matches Some(u) ==> now <= u)) ==> promo_in_force(p, now),
{
}

/// A rule limited to channels applies only on those channels, and one
/// limited to segments only to customers of those segments; a rule out of
/// scope is never taken, whatever its condition.
pub proof fn law_rule_scope(rules: Seq<PricingRule>, vars: CelVars, i: int)
    requires
        0 <= i < rules.len(),
    ensures
        (rules[i].channels matches Some(cs) && forall|k: int| 0 <= k < cs@.len() ==> #[trigger] cs@[k]@ != vars.channel@)
            ==> !rule_outcomes(rules, vars)[i],
        (rules[i].segments matches Some(ss) && forall|k: int| 0 <= k < ss@.len() ==> #[trigger] ss@[k]@ != vars.segment_id@)
            ==> !rule_outcomes(rules, vars)[i],
        (rules[i].channels is None && rules[i].segments is None) ==> rule_outcomes(rules, vars)[i]
            == condition_applies(rules[i].condition@, vars),
{
}

/// The tax rates of the tax coverage table, whatever the US state given
/// (for other countries): KE 16%, TZ/UG/RW 18%, GH 15%, ZA 15%, NG 7.5%,
/// UK 20%, DE 19%, FR 20%, SE/NO/DK 25%, CH 8.1%, CA 5%, BR 17%, MX 16%,
/// AU 10%, JP 10%, IN 18%, SG 9%, CN 13%, AE/SA 5%; the US between 5% and 8%
/// by state; a code that is not two letters is charged nothing. Rates are
/// in hundredths of a percent.
pub proof fn law_tax_table(state: Option<Seq<char>>, code: Seq<char>)
    ensures
        tax_rate_spec(seq!['K', 'E'], state) == 1600,
        tax_rate_spec(seq!['T', 'Z'], state) == 1800,
        tax_rate_spec(seq!['U', 'G'], state) == 1800,
        tax_rate_spec(seq!['R', 'W'], state) == 1800,
        tax_rate_spec(seq!['G', 'H'], state) == 1500,
        tax_rate_spec(seq!['Z', 'A'], state) == 1500,
        tax_rate_spec(seq!['N', 'G'], state) == 750,
        tax_rate_spec(seq!['U', 'K'], state) == 2000,
        tax_rate_spec(seq!['D', 'E'], state) == 1900,
        tax_rate_spec(seq!['F', 'R'], state) == 2000,
        tax_rate_spec(seq!['S', 'E'], state) == 2500,
        tax_rate_spec(seq!['N', 'O'], state) == 2500,
        tax_rate_spec(seq!['D', 'K'], state) == 2500,
        tax_rate_spec(seq!['C', 'H'], state) == 810,
        tax_rate_spec(seq!['C', 'A'], state) == 500,
        tax_rate_spec(seq!['B', 'R'], state) == 1700,
        tax_rate_spec(seq!['M', 'X'], state) == 1600,
        tax_rate_spec(seq!['A', 'U'], state) == 1000,
        tax_rate_spec(seq!['J', 'P'], state) == 1000,
        tax_rate_spec(seq!['I', 'N'], state) == 1800,
        tax_rate_spec(seq!['S', 'G'], state) == 900,
        tax_rate_spec(seq!['C', 'N'], state) == 1300,
        tax_rate_spec(seq!['A', 'E'], state) == 500,
        tax_rate_spec(seq!['S', 'A'], state) == 500,
        500 <= tax_rate_spec(seq!['U', 'S'], state) <= 800,
        code.len() != 2 ==> tax_rate_spec(code, state) == 0,
{
}

/// A quote is made of the items whose SKU is in the catalog, in order, with
/// their catalog product and their quantity (one when none is given): it
/// never has more lines than items, and when every SKU is known it has one
/// line per item.
pub proof fn law_quote_items(catalog: Map<Seq<char>, Product>, items: Seq<(String, Option<Amount>)>)
    ensures
        quote_selection(catalog, items).len() <= items.len(),
        (forall|k: int| 0 <= k < items.len() ==> catalog.contains_key(#[trigger] items[k].0@)) ==> ({
            let sel = quote_selection(catalog, items);
            &&& sel.len() == items.len()
            &&& forall|k: int| 0 <= k < items.len() ==> #[trigger] sel[k] == (catalog[items[k].0@], item_quantity(items[k].1))
        }),
        item_quantity(None).bits == 0x3FF0_0000_0000_0000,
        forall|a: Amount| item_quantity(Some(a)) == a,
    decreases items.len(),
{
    if items.len() > 0 {
        let d = items.drop_last();
        law_quote_items(catalog, d);
        if forall|k: int| 0 <= k < items.len() ==> catalog.contains_key(#[trigger] items[k].0@) {
            assert forall|k: int| 0 <= k < d.len() implies catalog.contains_key(#[trigger] d[k].0@) by {
                assert(d[k] == items[k]);
            }
            let sel = quote_selection(catalog, items);
            assert forall|k: int| 0 <= k < items.len() implies #[trigger] sel[k] == (catalog[items[k].0@], item_quantity(items[k].1)) by {
                if k < items.len() - 1 {
                    assert(d[k] == items[k]);
                }
            }
        }
    }
}

/// The variables of a request are what it gives: SKU, quantity, customer,
/// channel and country as given; the channel `direct`, the country `US` and
/// the customer empty when not given; the list price, cost and category as
/// taken from the catalog; no segment yet and no annual spend.
pub proof fn law_request_variables(
    r: CelVars,
    sku: String,
    quantity: i64,
    channel: Option<String>,
    customer_id: Option<String>,
    country: Option<String>,
    list_price: i64,
    cost: i64,
    category: String,
)
    requires
        is_request_vars(r, sku, quantity, channel, customer_id, country, list_price, cost, category),
    ensures
        r.sku == sku,
        r.quantity == quantity,
        r.list_price == list_price,
        r.cost == cost,
        r.category == category,
        channel matches Some(c) ==> r.channel@ == c@,
        channel is None ==> r.channel@ == "direct"@,
        country matches Some(c) ==> r.country@ == c@,
        country is None ==> r.country@ == "US"@,
        customer_id matches Some(c) ==> r.customer_id@ == c@,
        customer_id is None ==> r.customer_id@.len() == 0,
        r.segment@.len() == 0,
        r.segment_id@.len() == 0,
        r.annual_spend == 0,
{
}

/// An audit query misses nothing it should return: when the limit is at
/// least the length of the trail, every entry that passes the filters is
/// returned.
pub proof fn law_audit_query_complete(
    audit: Seq<AuditEntry>,
    entity_type: Option<Seq<char>>,
    entity_id: Option<Seq<char>>,
    limit: nat,
)
    requires
        limit >= audit.len(),
    ensures
        forall|k: int|
            0 <= k < audit.len() && audit_matches(#[trigger] audit[k], entity_type, entity_id) ==> audit_query(
                audit,
                entity_type,
                entity_id,
                limit,
            ).contains(audit[k]),
{
    let pred = |e: AuditEntry| audit_matches(e, entity_type, entity_id);
    let rev = audit.reverse();
    let m = rev.filter(pred);
    broadcast use vstd::seq_lib::group_filter_ensures;
    assert(m.len() <= rev.len()) by {
        rev.lemma_filter_len(pred);
    }
    assert forall|k: int| 0 <= k < audit.len() && audit_matches(#[trigger] audit[k], entity_type, entity_id) implies m.contains(audit[k]) by {
        assert(rev[audit.len() - 1 - k] == audit[k]);
    }
}

/// A quote starts as a draft with what was given: the customer, lines,
/// totals and validity as given; the currency as given or `USD`; the notes
/// as given or empty; no identifier or creation time until it is stored.
pub proof fn law_quote_starts_as_draft(
    q: Quote,
    customer_id: String,
    lines: Vec<QuoteLine>,
    currency: Option<String>,
    totals: QuoteTotals,
    valid_until: String,
    notes: Option<String>,
)
    requires
        is_draft_quote(q, customer_id, lines, currency, totals, valid_until, notes),
    ensures
        q.status@ == "draft"@,
        q.customer_id == customer_id,
        q.lines@ == lines@,
        q.total_list == totals.total_list,
        q.total_net == totals.total_net,
        q.total_discount == totals.total_discount,
        q.total_tax == totals.total_tax,
        q.valid_until == valid_until,
        currency matches Some(c) ==> q.currency@ == c@,
        currency is None ==> q.currency@ == "USD"@,
        notes matches Some(n) ==> q.notes@ == n@,
        notes is None ==> q.notes@.len() == 0,
        q.id@.len() == 0,
        q.created_at@.len() == 0,
{
}

/// Approving a quote marks it `approved` and leaves its lines, prices and
/// totals, and every other quote, as they were.
pub proof fn law_approval_marks_approved(before: Seq<Quote>, after: Seq<Quote>, i: int)
    requires
        0 <= i < before.len(),
        approved_at(before, after, i),
    ensures
        after[i].status@ == "approved"@,
        after[i].lines == before[i].lines,
        after[i].total_net == before[i].total_net,
        after[i].total_list == before[i].total_list,
        after[i].customer_id == before[i].customer_id,
        forall|j: int| 0 <= j < before.len() && j != i ==> after[j] == before[j],
        after.len() == before.len(),
{
}

/// Switching a rule on makes it take part in pricing and switching it off
/// takes it out; no other rule changes, and nothing of the rule but its
/// flag and update time.
pub proof fn law_switch_rule(before: Seq<PricingRule>, after: Seq<PricingRule>, i: int, active: bool)
    requires
        0 <= i < before.len(),
        rule_switched(before, after, i, active),
    ensures
        after[i].active == active,
        after.len() == before.len(),
        forall|j: int| 0 <= j < before.len() && j != i ==> after[j] == before[j],
        after[i].name == before[i].name,
        after[i].condition == before[i].condition,
        after[i].priority == before[i].priority,
        after[i].actions == before[i].actions,
        active ==> sort_by_priority(active_rules_of(after)).contains(after[i]),
        !active ==> !sort_by_priority(active_rules_of(after)).contains(after[i]),
{
    let t = after[i].updated_at;
    assert(after[i] == (PricingRule { active: active, updated_at: t, ..before[i] }));
    if active {
        law_activated_rule_is_applied(before, i, t);
    } else {
        law_deactivated_rule_is_not_applied(before, i, t);
    }
}

proof fn lemma_filter_keeps_first(s: Seq<AuditEntry>, pred: spec_fn(AuditEntry) -> bool)
    requires
        s.len() > 0,
        pred(s[0]),
    ensures
        s.filter(pred).len() > 0,
        s.filter(pred)[0] == s[0],
    decreases s.len(),
{
    let d = s.drop_last();
    assert(s == d.push(s.last()));
    d.lemma_filter_push(s.last(), pred);
    if s.len() > 1 {
        assert(d[0] == s[0]);
        lemma_filter_keeps_first(d, pred);
    } else {
        assert(d.filter(pred).len() == 0) by {
            d.lemma_filter_len(pred);
        }
    }
}

/// An audit query gives the newest entries first: when the last entry of
/// the trail passes the filters and the limit allows one entry, it is the
/// first one returned.
pub proof fn law_audit_newest_first(
    audit: Seq<AuditEntry>,
    entity_type: Option<Seq<char>>,
    entity_id: Option<Seq<char>>,
    limit: nat,
)
    requires
        audit.len() > 0,
        limit > 0,
        audit_matches(audit.last(), entity_type, entity_id),
    ensures
        audit_query(audit, entity_type, entity_id, limit).len() > 0,
        audit_query(audit, entity_type, entity_id, limit)[0] == audit.last(),
{
    let pred = |e: AuditEntry| audit_matches(e, entity_type, entity_id);
    let rev = audit.reverse();
    assert(rev[0] == audit.last());
    lemma_filter_keeps_first(rev, pred);
}

/// The customer's segment is the one of lowest priority number among the
/// segments whose condition applies (ties go to the one created first); the
/// customer falls in a segment as soon as any condition applies; an empty
/// condition always applies.
pub proof fn law_segment_of_lowest_priority(segs: Seq<Segment>, vars: CelVars)
    ensures
        resolved_segment(segs, vars) matches Some(i) ==> {
            &&& 0 <= i < segs.len()
            &&& condition_applies(segs[i].condition@, vars)
            &&& forall|j: int|
                0 <= j < segs.len() && condition_applies(#[trigger] segs[j].condition@, vars) ==> segs[i].priority
                    <= segs[j].priority && (segs[i].priority == segs[j].priority ==> i <= j)
        },
        (exists|j: int| 0 <= j < segs.len() && condition_applies(#[trigger] segs[j].condition@, vars))
            ==> resolved_segment(segs, vars) is Some,
        condition_applies(Seq::<char>::empty(), vars),
{
    if exists|j: int| 0 <= j < segs.len() && condition_applies(#[trigger] segs[j].condition@, vars) {
        let j0 = choose|j: int| 0 <= j < segs.len() && condition_applies(#[trigger] segs[j].condition@, vars);
        lemma_some_segment_resolves(segs, vars, segs.len() as int, j0);
    }
}

/// When some segment applies, some position resolves as the customer's
/// segment.
proof fn lemma_some_segment_resolves(segs: Seq<Segment>, vars: CelVars, n: int, j0: int)
    requires
        0 <= j0 < n <= segs.len(),
        condition_applies(segs[j0].condition@, vars),
        n == segs.len(),
    ensures
        exists|i: int| is_resolved_segment(segs, vars, i),
{
    lemma_best_exists(segs, vars, n, j0);
    let b = choose|b: int| best_among(segs, vars, b, n);
    assert(is_resolved_segment(segs, vars, b));
}

/// `b` applies and no applying segment among the first `n` comes before it
/// by priority and then position.
spec fn best_among(segs: Seq<Segment>, vars: CelVars, b: int, n: int) -> bool {
    &&& 0 <= b < n
    &&& condition_applies(segs[b].condition@, vars)
    &&& forall|j: int|
        0 <= j < n && condition_applies(#[trigger] segs[j].condition@, vars) ==> (segs[b].priority
            < segs[j].priority || (segs[b].priority == segs[j].priority && b <= j))
}

proof fn lemma_best_exists(segs: Seq<Segment>, vars: CelVars, n: int, j0: int)
    requires
        0 <= j0 < n <= segs.len(),
        condition_applies(segs[j0].condition@, vars),
    ensures
        exists|b: int| best_among(segs, vars, b, n),
    decreases n,
{
    let last = n - 1;
    if exists|j: int| 0 <= j < last && condition_applies(#[trigger] segs[j].condition@, vars) {
        let k = choose|j: int| 0 <= j < last && condition_applies(#[trigger] segs[j].condition@, vars);
        lemma_best_exists(segs, vars, last, k);
        let b = choose|b: int| best_among(segs, vars, b, last);
        if condition_applies(segs[last].condition@, vars) && segs[last].priority < segs[b].priority {
            assert(best_among(segs, vars, last, n));
        } else {
            assert(best_among(segs, vars, b, n));
        }
    } else {
        assert(j0 == last);
        assert(best_among(segs, vars, last, n));
    }
}

/// Every action a rule keeps was given, with its type and value, in an
/// action of the input.
pub proof fn law_actions_come_from_input(raw: Seq<ActionInput>)
    ensures
        forall|k: int|
            0 <= k < kept_actions(raw).len() ==> exists|j: int|
                0 <= j < raw.len() && raw[j].action_type == Some(#[trigger] kept_actions(raw)[k].action_type)
                    && raw[j].value == Some(kept_actions(raw)[k].value),
    decreases raw.len(),
{
    if raw.len() > 0 {
        let d = raw.drop_last();
        law_actions_come_from_input(d);
        assert forall|k: int| 0 <= k < kept_actions(raw).len() implies exists|j: int|
            0 <= j < raw.len() && raw[j].action_type == Some(#[trigger] kept_actions(raw)[k].action_type)
                && raw[j].value == Some(kept_actions(raw)[k].value) by {
            if k < kept_actions(d).len() {
                let j = choose|j: int|
                    0 <= j < d.len() && d[j].action_type == Some(#[trigger] kept_actions(d)[k].action_type)
                        && d[j].value == Some(kept_actions(d)[k].value);
                assert(raw[j] == d[j]);
            } else {
                assert(raw[raw.len() - 1] == raw.last());
            }
        }
    }
}

/// A condition holds exactly when it is supported, parses, and the
/// interpreter answers `true` for the request's variables; an empty
/// condition always applies, a non-empty one exactly when it holds.
pub proof fn law_condition_meaning(expr: Seq<char>, vars: CelVars)
    ensures
        cel_holds(expr, vars) <==> (supported_condition(expr) && cel_parse_error(expr) is None
            && cel_bool_outcome(expr, pricing_bindings(vars)) == Some(true)),
        expr.len() == 0 ==> condition_applies(expr, vars),
        expr.len() > 0 ==> (condition_applies(expr, vars) <==> cel_holds(expr, vars)),
{
}

/// The actions a waterfall takes are those of the applied rules one rule
/// after the other, in the order of the rules: applying one more rule adds
/// its actions after all those taken before.
pub proof fn law_actions_in_rule_order(rules: Seq<PricingRule>, positions: Seq<int>, p: int)
    ensures
        ({
            let before = actions_taken(rules, positions);
            let after = actions_taken(rules, positions.push(p));
            &&& after.len() == before.len() + rules[p].actions@.len()
            &&& after.take(before.len() as int) == before
            &&& after.skip(before.len() as int) == rules[p].actions@
        }),
{
    assert(positions.push(p).drop_last() =~= positions);
    let before = actions_taken(rules, positions);
    let after = actions_taken(rules, positions.push(p));
    assert(after.take(before.len() as int) =~= before);
    assert(after.skip(before.len() as int) =~= rules[p].actions@);
}

/// A promotion is found by its coupon code or by its identifier: the first
/// promotion named so is the one found, and it is found whenever one is
/// named so.
pub proof fn law_promotion_lookup(s: Seq<Promotion>, code: Seq<char>, p: Promotion)
    ensures
        (p.code matches Some(c) && c@ == code) ==> promo_named(p, code),
        promo_named(p, p.id@),
        !(p.code matches Some(c) && c@ == code) && p.id@ != code ==> !promo_named(p, code),
        first_promo_named(s, code) matches Some(i) ==> 0 <= i < s.len() && promo_named(s[i], code)
            && forall|j: int| 0 <= j < i ==> !promo_named(#[trigger] s[j], code),
        (exists|j: int| 0 <= j < s.len() && promo_named(#[trigger] s[j], code)) ==> first_promo_named(s, code)
            is Some,
{
    if exists|j: int| 0 <= j < s.len() && promo_named(#[trigger] s[j], code) {
        lemma_first_named(s, code, s.len() as int);
    }
}

proof fn lemma_first_named(s: Seq<Promotion>, code: Seq<char>, n: int)
    requires
        0 <= n <= s.len(),
        exists|j: int| 0 <= j < n && promo_named(#[trigger] s[j], code),
    ensures
        first_promo_named(s, code) is Some,
    decreases n,
{
    if exists|j: int| 0 <= j < n - 1 && promo_named(#[trigger] s[j], code) {
        lemma_first_named(s, code, n - 1);
    } else {
        assert(is_first_promo_named(s, code, n - 1));
    }
}

} // verus!
