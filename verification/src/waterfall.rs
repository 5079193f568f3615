//! The decisions of the price waterfall.
//!
//! The waterfall runs list price, segment discount, promotions, pricing
//! rules, floor/ceiling guards and tax, in that order. Which promotions and
//! rules take part, which effect each action has and which floor and ceiling
//! apply do not depend on the price: they are decided here, as a plan. The
//! arithmetic on the price follows the plan.

use vstd::prelude::*;
use crate::types::{Amount, PricingAction, PricingRule, Promotion, Segment};
use crate::cel::{cel_holds, eval_cel, CelVars};
use crate::text::text_eq;

verus! {

/// What one rule action does to the price.
#[derive(Clone, Copy, Debug, PartialEq, Eq, Structural)]
pub enum PriceEffect {
    /// `pct_discount`: reduce by the value, in percent.
    PctDiscount,
    /// `absolute_discount`: subtract the value.
    AbsoluteDiscount,
    /// `markup_pct`: increase by the value, in percent.
    MarkupPct,
    /// `set_price`: replace the price by the value.
    SetPrice,
    /// `multiply_price`: multiply the price by the value.
    MultiplyPrice,
    /// `set_floor`: the value becomes the floor guard.
    SetFloor,
    /// `set_ceiling`: the value becomes the ceiling guard.
    SetCeiling,
    /// Any other action type: no effect.
    NoEffect,
}

/// What a promotion does to the price.
#[derive(Clone, Copy, Debug, PartialEq, Eq, Structural)]
pub enum PromoDiscount {
    /// `pct`: reduce by the value, in percent.
    Pct,
    /// `absolute`: subtract the value.
    Absolute,
    /// Any other discount type: the price is left as it is.
    NoChange,
}

/// A promotion that applies, by its position in the list of promotions.
#[derive(Clone, Copy, Debug, PartialEq, Eq, Structural)]
pub struct PromotionStep {
    pub index: usize,
    pub discount: PromoDiscount,
}

/// A rule whose condition holds, by its position in the list of rules, with
/// the effect of each of its actions, in order.
#[derive(Clone, Debug)]
pub struct RuleStep {
    pub index: usize,
    pub effects: Vec<PriceEffect>,
}

/// The plan of one run of the waterfall.
#[derive(Clone, Debug)]
pub struct WaterfallPlan {
    /// The promotions that apply, in order.
    pub promotions: Vec<PromotionStep>,
    /// The rules whose condition holds, in order.
    pub rules: Vec<RuleStep>,
    /// The floor guard: the value of the last `set_floor` action taken.
    pub floor: Option<Amount>,
    /// The ceiling guard: the value of the last `set_ceiling` action taken.
    pub ceiling: Option<Amount>,
}

/// The effect of an action type.
pub open spec fn effect_of(action_type: Seq<char>) -> PriceEffect {
    if action_type == "pct_discount"@ {
        PriceEffect::PctDiscount
    } else if action_type == "absolute_discount"@ {
        PriceEffect::AbsoluteDiscount
    } else if action_type == "markup_pct"@ {
        PriceEffect::MarkupPct
    } else if action_type == "set_price"@ {
        PriceEffect::SetPrice
    } else if action_type == "multiply_price"@ {
        PriceEffect::MultiplyPrice
    } else if action_type == "set_floor"@ {
        PriceEffect::SetFloor
    } else if action_type == "set_ceiling"@ {
        PriceEffect::SetCeiling
    } else {
        PriceEffect::NoEffect
    }
}

/// The discount kind of a promotion discount type.
pub open spec fn discount_of(discount_type: Seq<char>) -> PromoDiscount {
    if discount_type == "pct"@ {
        PromoDiscount::Pct
    } else if discount_type == "absolute"@ {
        PromoDiscount::Absolute
    } else {
        PromoDiscount::NoChange
    }
}

/// A condition applies when it is empty or holds.
pub open spec fn condition_applies(condition: Seq<char>, vars: CelVars) -> bool {
    condition.len() == 0 || cel_holds(condition, vars)
}

/// Whether `value` is allowed by an optional limit: no limit allows every
/// value, a list allows the values it holds.
pub open spec fn allowed_by(limit: Option<Vec<String>>, value: Seq<char>) -> bool {
    match limit {
        None => true,
        Some(list) => listed(list@, value),
    }
}

/// Whether `value` is one of the strings of `list`.
pub open spec fn listed(list: Seq<String>, value: Seq<char>) -> bool {
    exists|k: int| 0 <= k < list.len() && #[trigger] list[k]@ == value
}

/// A rule is in scope for a request when the request's channel and the
/// identifier of the customer's segment are among those it is limited to
/// (if it is limited).
pub open spec fn rule_in_scope(rule: PricingRule, vars: CelVars) -> bool {
    allowed_by(rule.channels, vars.channel@) && allowed_by(rule.segments, vars.segment_id@)
}

/// `i` is the segment a customer falls in: its condition applies (an empty
/// one always does), and every other segment whose condition applies comes
/// after it, by priority (a lower number first) and then by position.
pub open spec fn is_resolved_segment(segs: Seq<Segment>, vars: CelVars, i: int) -> bool {
    &&& 0 <= i < segs.len()
    &&& condition_applies(segs[i].condition@, vars)
    &&& forall|j: int|
        0 <= j < segs.len() && j != i && condition_applies(#[trigger] segs[j].condition@, vars) ==> (
        segs[i].priority < segs[j].priority || (segs[i].priority == segs[j].priority && i < j))
}

/// Whether each rule applies: it is in scope and its condition applies.
pub open spec fn rule_outcomes(rules: Seq<PricingRule>, vars: CelVars) -> Seq<bool> {
    Seq::new(
        rules.len(),
        |i: int| rule_in_scope(rules[i], vars) && condition_applies(rules[i].condition@, vars),
    )
}

/// Whether the condition of each promotion applies.
pub open spec fn promotion_outcomes(promos: Seq<Promotion>, vars: CelVars) -> Seq<bool> {
    Seq::new(promos.len(), |i: int| condition_applies(promos[i].condition@, vars))
}

/// The promotions that apply, scanning from position `i`, when `applies[j]`
/// tells whether the condition of promotion `j` applies: inactive ones are
/// skipped, and a promotion that applies and does not stack ends the scan.
pub open spec fn promotion_steps_from(
    promos: Seq<Promotion>,
    applies: Seq<bool>,
    i: int,
) -> Seq<PromotionStep>
    decreases promos.len() - i,
{
    if i < 0 || i >= promos.len() {
        seq![]
    } else if promos[i].active && applies[i] {
        let step = PromotionStep { index: i as usize, discount: discount_of(promos[i].discount_type@) };
        if promos[i].stackable {
            seq![step] + promotion_steps_from(promos, applies, i + 1)
        } else {
            seq![step]
        }
    } else {
        promotion_steps_from(promos, applies, i + 1)
    }
}

/// The positions that hold `true`, in order.
pub open spec fn true_positions(applies: Seq<bool>) -> Seq<int>
    decreases applies.len(),
{
    if applies.len() == 0 {
        seq![]
    } else {
        let earlier = true_positions(applies.drop_last());
        if applies.last() {
            earlier.push(applies.len() - 1)
        } else {
            earlier
        }
    }
}

/// The actions of the rules at the given positions, one after the other.
pub open spec fn actions_taken(rules: Seq<PricingRule>, positions: Seq<int>) -> Seq<PricingAction>
    decreases positions.len(),
{
    if positions.len() == 0 {
        seq![]
    } else {
        actions_taken(rules, positions.drop_last()) + rules[positions.last()].actions@
    }
}

/// The value of the last action with the given effect, if any.
pub open spec fn last_value_of(actions: Seq<PricingAction>, effect: PriceEffect) -> Option<Amount>
    decreases actions.len(),
{
    if actions.len() == 0 {
        None
    } else if effect_of(actions.last().action_type@) == effect {
        Some(actions.last().value)
    } else {
        last_value_of(actions.drop_last(), effect)
    }
}

/// The effects of a list of actions.
pub open spec fn effects_of(actions: Seq<PricingAction>) -> Seq<PriceEffect> {
    actions.map_values(|a: PricingAction| effect_of(a.action_type@))
}

/// `plan` is the waterfall plan for these rules and promotions when
/// `rule_applies` and `promo_applies` tell whose conditions apply.
pub open spec fn is_plan_given(
    plan: WaterfallPlan,
    rules: Seq<PricingRule>,
    promos: Seq<Promotion>,
    rule_applies: Seq<bool>,
    promo_applies: Seq<bool>,
) -> bool {
    let applied = true_positions(rule_applies);
    &&& plan.promotions@ == promotion_steps_from(promos, promo_applies, 0)
    &&& plan.rules@.len() == applied.len()
    &&& forall|k: int|
        0 <= k < applied.len() ==> {
            &&& #[trigger] plan.rules@[k].index == applied[k]
            &&& plan.rules@[k].effects@ == effects_of(rules[applied[k]].actions@)
        }
    &&& plan.floor == last_value_of(actions_taken(rules, applied), PriceEffect::SetFloor)
    &&& plan.ceiling == last_value_of(actions_taken(rules, applied), PriceEffect::SetCeiling)
}

/// `plan` is the waterfall plan for these rules, promotions and variables.
pub open spec fn is_plan_for(
    plan: WaterfallPlan,
    rules: Seq<PricingRule>,
    promos: Seq<Promotion>,
    vars: CelVars,
) -> bool {
    is_plan_given(plan, rules, promos, rule_outcomes(rules, vars), promotion_outcomes(promos, vars))
}

/// The effect of an action type.
pub fn action_effect(action_type: &str) -> (r: PriceEffect)
    ensures
        r == effect_of(action_type@),
{
    if text_eq(action_type, "pct_discount") {
        PriceEffect::PctDiscount
    } else if text_eq(action_type, "absolute_discount") {
        PriceEffect::AbsoluteDiscount
    } else if text_eq(action_type, "markup_pct") {
        PriceEffect::MarkupPct
    } else if text_eq(action_type, "set_price") {
        PriceEffect::SetPrice
    } else if text_eq(action_type, "multiply_price") {
        PriceEffect::MultiplyPrice
    } else if text_eq(action_type, "set_floor") {
        PriceEffect::SetFloor
    } else if text_eq(action_type, "set_ceiling") {
        PriceEffect::SetCeiling
    } else {
        PriceEffect::NoEffect
    }
}

/// The discount kind of a promotion discount type.
pub fn promo_discount(discount_type: &str) -> (r: PromoDiscount)
    ensures
        r == discount_of(discount_type@),
{
    if text_eq(discount_type, "pct") {
        PromoDiscount::Pct
    } else if text_eq(discount_type, "absolute") {
        PromoDiscount::Absolute
    } else {
        PromoDiscount::NoChange
    }
}

/// Whether a condition applies: it is empty, or it holds.
pub fn condition_holds(condition: &str, vars: &CelVars) -> (r: bool)
    ensures
        r == condition_applies(condition@, *vars),
{
    condition.is_empty() || eval_cel(condition, vars)
}

/// Whether `value` is one of the strings of `list`.
fn listed_in(list: &Vec<String>, value: &str) -> (r: bool)
    ensures
        r == listed(list@, value@),
{
    let mut k: usize = 0;
    while k < list.len()
        invariant
            k <= list@.len(),
            forall|j: int| 0 <= j < k ==> list@[j]@ != value@,
        decreases list@.len() - k,
    {
        if text_eq(list[k].as_str(), value) {
            assert(list@[k as int]@ == value@);
            return true;
        }
        k = k + 1;
    }
    false
}

/// Whether `value` is allowed by an optional limit.
pub fn allowed(limit: &Option<Vec<String>>, value: &str) -> (r: bool)
    ensures
        r == allowed_by(*limit, value@),
{
    match limit {
        None => true,
        Some(list) => listed_in(list, value),
    }
}

/// Whether a rule applies to a request: it is in scope and its condition
/// applies (the condition is only evaluated for a rule in scope).
pub fn rule_takes_part(rule: &PricingRule, vars: &CelVars) -> (r: bool)
    ensures
        r == (rule_in_scope(*rule, *vars) && condition_applies(rule.condition@, *vars)),
{
    allowed(&rule.channels, vars.channel.as_str()) && allowed(&rule.segments, vars.segment_id.as_str())
        && condition_holds(rule.condition.as_str(), vars)
}

/// The segment a customer falls in, if any (see `is_resolved_segment`;
/// there is at most one, `law_one_segment`).
pub open spec fn resolved_segment(segs: Seq<Segment>, vars: CelVars) -> Option<int> {
    if exists|i: int| is_resolved_segment(segs, vars, i) {
        Some(choose|i: int| is_resolved_segment(segs, vars, i))
    } else {
        None
    }
}

/// The segment a customer falls in (step 2 of the waterfall), evaluating
/// the segment conditions against `vars`: the position of the segment of
/// lowest priority number whose condition applies, the first such one among
/// equal priorities; `None` when no condition applies.
pub fn resolve_segment(segs: &[Segment], vars: &CelVars) -> (r: Option<usize>)
    ensures
        r matches Some(i) ==> is_resolved_segment(segs@, *vars, i as int),
        r is None <==> forall|j: int| 0 <= j < segs@.len() ==> !condition_applies(#[trigger] segs@[j].condition@, *vars),
        match r {
            Some(i) => resolved_segment(segs@, *vars) == Some(i as int),
            None => resolved_segment(segs@, *vars) is None,
        },
{
    let mut best: Option<usize> = None;
    let mut i: usize = 0;
    while i < segs.len()
        invariant
            i <= segs@.len(),
            best matches Some(b) ==> b < i && condition_applies(segs@[b as int].condition@, *vars) && forall|j: int|
                0 <= j < i && j != b && condition_applies(#[trigger] segs@[j].condition@, *vars) ==> (
                segs@[b as int].priority < segs@[j].priority || (segs@[b as int].priority == segs@[j].priority && b < j)),
            best is None ==> forall|j: int| 0 <= j < i ==> !condition_applies(#[trigger] segs@[j].condition@, *vars),
        decreases segs@.len() - i,
    {
        if condition_holds(segs[i].condition.as_str(), vars) {
            match best {
                None => {
                    best = Some(i);
                },
                Some(b) => {
                    if segs[i].priority < segs[b].priority {
                        best = Some(i);
                    }
                },
            }
        }
        i = i + 1;
    }
    proof {
        match best {
            Some(b) => {
                assert(is_resolved_segment(segs@, *vars, b as int));
                let c = choose|c: int| is_resolved_segment(segs@, *vars, c);
                lemma_resolved_unique(segs@, *vars, b as int, c);
            },
            None => {
                assert forall|c: int| !is_resolved_segment(segs@, *vars, c) by {
                    if 0 <= c < segs@.len() {
                        assert(!condition_applies(segs@[c].condition@, *vars));
                    }
                }
            },
        }
    }
    best
}

/// Two positions that both resolve as the customer's segment are the same.
pub(crate) proof fn lemma_resolved_unique(segs: Seq<Segment>, vars: CelVars, i: int, k: int)
    requires
        is_resolved_segment(segs, vars, i),
        is_resolved_segment(segs, vars, k),
    ensures
        i == k,
{
}

/// The promotions that apply, in order.
fn plan_promotions(promos: &[Promotion], applies: &[bool]) -> (r: Vec<PromotionStep>)
    requires
        applies@.len() == promos@.len(),
    ensures
        r@ == promotion_steps_from(promos@, applies@, 0),
{
    let mut steps: Vec<PromotionStep> = Vec::new();
    let mut i: usize = 0;
    while i < promos.len()
        invariant_except_break
            i <= promos@.len(),
            applies@.len() == promos@.len(),
            steps@ + promotion_steps_from(promos@, applies@, i as int) == promotion_steps_from(
                promos@,
                applies@,
                0,
            ),
        ensures
            steps@ == promotion_steps_from(promos@, applies@, 0),
        decreases promos@.len() - i,
    {
        let promo = &promos[i];
        if promo.active && applies[i] {
            let step = PromotionStep { index: i, discount: promo_discount(promo.discount_type.as_str()) };
            steps.push(step);
            if !promo.stackable {
                assert(steps@ =~= promotion_steps_from(promos@, applies@, 0));
                break;
            }
            assert(steps@ + promotion_steps_from(promos@, applies@, i + 1) =~= promotion_steps_from(
                promos@,
                applies@,
                0,
            ));
        }
        i = i + 1;
    }
    steps
}

proof fn lemma_true_positions_extend(applies: Seq<bool>, i: int)
    requires
        0 <= i < applies.len(),
    ensures
        true_positions(applies.take(i + 1)) == if applies[i] {
            true_positions(applies.take(i)).push(i)
        } else {
            true_positions(applies.take(i))
        },
{
    assert(applies.take(i + 1).drop_last() =~= applies.take(i));
}

proof fn lemma_last_value_push(actions: Seq<PricingAction>, a: PricingAction, effect: PriceEffect)
    ensures
        last_value_of(actions.push(a), effect) == if effect_of(a.action_type@) == effect {
            Some(a.value)
        } else {
            last_value_of(actions, effect)
        },
{
    assert(actions.push(a).drop_last() =~= actions);
}

/// Plans a run of the waterfall when `rule_applies[i]` tells whether the
/// condition of rule `i` applies and `promo_applies[j]` whether that of
/// promotion `j` does: the promotions that apply are the active ones whose
/// condition applies, up to and including the first that does not stack;
/// the rules that apply are those whose condition applies, each with the
/// effect of each of its actions; the floor and ceiling guards are the last
/// `set_floor` and `set_ceiling` values among the actions taken.
pub fn plan_given(
    rules: &[PricingRule],
    promotions: &[Promotion],
    rule_applies: &[bool],
    promo_applies: &[bool],
) -> (r: WaterfallPlan)
    requires
        rule_applies@.len() == rules@.len(),
        promo_applies@.len() == promotions@.len(),
    ensures
        is_plan_given(r, rules@, promotions@, rule_applies@, promo_applies@),
{
    let promo_steps = plan_promotions(promotions, promo_applies);
    let mut steps: Vec<RuleStep> = Vec::new();
    let mut floor: Option<Amount> = None;
    let mut ceiling: Option<Amount> = None;
    let mut i: usize = 0;
    while i < rules.len()
        invariant
            i <= rules@.len(),
            rule_applies@.len() == rules@.len(),
            steps@.len() == true_positions(rule_applies@.take(i as int)).len(),
            forall|k: int|
                0 <= k < steps@.len() ==> {
                    &&& #[trigger] steps@[k].index == true_positions(rule_applies@.take(i as int))[k]
                    &&& steps@[k].effects@ == effects_of(
                        rules@[true_positions(rule_applies@.take(i as int))[k]].actions@,
                    )
                },
            forall|k: int|
                0 <= k < true_positions(rule_applies@.take(i as int)).len() ==> 0
                    <= #[trigger] true_positions(rule_applies@.take(i as int))[k] < i,
            floor == last_value_of(
                actions_taken(rules@, true_positions(rule_applies@.take(i as int))),
                PriceEffect::SetFloor,
            ),
            ceiling == last_value_of(
                actions_taken(rules@, true_positions(rule_applies@.take(i as int))),
                PriceEffect::SetCeiling,
            ),
        decreases rules@.len() - i,
    {
        let ghost before = true_positions(rule_applies@.take(i as int));
        proof {
            lemma_true_positions_extend(rule_applies@, i as int);
        }
        let rule = &rules[i];
        if rule_applies[i] {
            let ghost taken = actions_taken(rules@, before);
            let mut effects: Vec<PriceEffect> = Vec::new();
            let mut j: usize = 0;
            while j < rule.actions.len()
                invariant
                    rule == &rules@[i as int],
                    j <= rule.actions@.len(),
                    effects@ == effects_of(rule.actions@.take(j as int)),
                    floor == last_value_of(taken + rule.actions@.take(j as int), PriceEffect::SetFloor),
                    ceiling == last_value_of(
                        taken + rule.actions@.take(j as int),
                        PriceEffect::SetCeiling,
                    ),
                decreases rule.actions@.len() - j,
            {
                let action = &rule.actions[j];
                let e = action_effect(action.action_type.as_str());
                proof {
                    assert(taken + rule.actions@.take(j + 1) =~= (taken + rule.actions@.take(
                        j as int,
                    )).push(*action));
                    lemma_last_value_push(taken + rule.actions@.take(j as int), *action, PriceEffect::SetFloor);
                    lemma_last_value_push(taken + rule.actions@.take(j as int), *action, PriceEffect::SetCeiling);
                }
                match e {
                    PriceEffect::SetFloor => {
                        floor = Some(action.value);
                    },
                    PriceEffect::SetCeiling => {
                        ceiling = Some(action.value);
                    },
                    _ => {},
                }
                effects.push(e);
                assert(effects@ =~= effects_of(rule.actions@.take(j + 1)));
                j = j + 1;
            }
            assert(rule.actions@.take(j as int) =~= rule.actions@);
            assert(before.push(i as int).drop_last() =~= before);
            assert(actions_taken(rules@, before.push(i as int)) == taken + rule.actions@);
            steps.push(RuleStep { index: i, effects });
        }
        i = i + 1;
    }
    assert(rule_applies@.take(rules@.len() as int) =~= rule_applies@);
    WaterfallPlan { promotions: promo_steps, rules: steps, floor, ceiling }
}

/// The scan of promotions is the same under two outcome lists that agree on
/// every active promotion reached before the scan ends.
proof fn lemma_steps_agree(promos: Seq<Promotion>, a: Seq<bool>, b: Seq<bool>, i: int)
    requires
        0 <= i,
        a.len() == promos.len(),
        b.len() == promos.len(),
        forall|j: int|
            i <= j < promos.len() && promos[j].active && (forall|k: int|
                i <= k < j ==> !(promos[k].active && #[trigger] a[k] && !promos[k].stackable)) ==> a[j]
                == b[j],
    ensures
        promotion_steps_from(promos, a, i) == promotion_steps_from(promos, b, i),
    decreases promos.len() - i,
{
    if i < promos.len() {
        if promos[i].active {
            assert(a[i] == b[i]);
        }
        if !(promos[i].active && a[i] && !promos[i].stackable) {
            assert forall|j: int|
                i + 1 <= j < promos.len() && promos[j].active && (forall|k: int|
                    i + 1 <= k < j ==> !(promos[k].active && #[trigger] a[k] && !promos[k].stackable)) implies a[j]
                == b[j] by {
                assert forall|k: int| i <= k < j implies !(promos[k].active && #[trigger] a[k] && !promos[k].stackable) by {
                }
            }
            lemma_steps_agree(promos, a, b, i + 1);
        }
    }
}

/// Whether each promotion condition applies, evaluating a condition only
/// when the scan of promotions reaches it: for active promotions up to and
/// including the first that applies and does not stack. The others are
/// reported as not applying (the scan does not look at them).
fn promotion_conditions(promos: &[Promotion], vars: &CelVars) -> (r: Vec<bool>)
    ensures
        r@.len() == promos@.len(),
        promotion_steps_from(promos@, r@, 0) == promotion_steps_from(
            promos@,
            promotion_outcomes(promos@, *vars),
            0,
        ),
{
    let ghost full = promotion_outcomes(promos@, *vars);
    let mut out: Vec<bool> = Vec::new();
    let mut stopped = false;
    let mut i: usize = 0;
    while i < promos.len()
        invariant
            i <= promos@.len(),
            out@.len() == i,
            full == promotion_outcomes(promos@, *vars),
            stopped == exists|k: int| 0 <= k < i && promos@[k].active && #[trigger] out@[k] && !promos@[k].stackable,
            forall|j: int|
                0 <= j < i && promos@[j].active && (forall|k: int|
                    0 <= k < j ==> !(promos@[k].active && #[trigger] out@[k] && !promos@[k].stackable))
                    ==> out@[j] == full[j],
        decreases promos@.len() - i,
    {
        let promo = &promos[i];
        let ghost before = out@;
        if !stopped && promo.active {
            let holds = condition_holds(promo.condition.as_str(), vars);
            out.push(holds);
            assert(holds == full[i as int]);
            if holds && !promo.stackable {
                stopped = true;
            }
        } else {
            out.push(false);
        }
        proof {
            assert(out@ == before.push(out@[i as int]));
            assert forall|k: int| 0 <= k < i implies out@[k] == before[k] by {}
            if stopped {
                if !(promos@[i as int].active && out@[i as int] && !promos@[i as int].stackable) {
                    let k = choose|k: int| 0 <= k < i && promos@[k].active && #[trigger] before[k] && !promos@[k].stackable;
                    assert(out@[k] == before[k]);
                }
            } else {
                assert forall|k: int| 0 <= k < i + 1 implies !(promos@[k].active && #[trigger] out@[k] && !promos@[k].stackable) by {
                    if k < i {
                        assert(out@[k] == before[k]);
                    }
                }
            }
            assert forall|j: int|
                0 <= j < i + 1 && promos@[j].active && (forall|k: int|
                    0 <= k < j ==> !(promos@[k].active && #[trigger] out@[k] && !promos@[k].stackable))
                    implies out@[j] == full[j] by {
                if j < i {
                    assert forall|k: int| 0 <= k < j implies !(promos@[k].active && #[trigger] before[k] && !promos@[k].stackable) by {
                        assert(out@[k] == before[k]);
                    }
                    assert(out@[j] == before[j]);
                } else {
                    if exists|k: int| 0 <= k < i && promos@[k].active && #[trigger] before[k] && !promos@[k].stackable {
                        let k = choose|k: int| 0 <= k < i && promos@[k].active && #[trigger] before[k] && !promos@[k].stackable;
                        assert(out@[k] == before[k]);
                    }
                }
            }
        }
        i = i + 1;
    }
    proof {
        let o = out@;
        assert forall|j: int|
            0 <= j < promos@.len() && promos@[j].active && (forall|k: int|
                0 <= k < j ==> !(promos@[k].active && #[trigger] o[k] && !promos@[k].stackable)) implies o[j]
            == full[j] by {}
        lemma_steps_agree(promos@, o, full, 0);
    }
    out
}

/// Plans a run of the waterfall: which promotions apply (active ones whose
/// condition is empty or holds, up to and including the first that does not
/// stack), which rules apply (those in scope for the request's channel and
/// segment whose condition is empty or holds), the
/// effect of each of their actions, and the floor and ceiling guards (the
/// last `set_floor` and `set_ceiling` values among the actions taken).
/// Promotion conditions are evaluated first, each only when the scan of
/// promotions reaches an active promotion; then every rule condition.
pub fn plan_waterfall(rules: &[PricingRule], promotions: &[Promotion], vars: &CelVars) -> (r: WaterfallPlan)
    ensures
        is_plan_for(r, rules@, promotions@, *vars),
{
    let promo_applies = promotion_conditions(promotions, vars);
    let mut rule_applies: Vec<bool> = Vec::new();
    let mut i: usize = 0;
    while i < rules.len()
        invariant
            i <= rules@.len(),
            rule_applies@ == rule_outcomes(rules@, *vars).take(i as int),
        decreases rules@.len() - i,
    {
        let holds = rule_takes_part(&rules[i], vars);
        rule_applies.push(holds);
        assert(rule_applies@ =~= rule_outcomes(rules@, *vars).take(i + 1));
        i = i + 1;
    }
    assert(rule_applies@ =~= rule_outcomes(rules@, *vars));
    let plan = plan_given(rules, promotions, rule_applies.as_slice(), promo_applies.as_slice());
    plan
}

} // verus!
