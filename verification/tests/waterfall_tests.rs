use mcp_pricing::cel::CelVars;
use mcp_pricing::types::{Amount, PricingAction, PricingRule, Promotion};
use mcp_pricing::waterfall::{
    action_effect, plan_given, plan_waterfall, promo_discount, resolve_segment, PriceEffect, PromoDiscount,
    PromotionStep,
};

fn amt(v: f64) -> Amount {
    Amount { bits: v.to_bits() }
}

fn rule(name: &str, condition: &str, actions: &[(&str, f64)]) -> PricingRule {
    PricingRule {
        id: format!("rule_{}", name),
        name: name.to_string(),
        description: String::new(),
        priority: 100,
        condition: condition.to_string(),
        actions: actions
            .iter()
            .map(|(t, v)| PricingAction { action_type: t.to_string(), value: amt(*v) })
            .collect(),
        segments: None,
        channels: None,
        tags: vec![],
        active: true,
        created_at: String::new(),
        updated_at: String::new(),
    }
}

fn promo(name: &str, condition: &str, discount_type: &str, stackable: bool, active: bool) -> Promotion {
    Promotion {
        id: format!("promo_{}", name),
        name: name.to_string(),
        promo_type: "coupon".to_string(),
        code: None,
        discount_type: discount_type.to_string(),
        discount_value: amt(10.0),
        condition: condition.to_string(),
        max_uses: None,
        uses: 0,
        valid_from: String::new(),
        valid_until: String::new(),
        stackable,
        active,
    }
}

fn vars(quantity: i64) -> CelVars {
    CelVars::for_request("SKU".to_string(), quantity, None, None, Some("KE".to_string()), 500, 200, "transport".to_string())
}

#[test]
fn action_types_map_to_effects() {
    assert_eq!(action_effect("pct_discount"), PriceEffect::PctDiscount);
    assert_eq!(action_effect("absolute_discount"), PriceEffect::AbsoluteDiscount);
    assert_eq!(action_effect("markup_pct"), PriceEffect::MarkupPct);
    assert_eq!(action_effect("set_price"), PriceEffect::SetPrice);
    assert_eq!(action_effect("multiply_price"), PriceEffect::MultiplyPrice);
    assert_eq!(action_effect("set_floor"), PriceEffect::SetFloor);
    assert_eq!(action_effect("set_ceiling"), PriceEffect::SetCeiling);
    assert_eq!(action_effect("bogus"), PriceEffect::NoEffect);
    assert_eq!(action_effect("PCT_DISCOUNT"), PriceEffect::NoEffect);
}

#[test]
fn promotion_types_map_to_discounts() {
    assert_eq!(promo_discount("pct"), PromoDiscount::Pct);
    assert_eq!(promo_discount("absolute"), PromoDiscount::Absolute);
    assert_eq!(promo_discount("free_item"), PromoDiscount::NoChange);
}

#[test]
fn rules_apply_by_condition() {
    let rules = vec![
        rule("volume", "item.quantity >= 10", &[("pct_discount", 15.0)]),
        rule("never", "item.quantity > 1000", &[("set_price", 1.0)]),
        rule("always", "", &[("markup_pct", 5.0), ("bogus", 3.0)]),
    ];
    let plan = plan_waterfall(&rules, &[], &vars(12));
    assert_eq!(plan.rules.len(), 2);
    assert_eq!(plan.rules[0].index, 0);
    assert_eq!(plan.rules[0].effects, vec![PriceEffect::PctDiscount]);
    assert_eq!(plan.rules[1].index, 2);
    assert_eq!(plan.rules[1].effects, vec![PriceEffect::MarkupPct, PriceEffect::NoEffect]);
    assert_eq!(plan.floor, None);
    assert_eq!(plan.ceiling, None);
    assert!(plan.promotions.is_empty());

    let plan = plan_waterfall(&rules, &[], &vars(3));
    assert_eq!(plan.rules.len(), 1);
    assert_eq!(plan.rules[0].index, 2);
}

#[test]
fn last_floor_and_ceiling_win() {
    let rules = vec![
        rule("a", "", &[("set_floor", 100.0), ("set_ceiling", 900.0)]),
        rule("b", "item.quantity > 1000", &[("set_floor", 1.0)]),
        rule("c", "true", &[("set_floor", 150.0), ("set_floor", 120.0)]),
    ];
    let plan = plan_waterfall(&rules, &[], &vars(1));
    assert_eq!(plan.floor, Some(amt(120.0)));
    assert_eq!(plan.ceiling, Some(amt(900.0)));
}

#[test]
fn invalid_rule_condition_does_not_apply() {
    let rules = vec![rule("broken", "item.quantity >=", &[("set_price", 1.0)])];
    let plan = plan_waterfall(&rules, &[], &vars(1));
    assert!(plan.rules.is_empty());
}

#[test]
fn non_stackable_promotion_ends_the_scan() {
    let promos = vec![
        promo("inactive", "", "pct", true, false),
        promo("stack", "", "absolute", true, true),
        promo("mismatch", "item.quantity > 100", "pct", false, true),
        promo("stop", "item.quantity >= 1", "pct", false, true),
        promo("after", "", "pct", true, true),
    ];
    let plan = plan_waterfall(&[], &promos, &vars(5));
    assert_eq!(
        plan.promotions,
        vec![
            PromotionStep { index: 1, discount: PromoDiscount::Absolute },
            PromotionStep { index: 3, discount: PromoDiscount::Pct },
        ]
    );
}

#[test]
fn stackable_promotions_all_apply() {
    let promos = vec![
        promo("a", "", "pct", true, true),
        promo("b", "", "free_item", true, true),
    ];
    let plan = plan_waterfall(&[], &promos, &vars(5));
    assert_eq!(
        plan.promotions,
        vec![
            PromotionStep { index: 0, discount: PromoDiscount::Pct },
            PromotionStep { index: 1, discount: PromoDiscount::NoChange },
        ]
    );
}

#[test]
fn plan_is_deterministic() {
    let rules = vec![rule("a", "item.quantity >= 2", &[("set_floor", 3.0)])];
    let promos = vec![promo("p", "", "pct", false, true)];
    let a = plan_waterfall(&rules, &promos, &vars(4));
    let b = plan_waterfall(&rules, &promos, &vars(4));
    assert_eq!(a.promotions, b.promotions);
    assert_eq!(a.rules.len(), b.rules.len());
    assert_eq!(a.rules[0].index, b.rules[0].index);
    assert_eq!(a.rules[0].effects, b.rules[0].effects);
    assert_eq!(a.floor, b.floor);
    assert_eq!(a.ceiling, b.ceiling);
}

#[test]
fn quick_start_volume_rule_applies_at_twelve() {
    let rules = vec![rule("Volume discount 10+", "item.quantity >= 10", &[("pct_discount", 15.0)])];
    let vars = CelVars::for_request(
        "RIDE-STD".to_string(),
        12,
        None,
        None,
        Some("KE".to_string()),
        500,
        200,
        "transport".to_string(),
    );
    let plan = plan_waterfall(&rules, &[], &vars);
    assert_eq!(plan.rules.len(), 1);
    assert_eq!(plan.rules[0].effects, vec![PriceEffect::PctDiscount]);
    assert_eq!(mcp_pricing::tax::get_tax_rate(&vars.country, None), 1600);
}

#[test]
fn plan_from_given_outcomes() {
    let rules = vec![
        rule("a", "ignored", &[("set_ceiling", 50.0)]),
        rule("b", "ignored", &[("multiply_price", 1.5), ("set_ceiling", 40.0)]),
        rule("c", "ignored", &[("set_ceiling", 30.0)]),
    ];
    let promos = vec![
        promo("p0", "ignored", "pct", true, true),
        promo("p1", "ignored", "absolute", false, false),
        promo("p2", "ignored", "absolute", false, true),
        promo("p3", "ignored", "pct", true, true),
    ];
    let plan = plan_given(&rules, &promos, &[true, true, false], &[true, true, true, true]);
    assert_eq!(
        plan.promotions,
        vec![
            PromotionStep { index: 0, discount: PromoDiscount::Pct },
            PromotionStep { index: 2, discount: PromoDiscount::Absolute },
        ]
    );
    assert_eq!(plan.rules.len(), 2);
    assert_eq!(plan.rules[1].effects, vec![PriceEffect::MultiplyPrice, PriceEffect::SetCeiling]);
    assert_eq!(plan.ceiling, Some(amt(40.0)));
    assert_eq!(plan.floor, None);
}

#[test]
fn channel_limited_rule_applies_only_on_its_channels() {
    let mut r = rule("mkt", "true", &[("pct_discount", 10.0)]);
    r.channels = Some(vec!["marketplace".to_string()]);
    let rules = vec![r];
    let direct = CelVars::for_request("P".to_string(), 1, Some("direct".to_string()), None, Some("XX".to_string()), 100, 10, "c".to_string());
    let market = CelVars::for_request("P".to_string(), 1, Some("marketplace".to_string()), None, Some("XX".to_string()), 100, 10, "c".to_string());
    assert!(plan_waterfall(&rules, &[], &direct).rules.is_empty());
    let plan = plan_waterfall(&rules, &[], &market);
    assert_eq!(plan.rules.len(), 1);
    assert_eq!(plan.rules[0].index, 0);
}

#[test]
fn segment_limited_rule_needs_the_segment() {
    let mut limited = rule("ent", "", &[("pct_discount", 10.0)]);
    limited.segments = Some(vec!["enterprise".to_string()]);
    let mut open = rule("any", "", &[("markup_pct", 5.0)]);
    open.segments = Some(vec!["".to_string(), "enterprise".to_string()]);
    let rules = vec![limited, open];
    let plan = plan_waterfall(&rules, &[], &vars(1));
    assert_eq!(plan.rules.len(), 1);
    assert_eq!(plan.rules[0].index, 1);
}

fn segment(id: &str, condition: &str, priority: i32) -> mcp_pricing::types::Segment {
    mcp_pricing::types::Segment {
        id: id.to_string(),
        name: format!("{}-name", id),
        condition: condition.to_string(),
        priority,
        discount_pct: amt(5.0),
        metadata: vec![],
    }
}

#[test]
fn segment_of_lowest_priority_that_applies() {
    let segs = vec![
        segment("seg_big", "item.quantity >= 100", 1),
        segment("seg_kenya", "customer.country == \"KE\"", 50),
        segment("seg_all", "", 50),
        segment("seg_late", "true", 10),
    ];
    assert_eq!(resolve_segment(&segs, &vars(1)), Some(3));
    assert_eq!(resolve_segment(&segs, &vars(150)), Some(0));
    assert_eq!(resolve_segment(&segs[1..3], &vars(1)), Some(0));
    assert_eq!(resolve_segment(&segs[..1], &vars(1)), None);
    assert_eq!(resolve_segment(&[], &vars(1)), None);
}

#[test]
fn resolved_segment_feeds_conditions_and_limits() {
    let segs = vec![segment("seg_ngo", "customer.country == \"KE\"", 1)];
    let i = resolve_segment(&segs, &vars(1)).unwrap();
    let v = vars(1).with_segment(segs[i].id.clone(), segs[i].name.clone());
    let mut limited = rule("ngo", "customer.segment == \"seg_ngo-name\"", &[("pct_discount", 30.0)]);
    limited.segments = Some(vec!["seg_ngo".to_string()]);
    let rules = vec![limited];
    assert_eq!(plan_waterfall(&rules, &[], &v).rules.len(), 1);
    assert!(plan_waterfall(&rules, &[], &vars(1)).rules.is_empty());
}
