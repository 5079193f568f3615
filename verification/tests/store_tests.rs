use mcp_pricing::cel::CelVars;
use mcp_pricing::inputs::{read_actions, ActionInput, AuditInput, ProductInput, PromoInput, RuleInput, SegmentInput};
use mcp_pricing::store::{draft_quote, QuoteTotals, Store};
use mcp_pricing::types::{Amount, PricingAction, PricingRule, Product, Promotion, QuoteLine};

fn amt(v: f64) -> Amount {
    Amount { bits: v.to_bits() }
}

fn is_fresh(id: &str, prefix: &str) -> bool {
    id.len() == prefix.len() + 8
        && id.starts_with(prefix)
        && id[prefix.len()..].chars().all(|c| c.is_ascii_digit() || ('a'..='f').contains(&c))
}

fn product(sku: &str, name: &str, price: f64) -> Product {
    Product {
        sku: sku.to_string(),
        name: name.to_string(),
        category: "transport".to_string(),
        list_price: amt(price),
        cost: amt(1.0),
        currency: "KES".to_string(),
        tags: vec![],
        attributes: vec![],
    }
}

fn rule(name: &str, priority: i32, active: bool) -> PricingRule {
    PricingRule {
        id: String::new(),
        name: name.to_string(),
        description: String::new(),
        priority,
        condition: String::new(),
        actions: vec![PricingAction { action_type: "pct_discount".to_string(), value: amt(10.0) }],
        segments: None,
        channels: None,
        tags: vec![],
        active,
        created_at: String::new(),
        updated_at: String::new(),
    }
}

fn rule_input(name: &str, condition: &str) -> RuleInput {
    RuleInput {
        name: name.to_string(),
        description: None,
        priority: None,
        condition: condition.to_string(),
        actions: vec![ActionInput { action_type: Some("pct_discount".to_string()), value: Some(amt(15.0)) }],
        segments: None,
        channels: None,
        tags: None,
        active: None,
    }
}

fn promo_input(name: &str, code: Option<&str>, condition: Option<&str>) -> PromoInput {
    PromoInput {
        name: name.to_string(),
        promo_type: "coupon".to_string(),
        code: code.map(|c| c.to_string()),
        discount_type: "pct".to_string(),
        discount_value: amt(20.0),
        condition: condition.map(|c| c.to_string()),
        max_uses: Some(1000),
        valid_from: None,
        valid_until: None,
        stackable: None,
    }
}

#[test]
fn new_store_is_empty() {
    let s = Store::new();
    assert!(s.products().is_empty());
    assert!(s.rules().is_empty());
    assert!(s.segments().is_empty());
    assert!(s.promotions().is_empty());
    assert!(s.audit().is_empty());
}

#[test]
fn read_after_upsert() {
    let mut s = Store::new();
    s.upsert_product(product("RIDE-STD", "Standard Ride", 500.0));
    let p = s.get_product("RIDE-STD").unwrap();
    assert_eq!(p.name, "Standard Ride");
    assert_eq!(p.list_price, amt(500.0));
    assert!(s.get_product("RIDE-XL").is_none());
}

#[test]
fn upsert_replaces_in_place() {
    let mut s = Store::new();
    s.upsert_product(product("A", "first", 1.0));
    s.upsert_product(product("B", "second", 2.0));
    s.upsert_product(product("A", "renamed", 3.0));
    assert_eq!(s.products().len(), 2);
    assert_eq!(s.products()[0].name, "renamed");
    assert_eq!(s.products()[1].name, "second");
    assert_eq!(s.get_product("A").unwrap().list_price, amt(3.0));
    assert_eq!(s.audit().len(), 3);
    let last = &s.audit()[2];
    assert_eq!(last.entity_type, "product");
    assert_eq!(last.entity_id, "A");
    assert_eq!(last.action, "upserted");
    assert_eq!(last.actor, "system");
    assert_eq!(last.details, vec![("name".to_string(), "renamed".to_string())]);
    assert!(is_fresh(&last.id, "aud_"));
}

#[test]
fn put_product_writes_no_audit() {
    let mut s = Store::new();
    s.put_product(product("A", "a", 1.0));
    assert_eq!(s.products().len(), 1);
    assert!(s.audit().is_empty());
}

#[test]
fn catalog_upsert_defaults() {
    let mut s = Store::new();
    s.catalog_upsert(ProductInput {
        sku: "SKU-1".to_string(),
        name: "Widget".to_string(),
        category: "outdoor".to_string(),
        list_price: amt(49.99),
        cost: amt(15.0),
        currency: None,
        tags: None,
    });
    let p = s.get_product("SKU-1").unwrap();
    assert_eq!(p.currency, "USD");
    assert!(p.tags.is_empty());
    assert!(p.attributes.is_empty());
    assert_eq!(p.list_price, amt(49.99));
}

#[test]
fn add_rule_assigns_fresh_id_and_logs() {
    let mut s = Store::new();
    let id = s.add_rule(rule("Volume", 100, true));
    assert!(is_fresh(&id, "rule_"));
    assert_eq!(s.rules()[0].id, id);
    assert_eq!(s.rules()[0].name, "Volume");
    assert_eq!(s.audit().len(), 1);
    assert_eq!(s.audit()[0].entity_type, "rule");
    assert_eq!(s.audit()[0].entity_id, id);
    assert_eq!(s.audit()[0].action, "created");
    assert_eq!(s.audit()[0].details, vec![("name".to_string(), "Volume".to_string())]);
}

#[test]
fn insert_rule_sets_given_stamps() {
    let mut s = Store::new();
    s.insert_rule(rule("r", 1, true), "rule_x".to_string(), "t1".to_string(), "t2".to_string());
    assert_eq!(s.rules()[0].id, "rule_x");
    assert_eq!(s.rules()[0].created_at, "t1");
    assert_eq!(s.rules()[0].updated_at, "t2");
    assert!(s.audit().is_empty());
}

#[test]
fn active_rules_sorted_by_priority_stably() {
    let mut s = Store::new();
    s.insert_rule(rule("low-a", 50, true), "1".to_string(), String::new(), String::new());
    s.insert_rule(rule("high", 10, true), "2".to_string(), String::new(), String::new());
    s.insert_rule(rule("off", 1, false), "3".to_string(), String::new(), String::new());
    s.insert_rule(rule("low-b", 50, true), "4".to_string(), String::new(), String::new());
    s.insert_rule(rule("mid", 20, true), "5".to_string(), String::new(), String::new());
    let names: Vec<&str> = s.get_active_rules().iter().map(|r| r.name.as_str()).collect();
    assert_eq!(names, vec!["high", "mid", "low-a", "low-b"]);
}

#[test]
fn activation_takes_effect() {
    let mut s = Store::new();
    let id = s.add_rule(rule("r", 5, false));
    assert!(s.get_active_rules().is_empty());
    assert!(s.set_rule_active(&id, true));
    assert_eq!(s.get_active_rules().len(), 1);
    assert_eq!(s.get_active_rules()[0].id, id);
    assert_eq!(s.audit().last().unwrap().action, "activated");
    assert_eq!(s.audit().last().unwrap().entity_id, id);
    assert!(s.audit().last().unwrap().details.is_empty());
    assert!(s.set_rule_active(&id, false));
    assert!(s.get_active_rules().is_empty());
    assert_eq!(s.audit().last().unwrap().action, "deactivated");
    assert_eq!(s.audit().len(), 3);
}

#[test]
fn unknown_rule_is_not_found() {
    let mut s = Store::new();
    s.add_rule(rule("r", 5, false));
    assert!(!s.set_rule_active("rule_missing", true));
    assert_eq!(s.audit().len(), 1);
    assert!(!s.rules()[0].active);
}

#[test]
fn mark_rule_sets_flag_and_time() {
    let mut s = Store::new();
    s.insert_rule(rule("a", 1, false), "dup".to_string(), String::new(), String::new());
    s.insert_rule(rule("b", 1, false), "dup".to_string(), String::new(), String::new());
    assert!(s.mark_rule("dup", true, "now".to_string()));
    assert!(s.rules()[0].active);
    assert_eq!(s.rules()[0].updated_at, "now");
    assert!(!s.rules()[1].active);
    assert!(s.audit().is_empty());
}

#[test]
fn create_rule_defaults() {
    let mut s = Store::new();
    let id = s.create_rule(rule_input("Volume discount 10+", "item.quantity >= 10")).unwrap();
    assert!(is_fresh(&id, "rule_"));
    let r = &s.rules()[0];
    assert_eq!(r.priority, 100);
    assert!(!r.active);
    assert_eq!(r.description, "");
    assert!(r.tags.is_empty());
    assert_eq!(r.actions.len(), 1);
    assert_eq!(r.condition, "item.quantity >= 10");
}

#[test]
fn create_rule_refuses_bad_condition() {
    let mut s = Store::new();
    let r = s.create_rule(rule_input("bad", "item.quantity >="));
    assert!(r.is_err());
    assert!(s.rules().is_empty());
    assert!(s.audit().is_empty());
}

#[test]
fn create_segment_defaults_and_refusal() {
    let mut s = Store::new();
    let id = s
        .create_segment(SegmentInput {
            name: "Enterprise".to_string(),
            condition: "customer.annual_spend > 100000".to_string(),
            priority: None,
            discount_pct: None,
        })
        .unwrap();
    assert!(is_fresh(&id, "seg_"));
    let seg = &s.segments()[0];
    assert_eq!(seg.id, id);
    assert_eq!(seg.priority, 100);
    assert_eq!(seg.discount_pct, Amount::zero());
    assert_eq!(s.audit()[0].entity_type, "segment");
    let bad = s.create_segment(SegmentInput {
        name: "x".to_string(),
        condition: "((".to_string(),
        priority: Some(1),
        discount_pct: Some(amt(5.0)),
    });
    assert!(bad.is_err());
    assert_eq!(s.segments().len(), 1);
}

#[test]
fn create_promotion_defaults() {
    let mut s = Store::new();
    let id = s.create_promotion(promo_input("Launch 20% Off", Some("LAUNCH20"), None)).unwrap();
    assert!(is_fresh(&id, "promo_"));
    let p = &s.promotions()[0];
    assert!(p.active);
    assert!(!p.stackable);
    assert_eq!(p.uses, 0);
    assert_eq!(p.condition, "");
    assert_eq!(p.valid_until, "2099-12-31T23:59:59Z");
    assert!(!p.valid_from.is_empty());
    assert_eq!(p.max_uses, Some(1000));
}

#[test]
fn create_promotion_checks_non_empty_condition() {
    let mut s = Store::new();
    assert!(s.create_promotion(promo_input("ok", None, Some(""))).is_ok());
    assert!(s.create_promotion(promo_input("ok2", None, Some("item.channel == \"direct\""))).is_ok());
    assert!(s.create_promotion(promo_input("bad", None, Some("item.channel =="))).is_err());
    assert_eq!(s.promotions().len(), 2);
}

#[test]
fn active_promotions_in_order() {
    let mut s = Store::new();
    let a = s.create_promotion(promo_input("a", None, None)).unwrap();
    let mut off: Promotion = s.promotions()[0].clone();
    off.active = false;
    off.name = "off".to_string();
    s.insert_promotion(off, "promo_off".to_string());
    let c = s.create_promotion(promo_input("c", None, None)).unwrap();
    let ids: Vec<&str> = s.get_active_promotions().iter().map(|p| p.id.as_str()).collect();
    assert_eq!(ids, vec![a.as_str(), c.as_str()]);
}

#[test]
fn promotion_found_by_code_or_id() {
    let mut s = Store::new();
    let id = s.create_promotion(promo_input("Launch", Some("LAUNCH20"), None)).unwrap();
    assert_eq!(s.find_active_promotion("LAUNCH20").unwrap().id, id);
    assert_eq!(s.find_active_promotion(&id).unwrap().name, "Launch");
    assert!(s.find_active_promotion("NOPE").is_none());
}

#[test]
fn first_named_promotion_decides() {
    let mut s = Store::new();
    let mut inactive = Promotion {
        id: String::new(),
        name: "old".to_string(),
        promo_type: "coupon".to_string(),
        code: Some("SAVE".to_string()),
        discount_type: "pct".to_string(),
        discount_value: amt(5.0),
        condition: String::new(),
        max_uses: None,
        uses: 0,
        valid_from: String::new(),
        valid_until: String::new(),
        stackable: false,
        active: false,
    };
    s.insert_promotion(inactive.clone(), "promo_old".to_string());
    inactive.active = true;
    inactive.name = "new".to_string();
    s.insert_promotion(inactive, "promo_new".to_string());
    assert!(s.find_active_promotion("SAVE").is_none());
    assert_eq!(s.find_active_promotion("promo_new").unwrap().name, "new");
}

fn line(sku: &str) -> QuoteLine {
    QuoteLine {
        sku: sku.to_string(),
        quantity: amt(5.0),
        list_price: amt(500.0),
        net_price: amt(425.0),
        discount: amt(75.0),
        tax: amt(0.0),
        applied_rules: vec![],
    }
}

fn totals() -> QuoteTotals {
    QuoteTotals {
        total_list: amt(2500.0),
        total_net: amt(2125.0),
        total_discount: amt(375.0),
        total_tax: amt(0.0),
    }
}

#[test]
fn draft_quote_defaults() {
    let q = draft_quote("cust_james".to_string(), vec![line("RIDE-STD")], None, totals(), "later".to_string(), None);
    assert_eq!(q.status, "draft");
    assert_eq!(q.currency, "USD");
    assert_eq!(q.notes, "");
    assert_eq!(q.id, "");
    assert_eq!(q.created_at, "");
    assert_eq!(q.total_net, amt(2125.0));
    let q = draft_quote(
        "c".to_string(),
        vec![],
        Some("KES".to_string()),
        totals(),
        "later".to_string(),
        Some("Corporate account pricing".to_string()),
    );
    assert_eq!(q.currency, "KES");
    assert_eq!(q.notes, "Corporate account pricing");
}

#[test]
fn quote_lifecycle() {
    let mut s = Store::new();
    let q = draft_quote("cust_james".to_string(), vec![line("RIDE-STD")], None, totals(), "later".to_string(), None);
    let id = s.create_quote(q);
    assert!(is_fresh(&id, "qt_"));
    let stored = s.get_quote(&id).unwrap();
    assert_eq!(stored.status, "draft");
    assert_eq!(stored.customer_id, "cust_james");
    assert!(!stored.created_at.is_empty());
    assert_eq!(s.audit()[0].details, vec![("customer".to_string(), "cust_james".to_string())]);
    assert!(s.approve_quote(&id));
    assert_eq!(s.get_quote(&id).unwrap().status, "approved");
    assert_eq!(s.audit().len(), 2);
    assert_eq!(s.audit()[1].action, "approved");
    assert_eq!(s.audit()[1].entity_id, id);
    assert!(!s.approve_quote("qt_missing"));
    assert_eq!(s.audit().len(), 2);
    assert!(s.get_quote("qt_missing").is_none());
}

#[test]
fn put_quote_replaces_same_id() {
    let mut s = Store::new();
    let mut q = draft_quote("a".to_string(), vec![], None, totals(), String::new(), None);
    q.id = "qt_1".to_string();
    s.put_quote(q.clone());
    q.customer_id = "b".to_string();
    s.put_quote(q);
    assert_eq!(s.get_quote("qt_1").unwrap().customer_id, "b");
    assert!(s.mark_quote_approved("qt_1"));
    assert_eq!(s.get_quote("qt_1").unwrap().status, "approved");
    assert!(s.audit().is_empty());
}

#[test]
fn audit_log_newest_first_filtered_and_limited() {
    let mut s = Store::new();
    s.upsert_product(product("A", "a", 1.0));
    let r = s.add_rule(rule("r", 1, false));
    s.upsert_product(product("B", "b", 1.0));
    s.set_rule_active(&r, true);
    s.upsert_product(product("A", "a2", 1.0));

    let all = s.audit_log(&AuditInput { entity_type: None, entity_id: None, limit: None });
    let actions: Vec<&str> = all.iter().map(|e| e.action.as_str()).collect();
    assert_eq!(actions, vec!["upserted", "activated", "upserted", "created", "upserted"]);

    let products = s.audit_log(&AuditInput { entity_type: Some("product".to_string()), entity_id: None, limit: None });
    let ids: Vec<&str> = products.iter().map(|e| e.entity_id.as_str()).collect();
    assert_eq!(ids, vec!["A", "B", "A"]);

    let a_only = s.audit_log(&AuditInput {
        entity_type: Some("product".to_string()),
        entity_id: Some("A".to_string()),
        limit: Some(1),
    });
    assert_eq!(a_only.len(), 1);
    assert_eq!(a_only[0].details, vec![("name".to_string(), "a2".to_string())]);

    let none = s.audit_log(&AuditInput { entity_type: None, entity_id: None, limit: Some(0) });
    assert!(none.is_empty());

    let rule_entries = s.query_audit(Some("rule"), Some(&r), None);
    assert_eq!(rule_entries.len(), 2);
}

#[test]
fn audit_log_default_limit_is_fifty() {
    let mut s = Store::new();
    for i in 0..60 {
        s.upsert_product(product(&format!("P{}", i), "p", 1.0));
    }
    let entries = s.audit_log(&AuditInput { entity_type: None, entity_id: None, limit: None });
    assert_eq!(entries.len(), 50);
    assert_eq!(entries[0].entity_id, "P59");
    assert_eq!(entries[49].entity_id, "P10");
}

#[test]
fn audit_is_append_only() {
    let mut s = Store::new();
    s.upsert_product(product("A", "a", 1.0));
    let first = s.audit()[0].clone();
    s.add_rule(rule("r", 1, true));
    s.upsert_product(product("A", "b", 2.0));
    assert_eq!(s.audit().len(), 3);
    assert_eq!(s.audit()[0].id, first.id);
    assert_eq!(s.audit()[0].details, first.details);
}

#[test]
fn log_audit_at_is_exact() {
    let mut s = Store::new();
    s.log_audit_at("0123abcd", "2026-01-01T00:00:00Z".to_string(), "rule", "rule_1", "created", "me", vec![]);
    let e = &s.audit()[0];
    assert_eq!(e.id, "aud_0123abcd");
    assert_eq!(e.timestamp, "2026-01-01T00:00:00Z");
    assert_eq!(e.actor, "me");
}

#[test]
fn actions_without_type_or_value_are_dropped() {
    let raw = vec![
        ActionInput { action_type: Some("set_floor".to_string()), value: Some(amt(100.0)) },
        ActionInput { action_type: None, value: Some(amt(1.0)) },
        ActionInput { action_type: Some("markup_pct".to_string()), value: None },
        ActionInput { action_type: Some("markup_pct".to_string()), value: Some(amt(20.0)) },
    ];
    let kept = read_actions(&raw);
    assert_eq!(kept.len(), 2);
    assert_eq!(kept[0].action_type, "set_floor");
    assert_eq!(kept[0].value, amt(100.0));
    assert_eq!(kept[1].action_type, "markup_pct");
    assert_eq!(kept[1].value, amt(20.0));
}

fn coupon(code: &str, valid_from: &str, valid_until: &str, max_uses: Option<u32>, uses: u32) -> Promotion {
    Promotion {
        id: String::new(),
        name: code.to_string(),
        promo_type: "coupon".to_string(),
        code: Some(code.to_string()),
        discount_type: "pct".to_string(),
        discount_value: amt(10.0),
        condition: String::new(),
        max_uses,
        uses,
        valid_from: valid_from.to_string(),
        valid_until: valid_until.to_string(),
        stackable: false,
        active: true,
    }
}

#[test]
fn expired_coupon_is_not_honoured() {
    let mut s = Store::new();
    let mut input = promo_input("Old", Some("OLD10"), None);
    input.valid_until = Some("2000-01-01T00:00:00Z".to_string());
    s.create_promotion(input).unwrap();
    assert!(s.find_active_promotion("OLD10").is_none());
    assert!(s.find_promotion_in_force("OLD10", 1_700_000_000).is_none());
}

#[test]
fn promotion_window_and_use_limit() {
    let mut s = Store::new();
    s.insert_promotion(coupon("LATER", "2030-01-01T00:00:00Z", "2031-01-01T00:00:00+02:00", None, 0), "promo_a".to_string());
    s.insert_promotion(coupon("USED", "2020-01-01T00:00:00Z", "2099-12-31T23:59:59Z", Some(3), 3), "promo_b".to_string());
    s.insert_promotion(coupon("FREE", "not a date", "2099-12-31T23:59:59Z", Some(3), 2), "promo_c".to_string());
    assert!(s.find_promotion_in_force("LATER", 1_800_000_000).is_none());
    assert!(s.find_promotion_in_force("LATER", 1_893_456_000).is_some());
    assert!(s.find_promotion_in_force("LATER", 1_924_984_800).is_some());
    assert!(s.find_promotion_in_force("LATER", 1_924_984_801).is_none());
    assert!(s.find_promotion_in_force("USED", 1_700_000_000).is_none());
    assert_eq!(s.find_promotion_in_force("FREE", 1_700_000_000).unwrap().id, "promo_c");
    assert!(s.find_active_promotion("USED").is_none());
    assert!(s.find_active_promotion("FREE").is_some());
}

#[test]
fn timestamps_are_utc_clock_readings() {
    let mut s = Store::new();
    let id = s.add_rule(rule("r", 1, false));
    assert!(s.rules()[0].created_at.ends_with("+00:00"));
    assert!(s.rules()[0].updated_at.ends_with("+00:00"));
    assert!(s.audit()[0].timestamp.ends_with("+00:00"));
    assert!(s.set_rule_active(&id, true));
    assert!(s.rules()[0].updated_at.ends_with("+00:00"));
    let p = s.create_promotion(promo_input("p", None, None)).unwrap();
    assert_eq!(s.promotions()[0].id, p);
    assert!(s.promotions()[0].valid_from.ends_with("+00:00"));
}

#[test]
fn approving_twice_changes_nothing_more() {
    let mut s = Store::new();
    let q = draft_quote("c".to_string(), vec![line("A")], None, totals(), "later".to_string(), None);
    let id = s.create_quote(q);
    assert!(s.approve_quote(&id));
    let once = s.get_quote(&id).unwrap().clone();
    assert!(s.approve_quote(&id));
    let twice = s.get_quote(&id).unwrap();
    assert_eq!(twice.status, once.status);
    assert_eq!(twice.total_net, once.total_net);
    assert_eq!(twice.lines.len(), once.lines.len());
    assert_eq!(twice.created_at, once.created_at);
    assert_eq!(s.audit().len(), 3);
    assert_eq!(s.audit()[2].action, "approved");
}

#[test]
fn activate_then_deactivate_restores_pricing() {
    let mut s = Store::new();
    s.add_rule(rule("on", 5, true));
    let id = s.add_rule(rule("off", 1, false));
    let before: Vec<String> = s.get_active_rules().iter().map(|r| r.id.clone()).collect();
    assert!(s.set_rule_active(&id, true));
    assert_eq!(s.get_active_rules().len(), 2);
    assert!(s.set_rule_active(&id, false));
    let after: Vec<String> = s.get_active_rules().iter().map(|r| r.id.clone()).collect();
    assert_eq!(before, after);
    let n = s.audit().len();
    assert_eq!(s.audit()[n - 2].action, "activated");
    assert_eq!(s.audit()[n - 1].action, "deactivated");
}

#[test]
fn quote_prices_stay_locked() {
    let mut s = Store::new();
    s.upsert_product(product("A", "a", 100.0));
    let q = draft_quote("c".to_string(), vec![line("A")], None, totals(), "later".to_string(), None);
    let id = s.create_quote(q);
    let locked = s.get_quote(&id).unwrap().clone();
    s.upsert_product(product("A", "a", 250.0));
    s.create_rule(rule_input("r", "true")).unwrap();
    s.create_promotion(promo_input("p", None, None)).unwrap();
    let now = s.get_quote(&id).unwrap();
    assert_eq!(now.total_net, locked.total_net);
    assert_eq!(now.total_list, locked.total_list);
    assert_eq!(now.lines[0].net_price, locked.lines[0].net_price);
    assert_eq!(now.status, locked.status);
}

#[test]
fn quote_items_keep_known_skus_with_default_quantity() {
    let mut s = Store::new();
    s.upsert_product(product("A", "a", 10.0));
    s.upsert_product(product("B", "b", 20.0));
    let items = vec![
        ("B".to_string(), Some(amt(3.0))),
        ("X".to_string(), Some(amt(1.0))),
        ("A".to_string(), None),
        (String::new(), None),
    ];
    let sel = s.select_quote_items(&items);
    assert_eq!(sel.len(), 2);
    assert_eq!(sel[0].0.sku, "B");
    assert_eq!(sel[0].1, amt(3.0));
    assert_eq!(sel[1].0.sku, "A");
    assert_eq!(sel[1].1, amt(1.0));
}

#[test]
fn pricing_inputs_resolve_segment_lists_and_tax() {
    let mut s = Store::new();
    s.add_rule(rule("b", 20, true));
    s.add_rule(rule("a", 10, true));
    s.add_rule(rule("off", 1, false));
    s.create_promotion(promo_input("p", None, None)).unwrap();
    s.create_segment(SegmentInput {
        name: "Kenya".to_string(),
        condition: "customer.country == \"KE\"".to_string(),
        priority: None,
        discount_pct: Some(amt(5.0)),
    })
    .unwrap();
    let vars = CelVars::for_request("A".to_string(), 1, None, None, Some("KE".to_string()), 10, 1, "c".to_string());
    let inputs = s.pricing_inputs(vars, "ke");
    assert_eq!(inputs.vars.segment, "Kenya");
    assert_eq!(inputs.vars.segment_id, s.segments()[0].id);
    assert_eq!(inputs.segment_discount, amt(5.0));
    let names: Vec<&str> = inputs.rules.iter().map(|r| r.name.as_str()).collect();
    assert_eq!(names, vec!["a", "b"]);
    assert_eq!(inputs.promotions.len(), 1);
    assert_eq!(inputs.tax_rate, 1600);
    let other = CelVars::for_request("A".to_string(), 1, None, None, Some("US".to_string()), 10, 1, "c".to_string());
    let again = s.pricing_inputs(other, "US");
    assert_eq!(again.vars.segment, "");
    assert_eq!(again.segment_discount, amt(0.0));
    assert_eq!(again.tax_rate, 500);
}
