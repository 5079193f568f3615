use mcp_pricing::cel::{eval_cel, validate_cel, CelVars};
use mcp_pricing::scan::condition_supported;

fn vars(quantity: i64, channel: &str, country: &str) -> CelVars {
    CelVars::for_request(
        "RIDE-STD".to_string(),
        quantity,
        Some(channel.to_string()),
        Some("cust_1".to_string()),
        Some(country.to_string()),
        500,
        200,
        "transport".to_string(),
    )
}

#[test]
fn volume_condition() {
    assert!(eval_cel("item.quantity >= 10", &vars(12, "direct", "KE")));
    assert!(!eval_cel("item.quantity >= 10", &vars(9, "direct", "KE")));
}

#[test]
fn string_and_list_conditions() {
    assert!(eval_cel("customer.country in [\"KE\", \"TZ\", \"UG\", \"RW\"]", &vars(1, "direct", "TZ")));
    assert!(!eval_cel("customer.country in [\"KE\", \"TZ\"]", &vars(1, "direct", "US")));
    assert!(eval_cel("item.channel == \"marketplace\"", &vars(1, "marketplace", "KE")));
    assert!(eval_cel("catalog.category == \"transport\" && catalog.list_price > 100", &vars(1, "direct", "KE")));
    assert!(eval_cel("customer.id == \"cust_1\" && item.sku == \"RIDE-STD\"", &vars(1, "direct", "KE")));
    assert!(eval_cel("catalog.cost == 200 && customer.annual_spend == 0", &vars(1, "direct", "KE")));
    assert!(eval_cel("customer.segment == \"\"", &vars(1, "direct", "KE")));
}

#[test]
fn unparsable_condition_is_false() {
    assert!(!eval_cel("item.quantity >=", &vars(12, "direct", "KE")));
}

#[test]
fn non_boolean_result_is_false() {
    assert!(!eval_cel("item.quantity + 1", &vars(12, "direct", "KE")));
    assert!(!eval_cel("\"true\"", &vars(12, "direct", "KE")));
}

#[test]
fn evaluation_error_is_false() {
    assert!(!eval_cel("unknown_variable > 1", &vars(12, "direct", "KE")));
}

#[test]
fn validate_accepts_and_refuses() {
    assert_eq!(validate_cel("item.quantity >= 10"), Ok(()));
    let err = validate_cel("item.quantity >= ");
    assert!(err.is_err());
    assert!(!err.unwrap_err().is_empty());
}

#[test]
fn request_defaults() {
    let v = CelVars::for_request("A".to_string(), 3, None, None, None, 7, 2, "c".to_string());
    assert_eq!(v.channel, "direct");
    assert_eq!(v.country, "US");
    assert_eq!(v.customer_id, "");
    assert_eq!(v.segment, "");
    assert_eq!(v.annual_spend, 0);
    assert_eq!(v.quantity, 3);
    assert!(eval_cel("item.channel == \"direct\" && customer.country == \"US\"", &v));
}

#[test]
fn readme_conditions_are_supported() {
    assert!(condition_supported("item.quantity >= 10"));
    assert!(condition_supported("customer.segment == \"enterprise\" && item.channel == \"direct\""));
    assert!(condition_supported("customer.country in [\"KE\", \"TZ\", \"UG\", \"RW\"]"));
    assert!(condition_supported("catalog.category == \"SaaS\" && customer.annual_spend > 100000"));
    assert!(condition_supported("item.channel == 'marketplace'"));
    assert!(condition_supported("(item.quantity > -5 || !(item.sku == \"a/b*c\")) ? true : false"));
    assert!(condition_supported("true"));
}

#[test]
fn outside_the_fragment_is_not_supported() {
    assert!(!condition_supported("item.quantity * 2 > 10"));
    assert!(!condition_supported("item.quantity / 0 > 1"));
    assert!(!condition_supported("item.quantity % 0 == 1"));
    assert!(!condition_supported("item.quantity - 1 > 0"));
    assert!(!condition_supported("item.sku.map(x, x) == []"));
    assert!(!condition_supported("[1, 2].all(x, x > 0)"));
    assert!(!condition_supported("-item.quantity < 0"));
    assert!(!condition_supported("b\"abc\".contains(b\"\")"));
    assert!(!condition_supported("item.sku[0] == \"R\""));
    assert!(!condition_supported("item.quantity > 99999999999999999999"));
    assert!(!condition_supported("item.quantity > 0x7fffffffffffffff"));
    assert!(!condition_supported("item.sku == \"\\x\""));
    assert!(!condition_supported("item.sku == \"open"));
    assert!(!condition_supported("item.sku == \"\\u0041\""));
    assert!(!condition_supported("item.sku == \"\\q\""));
    assert!(!condition_supported("-0x1u > 0"));
    assert!(!condition_supported("item.sku.size()[0] == 1"));
}

#[test]
fn calls_escapes_comments_and_hex_are_supported() {
    assert!(condition_supported("size(item.sku) > 0"));
    assert!(condition_supported("item.sku.startsWith(\"A\") || has(item.sku)"));
    assert!(condition_supported("true // note"));
    assert!(condition_supported("item.sku == \"a\\n\\\"b\\x41\""));
    assert!(condition_supported("item.quantity < 0x7fffffffffffff"));
    assert!(condition_supported("item.sku.matches(r\"^R\\d+\")"));
    let v = vars(12, "direct", "KE");
    assert!(eval_cel("size(item.sku) == 8", &v));
    assert!(eval_cel("item.sku.size() == 8", &v));
    assert!(eval_cel("item.sku.startsWith(\"RIDE\") && item.sku.endsWith(\"STD\")", &v));
    assert!(eval_cel("item.sku.contains(\"-\") && [1, 2].contains(2)", &v));
    assert!(eval_cel("has(item.sku) && !has(item.color)", &v));
    assert!(eval_cel("int(\"12\") == item.quantity && string(item.quantity) == \"12\"", &v));
    assert!(eval_cel("double(item.quantity) > 11.5 && uint(item.quantity) == 12u", &v));
    assert!(eval_cel("max(1, item.quantity, 3) == 12 && min([4, 2, 9]) == 2", &v));
    assert!(eval_cel("item.sku.matches(r\"^RIDE-[A-Z]+$\")", &v));
    assert!(eval_cel("\"\\x41\" == \"A\"", &v));
    assert!(eval_cel("0x10 == 16 // sixteen\n && true", &v));
    assert!(eval_cel("item.quantity > 10 // volume\n", &v));
}

#[test]
fn unsupported_conditions_are_refused_not_evaluated() {
    let msg = "unsupported condition: arithmetic, indexing, collection macros, byte strings, deep nesting and literals the parser cannot convert are not evaluated";
    assert_eq!(validate_cel("item.quantity > 99999999999999999999"), Err(msg.to_string()));
    assert_eq!(validate_cel("item.sku == \"\\x\""), Err(msg.to_string()));
    assert_eq!(validate_cel("item.quantity / 0 > 1"), Err(msg.to_string()));
    assert_eq!(validate_cel("item.quantity * 2 > 10"), Err(msg.to_string()));
    assert_eq!(validate_cel("[1].map(x, x) == [1]"), Err(msg.to_string()));
    assert_eq!(validate_cel("size(item.sku) > 0"), Ok(()));
    assert_eq!(validate_cel("a(1)"), Err(msg.to_string()));
    assert!(!eval_cel("item.quantity / 0 > 1", &vars(12, "direct", "KE")));
    assert!(!eval_cel("item.quantity * 2 > 10", &vars(12, "direct", "KE")));
    assert!(!eval_cel("item.quantity > 99999999999999999999", &vars(12, "direct", "KE")));
}

#[test]
fn parse_errors_keep_the_parser_report() {
    let err = validate_cel("item.quantity >= ").unwrap_err();
    assert!(!err.starts_with("unsupported condition"));
}

#[test]
fn map_literals_and_ternary_evaluate() {
    assert!(eval_cel("item.channel in {\"direct\": 1, \"web\": 2}", &vars(1, "direct", "KE")));
    assert!(eval_cel("item.quantity > 5 ? customer.country == \"KE\" : false", &vars(6, "direct", "KE")));
    assert!(!eval_cel("item.quantity > 5 ? customer.country == \"KE\" : false", &vars(4, "direct", "KE")));
    assert!(eval_cel("item.quantity > -1", &vars(0, "direct", "KE")));
}


#[test]
fn depth_is_bounded_not_length() {
    let side = format!("{}1{}", "[".repeat(31), "]".repeat(31));
    let nested = format!("{} == {}", side, side);
    assert!(condition_supported(&nested));
    assert!(eval_cel(&nested, &vars(1, "direct", "KE")));
    let wider = format!("{}1{}", "[".repeat(32), "]".repeat(32));
    let deeper = format!("{} == {}", wider, wider);
    assert!(!condition_supported(&deeper));
    assert!(!eval_cel(&deeper, &vars(1, "direct", "KE")));
    let ors = format!("false{}", "||false".repeat(32));
    assert!(condition_supported(&ors));
    assert!(!eval_cel(&ors, &vars(1, "direct", "KE")));
    let codes: Vec<String> = (0..300).map(|i| format!("\"C{}\"", i)).collect();
    let flat = format!("customer.country in [{}, \"TZ\"]", codes.join(", "));
    assert!(condition_supported(&flat));
    assert!(eval_cel(&flat, &vars(1, "direct", "TZ")));
    assert!(!eval_cel(&flat, &vars(1, "direct", "KE")));
}
