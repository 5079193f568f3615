use mcp_pricing::tax::{get_tax_rate, tax_rate_for_code};

#[test]
fn kenya_rate_is_sixteen_percent() {
    assert_eq!(get_tax_rate("KE", None), 1600);
}

#[test]
fn country_code_is_upper_cased_first() {
    assert_eq!(get_tax_rate("ke", None), 1600);
    assert_eq!(get_tax_rate("gb", None), 2000);
}

#[test]
fn code_lookup_expects_upper_case() {
    assert_eq!(tax_rate_for_code("ke", None), 0);
    assert_eq!(tax_rate_for_code("KE", None), 1600);
}

#[test]
fn us_rates_by_state() {
    assert_eq!(get_tax_rate("US", Some("CA")), 725);
    assert_eq!(get_tax_rate("US", Some("TX")), 625);
    assert_eq!(get_tax_rate("US", Some("NY")), 800);
    assert_eq!(get_tax_rate("US", Some("FL")), 600);
    assert_eq!(get_tax_rate("US", Some("WA")), 500);
    assert_eq!(get_tax_rate("US", None), 500);
}

#[test]
fn us_state_is_matched_as_given() {
    assert_eq!(get_tax_rate("US", Some("ca")), 500);
}

#[test]
fn state_is_ignored_outside_the_us() {
    assert_eq!(get_tax_rate("KE", Some("CA")), 1600);
}

#[test]
fn table_rates() {
    let cases: [(&str, u32); 30] = [
        ("NG", 750), ("ZA", 1500), ("GH", 1500), ("TZ", 1800), ("UG", 1800),
        ("GB", 2000), ("UK", 2000), ("DE", 1900), ("FR", 2000), ("IT", 2200),
        ("ES", 2100), ("NL", 2100), ("SE", 2500), ("NO", 2500), ("DK", 2500),
        ("CH", 810), ("IE", 2300), ("AU", 1000), ("NZ", 1500), ("IN", 1800),
        ("JP", 1000), ("KR", 1000), ("SG", 900), ("CN", 1300), ("BR", 1700),
        ("MX", 1600), ("AE", 500), ("SA", 500), ("CA", 500), ("KE", 1600),
    ];
    for (code, rate) in cases.iter() {
        assert_eq!(get_tax_rate(code, None), *rate, "{}", code);
    }
}

#[test]
fn unknown_countries_pay_nothing() {
    assert_eq!(get_tax_rate("XX", None), 0);
    assert_eq!(get_tax_rate("KEN", None), 0);
    assert_eq!(get_tax_rate("", None), 0);
    assert_eq!(get_tax_rate("K", None), 0);
}

#[test]
fn rwanda_is_charged_eighteen_percent() {
    assert_eq!(mcp_pricing::tax::get_tax_rate("RW", None), 1800);
    assert_eq!(mcp_pricing::tax::get_tax_rate("rw", None), 1800);
}
