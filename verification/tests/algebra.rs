use cloudflare_executor::errors::ServerError;
use cloudflare_executor::models::{Filter, FilterType};

#[test]
fn test_form_firewall_filter_expression() {
    assert_eq!(
        Filter::new(
            Some(String::from("192.168.0.1")),
            Some(String::from(
                "Mozilla/5.0 (Macintosh; Intel Mac OS X 10_15_7)"
            ))
        ).unwrap().expression,
        String::from("(ip.src eq 192.168.0.1 and http.user_agent eq \"Mozilla/5.0 (Macintosh; Intel Mac OS X 10_15_7)\")")
    );

    assert_eq!(
        Filter::new(Some(String::from("192.168.0.1")), None,)
            .unwrap()
            .expression,
        String::from("(ip.src eq 192.168.0.1)")
    );

    assert_eq!(
        Filter::new(
            None,
            Some(String::from(
                "Mozilla/5.0 (Macintosh; Intel Mac OS X 10_15_7)"
            ))
        )
        .unwrap()
        .expression,
        String::from("(http.user_agent eq \"Mozilla/5.0 (Macintosh; Intel Mac OS X 10_15_7)\")")
    );
}

#[test]
fn test_append_filter() {
    let mut filter = Filter::new(
        Some(String::from("192.168.0.1")),
        Some(String::from(
            "Mozilla/5.0 (Macintosh; Intel Mac OS X 10_15_7)",
        )),
    )
    .unwrap();
    let filter2 = Filter::new(
        Some(String::from("1.1.1.1")),
        Some(String::from("SOME_USER_AGENT")),
    )
    .unwrap();

    filter.append(filter2).expect("");

    assert_eq!(
        filter.expression,
        String::from("(ip.src eq 192.168.0.1 and http.user_agent eq \"Mozilla/5.0 (Macintosh; Intel Mac OS X 10_15_7)\") or (ip.src eq 1.1.1.1 and http.user_agent eq \"SOME_USER_AGENT\")")
    );
}

#[test]
fn test_trim_filter() {
    let mut filter = Filter::new(
        Some(String::from("192.168.0.1")),
        Some(String::from("Chrome-ua")),
    )
    .unwrap();
    let filter2 = Filter::new(
        Some(String::from("1.1.1.1")),
        Some(String::from("SOME_USER_AGENT")),
    )
    .unwrap();
    let mut filter_ip = Filter::new(Some(String::from("1.1.1.1")), None).unwrap();
    let filter_ip2 = Filter::new(Some(String::from("5.5.5.5")), None).unwrap();
    let mut filter_long = Filter::new(Some(String::from("2.3.4.5")), None).unwrap();

    filter.append(filter2.clone()).expect("");
    filter.trim_expression(filter2).expect("");
    filter_ip.append(filter_ip2.clone()).expect("");
    filter_ip.trim_expression(filter_ip2.clone()).expect("");
    filter_long.append(filter_ip.clone()).expect("");
    filter_long.append(filter_ip2.clone()).expect("");
    filter_long.append(filter_ip.clone()).expect("");
    filter_long.trim_expression(filter_ip2).expect("");

    assert_eq!(
        filter.expression,
        String::from("(ip.src eq 192.168.0.1 and http.user_agent eq \"Chrome-ua\")")
    );
    assert_eq!(filter_ip.expression, String::from("(ip.src eq 1.1.1.1)"));
    assert_eq!(
        filter_long.expression,
        String::from("(ip.src eq 2.3.4.5) or (ip.src eq 1.1.1.1) or (ip.src eq 1.1.1.1)")
    );
}

#[test]
fn test_already_contains() {
    let mut filter = Filter::new(
        Some(String::from("192.168.0.1")),
        Some(String::from(
            "Mozilla/5.0 (Macintosh; Intel Mac OS X 10_15_7)",
        )),
    )
    .unwrap();
    let filter2 = Filter::new(
        Some(String::from("1.1.1.1")),
        Some(String::from("SOME_USER_AGENT")),
    )
    .unwrap();

    filter.append(filter2.clone()).expect("");

    assert_eq!(filter.already_includes_filter(filter2).unwrap(), true);
}

#[test]
fn append_then_trim_restores_expression() {
    let mut f = Filter::new(Some(String::from("1.2.3.4")), None).unwrap();
    let other = Filter::new(Some(String::from("5.6.7.8")), None).unwrap();
    f.append(other.clone()).unwrap();
    f.trim_expression(other).unwrap();
    assert_eq!(f.expression, "(ip.src eq 1.2.3.4)");

    let mut g = Filter::new(None, Some(String::from("agent one"))).unwrap();
    let other_ua = Filter::new(None, Some(String::from("agent two"))).unwrap();
    g.append(other_ua.clone()).unwrap();
    g.trim_expression(other_ua).unwrap();
    assert_eq!(g.expression, "(http.user_agent eq \"agent one\")");
}

#[test]
fn trim_own_clause_empties() {
    let mut f = Filter::new(Some(String::from("1.2.3.4")), None).unwrap();
    let same = Filter::new(Some(String::from("1.2.3.4")), None).unwrap();
    f.trim_expression(same).unwrap();
    assert_eq!(f.expression, "");
    assert_eq!(f.is_empty(), true);
}

#[test]
fn appended_expression_includes_both_parts() {
    let a = Filter::new(Some(String::from("1.2.3.4")), None).unwrap();
    let b = Filter::new(Some(String::from("5.6.7.8")), None).unwrap();
    let mut f = a.clone();
    f.append(b.clone()).unwrap();
    assert_eq!(f.already_includes_filter(a).unwrap(), true);
    assert_eq!(f.already_includes_filter(b).unwrap(), true);
}

#[test]
fn mixed_kinds_are_wrong_filter() {
    let mut ip_only = Filter::new(Some(String::from("1.2.3.4")), None).unwrap();
    let ua_only = Filter::new(None, Some(String::from("agent"))).unwrap();
    assert!(matches!(
        ip_only.append(ua_only.clone()),
        Err(ServerError::WrongFilter)
    ));
    assert!(matches!(
        ip_only.trim_expression(ua_only.clone()),
        Err(ServerError::WrongFilter)
    ));
    assert!(matches!(
        ip_only.already_includes_filter(ua_only),
        Err(ServerError::WrongFilter)
    ));
    assert_eq!(ip_only.expression, "(ip.src eq 1.2.3.4)");
}

#[test]
fn new_rejects_bad_targets() {
    match Filter::new(None, None) {
        Err(ServerError::BadRequest(m)) => {
            assert_eq!(m, "at least one of 'ip','user_agent' required")
        }
        _ => panic!("a target without identifiers must be rejected"),
    }
    match Filter::new(Some(String::from("1.2.3.4")), Some(String::new())) {
        Err(ServerError::BadRequest(m)) => assert_eq!(m, "empty 'user_agent'"),
        _ => panic!("an empty user agent must be rejected"),
    }
}

#[test]
fn from_expression_keeps_kind_unset() {
    let f = Filter::from_expression(String::from("f9"), String::from("(ip.src eq 9.9.9.9)"));
    assert!(matches!(f.filter_type, FilterType::Unset));
    assert_eq!(f.id, "f9");
    assert_eq!(f.rule_id, "");
    assert_eq!(f.expression, "(ip.src eq 9.9.9.9)");
}

#[test]
fn is_empty_ignores_whitespace() {
    let f = Filter::from_expression(String::new(), String::from("  \t "));
    assert_eq!(f.is_empty(), true);
    let g = Filter::from_expression(String::new(), String::from(" x "));
    assert_eq!(g.is_empty(), false);
}

#[test]
fn kind_labels() {
    assert_eq!(FilterType::IP.label(), "ip");
    assert_eq!(FilterType::UserAgent.label(), "user_agent");
    assert_eq!(FilterType::IPUserAgent.label(), "ip_user_agent");
    assert_eq!(FilterType::Unset.label(), "unset");
}
