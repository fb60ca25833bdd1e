use cloudflare_executor::errors::ServerError;
use cloudflare_executor::executor::{
    ban, ban_at_current_time, expiry, unban, BlockRequest, Target, UnblockRequest, UpstreamCall,
};
use cloudflare_executor::gate::{
    ban_according_to_mode, unban_according_to_mode, ExecutorServiceDry, ExecutorServiceDryRun,
};
use cloudflare_executor::invalidator::invalidate;
use cloudflare_executor::models::FilterType;
use cloudflare_executor::store::Store;

/// 2024-01-01T00:00:00Z.
const T0: i64 = 1704067200;

fn target(ip: Option<&str>, ua: Option<&str>) -> Target {
    Target {
        ip: ip.map(String::from),
        user_agent: ua.map(String::from),
    }
}

fn block(ip: Option<&str>, ua: Option<&str>, reason: &str, ttl: u64) -> BlockRequest {
    BlockRequest {
        target: target(ip, ua),
        reason: String::from(reason),
        ttl,
    }
}

fn unblock(ip: Option<&str>, ua: Option<&str>) -> UnblockRequest {
    UnblockRequest {
        target: target(ip, ua),
    }
}

fn first_two_bans(store: &mut Store) {
    let (res, _) = ban(
        store,
        &block(Some("1.2.3.4"), None, "r", 3600),
        String::from("a1"),
        T0,
        String::from("f1"),
        String::from("rule1"),
    );
    assert!(res.is_ok());
    let (res2, _) = ban(
        store,
        &block(Some("5.6.7.8"), None, "r2", 3600),
        String::from("a1"),
        T0,
        String::from("f-unused"),
        String::from("rule-unused"),
    );
    assert!(res2.is_ok());
}

#[test]
fn first_ip_ban_creates_filter_and_rule() {
    let mut store = Store::new();
    let (res, calls) = ban(
        &mut store,
        &block(Some("1.2.3.4"), None, "r", 3600),
        String::from("a1"),
        T0,
        String::from("f1"),
        String::from("rule1"),
    );
    assert!(res.is_ok());
    assert_eq!(store.filters.len(), 1);
    assert_eq!(store.filters[0].id, "f1");
    assert_eq!(store.filters[0].rule_id, "rule1");
    assert!(matches!(store.filters[0].filter_type, FilterType::IP));
    assert_eq!(store.filters[0].expression, "(ip.src eq 1.2.3.4)");
    assert_eq!(store.nongratas.len(), 1);
    assert_eq!(store.nongratas[0].id, Some(1));
    assert_eq!(store.nongratas[0].filter_id, "f1");
    assert_eq!(store.nongratas[0].reason, "r");
    assert_eq!(store.nongratas[0].restriction_value, "(ip.src eq 1.2.3.4)");
    assert_eq!(store.nongratas[0].restriction_type, "block");
    assert_eq!(store.nongratas[0].expires_at, 1704070800);
    assert!(store.nongratas[0].is_global);
    assert_eq!(store.nongratas[0].analyzer_id, "a1");
    assert_eq!(calls.len(), 2);
    match &calls[0] {
        UpstreamCall::CreateFilter {
            expression,
            description,
        } => {
            assert_eq!(expression, "(ip.src eq 1.2.3.4)");
            assert_eq!(description, "ip");
        }
        _ => panic!("the first upstream request must create the filter"),
    }
    match &calls[1] {
        UpstreamCall::CreateRule { filter_id, action } => {
            assert_eq!(filter_id, "f1");
            assert_eq!(action, "block");
        }
        _ => panic!("the second upstream request must create the rule"),
    }
}

#[test]
fn second_ip_ban_coalesces() {
    let mut store = Store::new();
    let (res, _) = ban(
        &mut store,
        &block(Some("1.2.3.4"), None, "r", 3600),
        String::from("a1"),
        T0,
        String::from("f1"),
        String::from("rule1"),
    );
    assert!(res.is_ok());
    let (res2, calls2) = ban(
        &mut store,
        &block(Some("5.6.7.8"), None, "r2", 3600),
        String::from("a1"),
        T0,
        String::from("f-unused"),
        String::from("rule-unused"),
    );
    assert!(res2.is_ok());
    assert_eq!(store.filters.len(), 1);
    assert_eq!(
        store.filters[0].expression,
        "(ip.src eq 1.2.3.4) or (ip.src eq 5.6.7.8)"
    );
    assert_eq!(store.nongratas.len(), 2);
    assert_eq!(store.nongratas[1].restriction_value, "(ip.src eq 5.6.7.8)");
    assert_eq!(calls2.len(), 1);
    match &calls2[0] {
        UpstreamCall::UpdateFilter {
            filter_id,
            expression,
        } => {
            assert_eq!(filter_id, "f1");
            assert_eq!(expression, "(ip.src eq 1.2.3.4) or (ip.src eq 5.6.7.8)");
        }
        _ => panic!("a coalesced ban must update the filter upstream"),
    }
}

#[test]
fn duplicate_ban_refreshes_ttl_without_upstream_calls() {
    let mut store = Store::new();
    first_two_bans(&mut store);
    let (res, calls) = ban(
        &mut store,
        &block(Some("1.2.3.4"), None, "r3", 7200),
        String::from("a2"),
        T0,
        String::from("f-unused"),
        String::from("rule-unused"),
    );
    assert!(res.is_ok());
    assert_eq!(calls.len(), 0);
    assert_eq!(store.nongratas.len(), 2);
    assert_eq!(store.nongratas[0].restriction_value, "(ip.src eq 1.2.3.4)");
    assert_eq!(store.nongratas[0].expires_at, 1704074400);
    assert_eq!(store.nongratas[0].reason, "r3");
    assert_eq!(store.nongratas[0].analyzer_id, "a2");
    assert_eq!(
        store.filters[0].expression,
        "(ip.src eq 1.2.3.4) or (ip.src eq 5.6.7.8)"
    );
}

#[test]
fn unban_trims_one_clause() {
    let mut store = Store::new();
    first_two_bans(&mut store);
    let (res, calls) = unban(&mut store, &unblock(Some("1.2.3.4"), None));
    assert!(res.is_ok());
    assert_eq!(store.filters.len(), 1);
    assert_eq!(store.filters[0].expression, "(ip.src eq 5.6.7.8)");
    assert_eq!(store.nongratas.len(), 1);
    assert_eq!(store.nongratas[0].restriction_value, "(ip.src eq 5.6.7.8)");
    assert_eq!(calls.len(), 1);
    match &calls[0] {
        UpstreamCall::UpdateFilter {
            filter_id,
            expression,
        } => {
            assert_eq!(filter_id, "f1");
            assert_eq!(expression, "(ip.src eq 5.6.7.8)");
        }
        _ => panic!("a partial unban must update the filter upstream"),
    }
}

#[test]
fn unban_of_last_clause_deletes_rule_and_filter() {
    let mut store = Store::new();
    first_two_bans(&mut store);
    let (res, _) = unban(&mut store, &unblock(Some("1.2.3.4"), None));
    assert!(res.is_ok());
    let (res2, calls2) = unban(&mut store, &unblock(Some("5.6.7.8"), None));
    assert!(res2.is_ok());
    assert_eq!(store.filters.len(), 0);
    assert_eq!(store.nongratas.len(), 0);
    assert_eq!(calls2.len(), 1);
    match &calls2[0] {
        UpstreamCall::DeleteRule { rule_id } => assert_eq!(rule_id, "rule1"),
        _ => panic!("the last unban must delete the rule upstream"),
    }
}

#[test]
fn expiry_drives_invalidation() {
    let mut store = Store::new();
    first_two_bans(&mut store);
    let (res, calls) = invalidate(&mut store, 1704070801);
    assert!(res.is_ok());
    assert_eq!(store.nongratas.len(), 0);
    assert_eq!(store.filters.len(), 0);
    let mut delete_rules = 0;
    let mut update_filters = 0;
    for call in &calls {
        match call {
            UpstreamCall::DeleteRule { rule_id } => {
                assert_eq!(rule_id, "rule1");
                delete_rules += 1;
            }
            UpstreamCall::UpdateFilter { .. } => update_filters += 1,
            _ => panic!("invalidation must only update filters or delete rules"),
        }
    }
    assert_eq!(delete_rules, 1);
    assert_eq!(update_filters, 1);
}

#[test]
fn invalidation_leaves_unexpired_bans() {
    let mut store = Store::new();
    first_two_bans(&mut store);
    let (res, calls) = invalidate(&mut store, T0 + 10);
    assert!(res.is_ok());
    assert_eq!(calls.len(), 0);
    assert_eq!(store.nongratas.len(), 2);
    assert_eq!(store.filters.len(), 1);
}

#[test]
fn clause_counts_match_ban_records() {
    let mut store = Store::new();
    first_two_bans(&mut store);
    // One filter; its clause count equals the number of distinct
    // restriction values among the ban records pointing at it.
    assert_eq!(store.filters.len(), 1);
    let expression = store.filters[0].expression.clone();
    let clauses = expression.split(" or ").count();
    let mut values: Vec<String> = store
        .nongratas
        .iter()
        .map(|n| n.restriction_value.clone())
        .collect();
    values.sort();
    values.dedup();
    assert_eq!(clauses, values.len());
    // Every restriction value is a substring of its filter's expression.
    for n in &store.nongratas {
        assert_eq!(n.filter_id, store.filters[0].id);
        assert!(expression
            .to_lowercase()
            .contains(&n.restriction_value.to_lowercase()));
    }
}

#[test]
fn ban_rejects_zero_ttl() {
    let mut store = Store::new();
    let (res, calls) = ban(
        &mut store,
        &block(Some("1.2.3.4"), None, "r", 0),
        String::from("a1"),
        T0,
        String::from("f1"),
        String::from("rule1"),
    );
    assert!(matches!(res, Err(ServerError::MissingTTL)));
    assert_eq!(calls.len(), 0);
    assert_eq!(store.filters.len(), 0);
    assert_eq!(store.nongratas.len(), 0);
}

#[test]
fn ban_rejects_empty_user_agent() {
    let mut store = Store::new();
    let (res, _) = ban(
        &mut store,
        &block(Some("1.2.3.4"), Some(""), "r", 60),
        String::from("a1"),
        T0,
        String::from("f1"),
        String::from("rule1"),
    );
    match res {
        Err(ServerError::BadRequest(m)) => assert_eq!(m, "empty 'user_agent'"),
        _ => panic!("an empty user agent must be rejected"),
    }
}

#[test]
fn ban_rejects_missing_target() {
    let mut store = Store::new();
    let (res, _) = ban(
        &mut store,
        &block(None, None, "r", 60),
        String::from("a1"),
        T0,
        String::from("f1"),
        String::from("rule1"),
    );
    match res {
        Err(ServerError::BadRequest(m)) => {
            assert_eq!(m, "at least one of 'ip','user_agent' required")
        }
        _ => panic!("a target without identifiers must be rejected"),
    }
}

#[test]
fn unban_of_unknown_target_is_wrong_filter() {
    let mut store = Store::new();
    let (res, calls) = unban(&mut store, &unblock(Some("9.9.9.9"), None));
    assert!(matches!(res, Err(ServerError::WrongFilter)));
    assert_eq!(calls.len(), 0);
}

#[test]
fn duplicate_ban_without_its_record_is_a_store_error() {
    let mut store = Store::new();
    first_two_bans(&mut store);
    // Drop the record behind the filter's back; the clause stays in the
    // expression, so the next duplicate ban finds no record to refresh.
    store.delete_nongrata(1).unwrap();
    let (res, calls) = ban(
        &mut store,
        &block(Some("1.2.3.4"), None, "again", 60),
        String::from("a1"),
        T0,
        String::from("f-unused"),
        String::from("rule-unused"),
    );
    assert!(matches!(res, Err(ServerError::DBError(_))));
    assert_eq!(calls.len(), 0);
}

#[test]
fn unban_without_a_matching_record_is_wrong_filter() {
    let mut store = Store::new();
    first_two_bans(&mut store);
    // Both records leave behind the filter's back; their clauses stay in the
    // expression, so the unban finds the filter but no record to delete.
    store.delete_nongrata(1).unwrap();
    store.delete_nongrata(2).unwrap();
    let (res, calls) = unban(&mut store, &unblock(Some("1.2.3.4"), None));
    assert!(matches!(res, Err(ServerError::WrongFilter)));
    assert_eq!(calls.len(), 0);
    assert_eq!(store.filters.len(), 1);
}

#[test]
fn dry_mode_performs_no_writes_and_no_upstream_calls() {
    let mut store = Store::new();
    first_two_bans(&mut store);
    let filters_before: Vec<(String, String, String)> = store
        .filters
        .iter()
        .map(|f| (f.id.clone(), f.rule_id.clone(), f.expression.clone()))
        .collect();
    let nongratas_before: Vec<(Option<i64>, String, i64)> = store
        .nongratas
        .iter()
        .map(|n| (n.id, n.restriction_value.clone(), n.expires_at))
        .collect();

    let ops: Vec<(Option<&str>, Option<&str>)> = vec![
        (Some("1.2.3.4"), None),
        (Some("7.7.7.7"), None),
        (None, Some("agent")),
        (Some("5.6.7.8"), None),
    ];
    for (ip, ua) in &ops {
        let (res, calls) = ban_according_to_mode(
            true,
            &mut store,
            &block(*ip, *ua, "r", 60),
            String::from("a1"),
            T0,
            String::from("fx"),
            String::from("rx"),
        );
        assert!(res.is_ok());
        assert_eq!(calls.len(), 0);
        let (res2, calls2) = unban_according_to_mode(true, &mut store, &unblock(*ip, *ua));
        assert!(res2.is_ok());
        assert_eq!(calls2.len(), 0);
    }

    let filters_after: Vec<(String, String, String)> = store
        .filters
        .iter()
        .map(|f| (f.id.clone(), f.rule_id.clone(), f.expression.clone()))
        .collect();
    let nongratas_after: Vec<(Option<i64>, String, i64)> = store
        .nongratas
        .iter()
        .map(|n| (n.id, n.restriction_value.clone(), n.expires_at))
        .collect();
    assert_eq!(filters_before, filters_after);
    assert_eq!(nongratas_before, nongratas_after);
}

#[test]
fn dry_executors_validate_like_the_real_one() {
    let dry = ExecutorServiceDry::new();
    let dry_run = ExecutorServiceDryRun::new();
    assert!(dry
        .ban(&block(Some("1.2.3.4"), None, "r", 60), String::from("a1"))
        .is_ok());
    assert!(matches!(
        dry.ban(&block(Some("1.2.3.4"), None, "r", 0), String::from("a1")),
        Err(ServerError::MissingTTL)
    ));
    assert!(matches!(
        dry_run.ban(&block(None, None, "r", 60), String::from("a1")),
        Err(ServerError::BadRequest(_))
    ));
    assert!(dry_run.unban(&unblock(None, Some("agent"))).is_ok());
    assert!(matches!(
        dry.unban(&unblock(None, None)),
        Err(ServerError::BadRequest(_))
    ));
}

#[test]
fn operational_mode_dispatches_to_the_executor() {
    let mut store = Store::new();
    let (res, calls) = ban_according_to_mode(
        false,
        &mut store,
        &block(Some("1.2.3.4"), None, "r", 3600),
        String::from("a1"),
        T0,
        String::from("f1"),
        String::from("rule1"),
    );
    assert!(res.is_ok());
    assert_eq!(calls.len(), 2);
    assert_eq!(store.filters.len(), 1);
    let (res2, calls2) =
        unban_according_to_mode(false, &mut store, &unblock(Some("1.2.3.4"), None));
    assert!(res2.is_ok());
    assert_eq!(calls2.len(), 1);
    assert_eq!(store.filters.len(), 0);
    assert_eq!(store.nongratas.len(), 0);
}

#[test]
fn wall_clock_ban_stamps_a_future_deadline() {
    let mut store = Store::new();
    let (res, calls) = ban_at_current_time(
        &mut store,
        &block(Some("1.2.3.4"), None, "r", 3600),
        String::from("a1"),
        String::from("f1"),
        String::from("rule1"),
    );
    assert!(res.is_ok());
    assert_eq!(calls.len(), 2);
    assert_eq!(store.nongratas.len(), 1);
    // The sandbox clock sits well past 2020; a one-hour ban must expire
    // after that and after its own start.
    assert!(store.nongratas[0].expires_at > 1_577_836_800);
}

#[test]
fn invalidation_aborts_on_an_impossible_step() {
    let mut store = Store::new();
    first_two_bans(&mut store);
    // Drop the filter behind the records' backs: the first expired record can
    // no longer be processed, so the tick aborts with a store error and
    // leaves everything as it found it.
    store.delete_filter("f1").unwrap();
    let (res, calls) = invalidate(&mut store, 1704070801);
    assert!(matches!(res, Err(ServerError::DBError(_))));
    assert_eq!(calls.len(), 0);
    assert_eq!(store.nongratas.len(), 2);
    assert_eq!(store.filters.len(), 0);
}

#[test]
fn partial_expiry_trims_only_expired_clauses() {
    let mut store = Store::new();
    let (res, _) = ban(
        &mut store,
        &block(Some("1.2.3.4"), None, "short", 60),
        String::from("a1"),
        T0,
        String::from("f1"),
        String::from("rule1"),
    );
    assert!(res.is_ok());
    let (res2, _) = ban(
        &mut store,
        &block(Some("5.6.7.8"), None, "long", 3600),
        String::from("a1"),
        T0,
        String::from("fx"),
        String::from("rx"),
    );
    assert!(res2.is_ok());
    let (res3, calls) = invalidate(&mut store, T0 + 61);
    assert!(res3.is_ok());
    assert_eq!(store.nongratas.len(), 1);
    assert_eq!(store.nongratas[0].reason, "long");
    assert_eq!(store.filters.len(), 1);
    assert_eq!(store.filters[0].expression, "(ip.src eq 5.6.7.8)");
    assert_eq!(calls.len(), 1);
    assert!(matches!(&calls[0], UpstreamCall::UpdateFilter { .. }));
}

#[test]
fn user_agent_bans_live_in_their_own_filter() {
    let mut store = Store::new();
    let (res, _) = ban(
        &mut store,
        &block(Some("1.2.3.4"), None, "r", 3600),
        String::from("a1"),
        T0,
        String::from("f1"),
        String::from("rule1"),
    );
    assert!(res.is_ok());
    let (res2, calls2) = ban(
        &mut store,
        &block(None, Some("bad agent"), "r", 3600),
        String::from("a1"),
        T0,
        String::from("f2"),
        String::from("rule2"),
    );
    assert!(res2.is_ok());
    // A different kind starts its own filter instead of coalescing.
    assert_eq!(calls2.len(), 2);
    assert_eq!(store.filters.len(), 2);
    assert!(matches!(store.filters[1].filter_type, FilterType::UserAgent));
    assert_eq!(
        store.filters[1].expression,
        "(http.user_agent eq \"bad agent\")"
    );
    // Unbanning the agent leaves the IP filter alone.
    let (res3, _) = unban(&mut store, &unblock(None, Some("bad agent")));
    assert!(res3.is_ok());
    assert_eq!(store.filters.len(), 1);
    assert_eq!(store.filters[0].expression, "(ip.src eq 1.2.3.4)");
}

#[test]
fn joint_ip_and_agent_ban_uses_the_joint_kind() {
    let mut store = Store::new();
    let (res, calls) = ban(
        &mut store,
        &block(Some("1.2.3.4"), Some("bad agent"), "r", 3600),
        String::from("a1"),
        T0,
        String::from("f1"),
        String::from("rule1"),
    );
    assert!(res.is_ok());
    assert_eq!(calls.len(), 2);
    assert!(matches!(
        store.filters[0].filter_type,
        FilterType::IPUserAgent
    ));
    assert_eq!(
        store.filters[0].expression,
        "(ip.src eq 1.2.3.4 and http.user_agent eq \"bad agent\")"
    );
}

#[test]
fn expiry_saturates_instead_of_overflowing() {
    assert_eq!(expiry(T0, 3600), T0 + 3600);
    assert_eq!(expiry(i64::MAX - 10, 3600), i64::MAX);
    assert_eq!(expiry(i64::MAX, u64::MAX), i64::MAX);
    assert_eq!(expiry(-5, 10), 5);
}
