//! The executor: coalescing bans and unbans into the store and into upstream
//! rule changes.
//!
//! Upstream I/O cannot happen here, so each operation is split in two: a
//! *plan* function reads the store and decides what must happen, and *apply*
//! functions commit the store changes around the caller's upstream calls,
//! taking the ids those calls returned as arguments. The composed operations
//! [`ban`] and [`unban`] chain plan and applies in the order the service
//! performs them and return the upstream requests they imply as data, so that
//! every path is verified end to end for whatever ids upstream assigns.

use crate::errors::ServerError;
use crate::models::{appended_expr, empty_ua, includes_expr, ip_clause, ip_ua_clause,
    missing_target, trimmed_expr, ua_clause, Filter, FilterType, FilterView, Nongrata,
    NongrataView};
use crate::store::{Store, StoreView};
use crate::laws::{lemma_ip_clause_shape, lemma_ip_ua_clause_shape, lemma_ua_clause_shape};
use crate::text::{ci_contains, is_space, lemma_trim_len, trim_spec};
use vstd::prelude::*;

verus! {

/// A ban or unban target: an IP address (as canonical text) and/or a
/// User-Agent.
#[derive(Debug, Clone)]
pub struct Target {
    pub ip: Option<String>,
    pub user_agent: Option<String>,
}

/// A ban request: whom to ban, why, and for how long (seconds).
#[derive(Debug, Clone)]
pub struct BlockRequest {
    pub target: Target,
    pub reason: String,
    pub ttl: u64,
}

/// An unban request: whom to release.
#[derive(Debug, Clone)]
pub struct UnblockRequest {
    pub target: Target,
}

/// The kind a valid target classifies as.
pub open spec fn target_kind(t: Target) -> FilterType {
    match (t.ip, t.user_agent) {
        (Some(_), None) => FilterType::IP,
        (None, Some(_)) => FilterType::UserAgent,
        (Some(_), Some(_)) => FilterType::IPUserAgent,
        (None, None) => FilterType::Unset,
    }
}

/// The clause a valid target contributes.
pub open spec fn target_clause(t: Target) -> Seq<char> {
    match (t.ip, t.user_agent) {
        (Some(i), None) => ip_clause(i@),
        (None, Some(u)) => ua_clause(u@),
        (Some(i), Some(u)) => ip_ua_clause(i@, u@),
        (None, None) => Seq::<char>::empty(),
    }
}

/// A target that names at least one identifier, with a non-empty User-Agent
/// where one is given.
pub open spec fn target_valid(t: Target) -> bool {
    !empty_ua(t.user_agent) && !missing_target(t.ip, t.user_agent)
}

/// A ban request past every input check.
pub open spec fn ban_request_valid(req: BlockRequest) -> bool {
    req.ttl > 0 && target_valid(req.target)
}

/// One request the executor asks the caller to send upstream.
#[derive(Debug, Clone)]
pub enum UpstreamCall {
    /// Create a filter with this expression and description; upstream answers
    /// with the filter id.
    CreateFilter { expression: String, description: String },
    /// Rewrite the expression of the filter with this id.
    UpdateFilter { filter_id: String, expression: String },
    /// Attach a firewall rule with this action to the filter; upstream
    /// answers with the rule id.
    CreateRule { filter_id: String, action: String },
    /// Delete the rule, and with it the filter it leaves unused.
    DeleteRule { rule_id: String },
}

/// The mathematical value of an [`UpstreamCall`].
pub enum UpstreamCallView {
    CreateFilter { expression: Seq<char>, description: Seq<char> },
    UpdateFilter { filter_id: Seq<char>, expression: Seq<char> },
    CreateRule { filter_id: Seq<char>, action: Seq<char> },
    DeleteRule { rule_id: Seq<char> },
}

impl View for UpstreamCall {
    type V = UpstreamCallView;

    open spec fn view(&self) -> UpstreamCallView {
        match self {
            UpstreamCall::CreateFilter { expression, description } => {
                UpstreamCallView::CreateFilter {
                    expression: expression@,
                    description: description@,
                }
            },
            UpstreamCall::UpdateFilter { filter_id, expression } => {
                UpstreamCallView::UpdateFilter { filter_id: filter_id@, expression: expression@ }
            },
            UpstreamCall::CreateRule { filter_id, action } => {
                UpstreamCallView::CreateRule { filter_id: filter_id@, action: action@ }
            },
            UpstreamCall::DeleteRule { rule_id } => {
                UpstreamCallView::DeleteRule { rule_id: rule_id@ }
            },
        }
    }
}

impl DeepView for UpstreamCall {
    type V = UpstreamCallView;

    open spec fn deep_view(&self) -> UpstreamCallView {
        self@
    }
}

/// What a ban must do, decided from the store alone.
pub enum BanPlan {
    /// No filter of this kind yet: create filter and rule upstream, then
    /// persist both and the ban record.
    Fresh { new_filter: Filter },
    /// The clause is already present: refresh the existing ban record and
    /// leave upstream untouched.
    Refresh { nongrata_id: i64 },
    /// A filter of this kind exists without this clause: extend its
    /// expression upstream and locally, then persist the ban record.
    Coalesce { filter_id: String, expression: String, clause: String },
}

/// The deadline of a ban arriving at `now` with the given ttl, saturated at
/// the end of the representable range.
pub open spec fn spec_expiry(now: int, ttl: int) -> int {
    if now + ttl > i64::MAX as int {
        i64::MAX as int
    } else {
        now + ttl
    }
}

/// Executable form of [`spec_expiry`].
pub fn expiry(now: i64, ttl: u64) -> (r: i64)
    ensures
        r == spec_expiry(now as int, ttl as int),
{
    let sum: i128 = now as i128 + ttl as i128;
    if sum > i64::MAX as i128 {
        i64::MAX
    } else {
        sum as i64
    }
}

/// The ban record a granted ban persists.
pub open spec fn ban_record(
    filter_id: Seq<char>,
    clause: Seq<char>,
    reason: Seq<char>,
    analyzer_id: Seq<char>,
    now: int,
    ttl: int,
    id: int,
) -> NongrataView {
    NongrataView {
        id: Some(id as i64),
        filter_id,
        reason,
        restriction_value: clause,
        restriction_type: "block"@,
        expires_at: spec_expiry(now, ttl),
        is_global: true,
        analyzer_id,
    }
}

/// Decides what a ban must do: reject bad input, coalesce into the existing
/// filter of the target's kind (refreshing a duplicate), or start a fresh
/// filter.
pub fn plan_ban(store: &Store, req: &BlockRequest) -> (r: Result<BanPlan, ServerError>)
    requires
        store@.wf(),
    ensures
        req.ttl == 0 ==> (r matches Err(ServerError::MissingTTL)),
        req.ttl > 0 && empty_ua(req.target.user_agent) ==> (r matches Err(
            ServerError::BadRequest(m),
        ) && m@ == "empty 'user_agent'"@),
        req.ttl > 0 && !empty_ua(req.target.user_agent) && missing_target(
            req.target.ip,
            req.target.user_agent,
        ) ==> (r matches Err(ServerError::BadRequest(m)) && m@
            == "at least one of 'ip','user_agent' required"@),
        ban_request_valid(*req) ==> {
            let kind = target_kind(req.target);
            let clause = target_clause(req.target);
            match r {
                Ok(plan) => match plan {
                    BanPlan::Fresh { new_filter } => {
                        &&& !store@.has_kind(kind)
                        &&& new_filter@ == (FilterView {
                            id: Seq::<char>::empty(),
                            rule_id: Seq::<char>::empty(),
                            filter_type: kind,
                            expression: clause,
                        })
                    },
                    BanPlan::Refresh { nongrata_id } => {
                        &&& exists|i: int|
                            0 <= i < store@.filters.len() && (#[trigger] store@.filters[i]).filter_type
                                == kind && includes_expr(store@.filters[i].expression, clause)
                        &&& exists|j: int|
                            {
                                &&& 0 <= j < store@.nongratas.len()
                                &&& ci_contains(
                                    (#[trigger] store@.nongratas[j]).restriction_value,
                                    clause,
                                )
                                &&& store@.nongratas[j].id == Some(nongrata_id)
                                &&& forall|k: int|
                                    0 <= k < j ==> !ci_contains(
                                        (#[trigger] store@.nongratas[k]).restriction_value,
                                        clause,
                                    )
                            }
                    },
                    BanPlan::Coalesce { filter_id, expression, clause: c } => {
                        &&& exists|i: int|
                            {
                                &&& 0 <= i < store@.filters.len()
                                &&& (#[trigger] store@.filters[i]).filter_type == kind
                                &&& !includes_expr(store@.filters[i].expression, clause)
                                &&& filter_id@ == store@.filters[i].id
                                &&& expression@ == appended_expr(
                                    store@.filters[i].expression,
                                    clause,
                                )
                            }
                        &&& c@ == clause
                    },
                },
                Err(e) => {
                    &&& e is DBError
                    &&& exists|i: int|
                        0 <= i < store@.filters.len() && (#[trigger] store@.filters[i]).filter_type
                            == kind && includes_expr(store@.filters[i].expression, clause)
                    &&& forall|j: int|
                        0 <= j < store@.nongratas.len() ==> !ci_contains(
                            (#[trigger] store@.nongratas[j]).restriction_value,
                            clause,
                        )
                },
            }
        },
{
    if req.ttl == 0 {
        return Err(ServerError::MissingTTL);
    }
    let new_filter = Filter::new(req.target.ip.clone(), req.target.user_agent.clone())?;
    match store.find_filter_by_kind(new_filter.filter_type) {
        None => Ok(BanPlan::Fresh { new_filter }),
        Some(mut existing) => {
            let includes = existing.already_includes_filter(new_filter.duplicate())?;
            if includes {
                match store.find_nongrata_by_restriction_value(new_filter.expression.as_str()) {
                    Some(prior) => {
                        proof {
                            let i = choose|i: int|
                                0 <= i < store@.nongratas.len() && store@.nongratas[i] == prior@;
                            assert(store@.nongratas[i].id is Some);
                        }
                        let id = match prior.id {
                            Some(v) => v,
                            None => {
                                proof {
                                    assert(false);
                                }
                                return Err(
                                    ServerError::DBError(
                                        String::from_str("nongrata without an id"),
                                    ),
                                );
                            },
                        };
                        Ok(BanPlan::Refresh { nongrata_id: id })
                    },
                    None => Err(ServerError::DBError(String::from_str("nongrata not found"))),
                }
            } else {
                existing.append(new_filter.duplicate())?;
                Ok(
                    BanPlan::Coalesce {
                        filter_id: existing.id,
                        expression: existing.expression,
                        clause: new_filter.expression,
                    },
                )
            }
        },
    }
}

/// Persists the filter a fresh ban created upstream: the filter takes the id
/// upstream assigned and is inserted with no rule attached yet.
pub fn apply_fresh_filter(store: &mut Store, new_filter: Filter, filter_id: String) -> (r: Result<
    (),
    ServerError,
>)
    requires
        old(store)@.wf(),
    ensures
        final(store)@.wf(),
        final(store)@.nongratas == old(store)@.nongratas,
        final(store)@.next_nongrata_id == old(store)@.next_nongrata_id,
        r is Ok <==> !old(store)@.has_kind(new_filter@.filter_type) && !old(store)@.has_filter_id(
            filter_id@,
        ),
        r is Ok ==> final(store)@.filters == old(store)@.filters.push(
            FilterView { id: filter_id@, ..new_filter@ },
        ),
        r is Err ==> (r matches Err(ServerError::DBError(_)) && final(store)@ == old(store)@),
{
    let mut f = new_filter;
    f.id = filter_id;
    store.insert_filter(f)
}

/// Persists the rule a fresh ban created upstream, and the ban record itself:
/// the filter takes the rule id, and the nongrata is inserted with the
/// store-assigned id.
pub fn apply_fresh_rule(
    store: &mut Store,
    filter_id: &str,
    rule_id: String,
    clause: String,
    reason: String,
    analyzer_id: String,
    now: i64,
    ttl: u64,
) -> (r: Result<(), ServerError>)
    requires
        old(store)@.wf(),
        old(store)@.next_nongrata_id < i64::MAX,
    ensures
        final(store)@.wf(),
        r is Ok <==> old(store)@.has_filter_id(filter_id@),
        r is Ok ==> {
            &&& exists|i: int|
                {
                    &&& 0 <= i < old(store)@.filters.len()
                    &&& (#[trigger] old(store)@.filters[i]).id == filter_id@
                    &&& final(store)@.filters == old(store)@.filters.update(
                        i,
                        FilterView { rule_id: rule_id@, ..old(store)@.filters[i] },
                    )
                }
            &&& final(store)@.nongratas == old(store)@.nongratas.push(
                ban_record(
                    filter_id@,
                    clause@,
                    reason@,
                    analyzer_id@,
                    now as int,
                    ttl as int,
                    old(store)@.next_nongrata_id,
                ),
            )
            &&& final(store)@.next_nongrata_id == old(store)@.next_nongrata_id + 1
        },
        r is Err ==> (r matches Err(ServerError::DBError(_)) && final(store)@ == old(store)@),
{
    store.update_filter_rule_id(filter_id, rule_id)?;
    let record = Nongrata::new(
        reason,
        filter_id.to_owned(),
        expiry(now, ttl),
        clause,
        String::from_str("block"),
        true,
        analyzer_id,
    );
    store.insert_nongrata(record);
    Ok(())
}

/// Persists a coalesced ban after upstream took the extended expression: the
/// filter's expression is rewritten and the ban record inserted.
pub fn apply_coalesce(
    store: &mut Store,
    filter_id: &str,
    expression: String,
    clause: String,
    reason: String,
    analyzer_id: String,
    now: i64,
    ttl: u64,
) -> (r: Result<(), ServerError>)
    requires
        old(store)@.wf(),
        old(store)@.next_nongrata_id < i64::MAX,
    ensures
        final(store)@.wf(),
        r is Ok <==> old(store)@.has_filter_id(filter_id@),
        r is Ok ==> {
            &&& exists|i: int|
                {
                    &&& 0 <= i < old(store)@.filters.len()
                    &&& (#[trigger] old(store)@.filters[i]).id == filter_id@
                    &&& final(store)@.filters == old(store)@.filters.update(
                        i,
                        FilterView { expression: expression@, ..old(store)@.filters[i] },
                    )
                }
            &&& final(store)@.nongratas == old(store)@.nongratas.push(
                ban_record(
                    filter_id@,
                    clause@,
                    reason@,
                    analyzer_id@,
                    now as int,
                    ttl as int,
                    old(store)@.next_nongrata_id,
                ),
            )
            &&& final(store)@.next_nongrata_id == old(store)@.next_nongrata_id + 1
        },
        r is Err ==> (r matches Err(ServerError::DBError(_)) && final(store)@ == old(store)@),
{
    store.update_filter_expression(filter_id, expression)?;
    let record = Nongrata::new(
        reason,
        filter_id.to_owned(),
        expiry(now, ttl),
        clause,
        String::from_str("block"),
        true,
        analyzer_id,
    );
    store.insert_nongrata(record);
    Ok(())
}

/// Refreshes the ban record of a duplicate ban: its reason, caller id and
/// deadline are overwritten; nothing is sent upstream.
pub fn apply_refresh(
    store: &mut Store,
    nongrata_id: i64,
    reason: String,
    analyzer_id: String,
    now: i64,
    ttl: u64,
) -> (r: Result<(), ServerError>)
    requires
        old(store)@.wf(),
    ensures
        final(store)@.wf(),
        final(store)@.filters == old(store)@.filters,
        final(store)@.next_nongrata_id == old(store)@.next_nongrata_id,
        r is Ok <==> old(store)@.has_nongrata_id(nongrata_id),
        r is Ok ==> exists|i: int|
            {
                &&& 0 <= i < old(store)@.nongratas.len()
                &&& (#[trigger] old(store)@.nongratas[i]).id == Some(nongrata_id)
                &&& final(store)@.nongratas == old(store)@.nongratas.update(
                    i,
                    NongrataView {
                        reason: reason@,
                        analyzer_id: analyzer_id@,
                        expires_at: spec_expiry(now as int, ttl as int),
                        ..old(store)@.nongratas[i]
                    },
                )
            },
        r is Err ==> (r matches Err(ServerError::DBError(_)) && final(store)@ == old(store)@),
{
    store.update_nongrata(nongrata_id, reason, analyzer_id, expiry(now, ttl))
}

/// What an unban must do, decided from the store alone: which filter to
/// rewrite or delete, and which ban record to drop.
pub struct UnbanPlan {
    /// The filter carrying the clause.
    pub filter_id: String,
    /// Its upstream rule, needed if the filter empties and the rule must go.
    pub rule_id: String,
    /// The ban record to delete.
    pub nongrata_id: i64,
    /// The expression after the clause is trimmed out.
    pub expression: String,
    /// Whether the trimmed expression is empty, so rule and filter are
    /// deleted instead of updated.
    pub empty: bool,
}

/// Decides what an unban must do: reject bad input, refuse a target whose
/// kind has no filter or whose clause no ban record carries, else trim the
/// clause and report whether the filter empties.
pub fn plan_unban(store: &Store, req: &UnblockRequest) -> (r: Result<UnbanPlan, ServerError>)
    requires
        store@.wf(),
    ensures
        empty_ua(req.target.user_agent) ==> (r matches Err(ServerError::BadRequest(m)) && m@
            == "empty 'user_agent'"@),
        !empty_ua(req.target.user_agent) && missing_target(req.target.ip, req.target.user_agent)
            ==> (r matches Err(ServerError::BadRequest(m)) && m@
            == "at least one of 'ip','user_agent' required"@),
        target_valid(req.target) ==> {
            let kind = target_kind(req.target);
            let clause = target_clause(req.target);
            match r {
                Ok(plan) => {
                    &&& exists|i: int|
                        {
                            &&& 0 <= i < store@.filters.len()
                            &&& (#[trigger] store@.filters[i]).filter_type == kind
                            &&& plan.filter_id@ == store@.filters[i].id
                            &&& plan.rule_id@ == store@.filters[i].rule_id
                            &&& plan.expression@ == trimmed_expr(
                                store@.filters[i].expression,
                                clause,
                            )
                            &&& plan.empty == (trim_spec(
                                trimmed_expr(store@.filters[i].expression, clause),
                            ).len() == 0)
                        }
                    &&& exists|j: int|
                        {
                            &&& 0 <= j < store@.nongratas.len()
                            &&& ci_contains(
                                (#[trigger] store@.nongratas[j]).restriction_value,
                                clause,
                            )
                            &&& store@.nongratas[j].id == Some(plan.nongrata_id)
                            &&& forall|k: int|
                                0 <= k < j ==> !ci_contains(
                                    (#[trigger] store@.nongratas[k]).restriction_value,
                                    clause,
                                )
                        }
                },
                Err(e) => {
                    &&& e is WrongFilter
                    &&& !store@.has_kind(kind) || forall|j: int|
                        0 <= j < store@.nongratas.len() ==> !ci_contains(
                            (#[trigger] store@.nongratas[j]).restriction_value,
                            clause,
                        )
                },
            }
        },
{
    let trim_filter = Filter::new(req.target.ip.clone(), req.target.user_agent.clone())?;
    match store.find_filter_by_kind(trim_filter.filter_type) {
        None => Err(ServerError::WrongFilter),
        Some(mut existing) => {
            match store.find_nongrata_by_restriction_value(trim_filter.expression.as_str()) {
                None => Err(ServerError::WrongFilter),
                Some(prior) => {
                    proof {
                        let i = choose|i: int|
                            0 <= i < store@.nongratas.len() && store@.nongratas[i] == prior@;
                        assert(store@.nongratas[i].id is Some);
                    }
                    let nongrata_id = match prior.id {
                        Some(v) => v,
                        None => {
                            proof {
                                assert(false);
                            }
                            return Err(ServerError::WrongFilter);
                        },
                    };
                    let filter_id = existing.id.clone();
                    let rule_id = existing.rule_id.clone();
                    let trim_result = existing.trim_expression(trim_filter);
                    match trim_result {
                        Ok(()) => {},
                        Err(e) => {
                            proof {
                                assert(false);
                            }
                            return Err(e);
                        },
                    }
                    let empty = crate::text::trim_ends(
                        existing.expression.as_str(),
                    ).as_str().is_empty();
                    Ok(
                        UnbanPlan {
                            filter_id,
                            rule_id,
                            nongrata_id,
                            expression: existing.expression,
                            empty,
                        },
                    )
                },
            }
        },
    }
}

/// Commits an unban after upstream was told: the filter row is rewritten, or
/// deleted together with its rule when the expression emptied, and the ban
/// record goes.
pub fn apply_unban(store: &mut Store, plan: UnbanPlan) -> (r: Result<(), ServerError>)
    requires
        old(store)@.wf(),
    ensures
        final(store)@.wf(),
        r is Ok <==> old(store)@.has_filter_id(plan.filter_id@) && old(store)@.has_nongrata_id(
            plan.nongrata_id,
        ),
        r is Err ==> r matches Err(ServerError::DBError(_)),
        !old(store)@.has_filter_id(plan.filter_id@) ==> final(store)@ == old(store)@,
        old(store)@.has_filter_id(plan.filter_id@) ==> {
            &&& final(store)@.next_nongrata_id == old(store)@.next_nongrata_id
            &&& plan.empty ==> exists|i: int|
                {
                    &&& 0 <= i < old(store)@.filters.len()
                    &&& (#[trigger] old(store)@.filters[i]).id == plan.filter_id@
                    &&& final(store)@.filters == old(store)@.filters.remove(i)
                }
            &&& !plan.empty ==> exists|i: int|
                {
                    &&& 0 <= i < old(store)@.filters.len()
                    &&& (#[trigger] old(store)@.filters[i]).id == plan.filter_id@
                    &&& final(store)@.filters == old(store)@.filters.update(
                        i,
                        FilterView { expression: plan.expression@, ..old(store)@.filters[i] },
                    )
                }
            &&& old(store)@.has_nongrata_id(plan.nongrata_id) ==> exists|j: int|
                {
                    &&& 0 <= j < old(store)@.nongratas.len()
                    &&& (#[trigger] old(store)@.nongratas[j]).id == Some(plan.nongrata_id)
                    &&& final(store)@.nongratas == old(store)@.nongratas.remove(j)
                }
            &&& !old(store)@.has_nongrata_id(plan.nongrata_id) ==> final(store)@.nongratas == old(
                store,
            )@.nongratas
        },
{
    if plan.empty {
        store.delete_filter(plan.filter_id.as_str())?;
    } else {
        store.update_filter_expression(plan.filter_id.as_str(), plan.expression)?;
    }
    store.delete_nongrata(plan.nongrata_id)?;
    Ok(())
}

/// A filter of `kind` exists whose expression already carries `clause`.
pub open spec fn kind_includes(s: StoreView, kind: FilterType, clause: Seq<char>) -> bool {
    exists|i: int|
        0 <= i < s.filters.len() && (#[trigger] s.filters[i]).filter_type == kind && includes_expr(
            s.filters[i].expression,
            clause,
        )
}

/// Some ban record's clause contains `clause` up to ASCII case.
pub open spec fn has_ci_match(s: StoreView, clause: Seq<char>) -> bool {
    exists|j: int|
        0 <= j < s.nongratas.len() && ci_contains(
            (#[trigger] s.nongratas[j]).restriction_value,
            clause,
        )
}

/// What a granted fresh ban does to the store, and the two upstream requests
/// it issues.
pub open spec fn fresh_ban_outcome(
    pre: StoreView,
    post: StoreView,
    calls: Seq<UpstreamCallView>,
    kind: FilterType,
    clause: Seq<char>,
    reason: Seq<char>,
    analyzer: Seq<char>,
    now: int,
    ttl: int,
    fid: Seq<char>,
    rid: Seq<char>,
) -> bool {
    &&& calls == seq![
        UpstreamCallView::CreateFilter { expression: clause, description: kind.spec_label() },
        UpstreamCallView::CreateRule { filter_id: fid, action: "block"@ },
    ]
    &&& post.filters == pre.filters.push(
        FilterView { id: fid, rule_id: rid, filter_type: kind, expression: clause },
    )
    &&& post.nongratas == pre.nongratas.push(
        ban_record(fid, clause, reason, analyzer, now, ttl, pre.next_nongrata_id),
    )
    &&& post.next_nongrata_id == pre.next_nongrata_id + 1
}

/// What a duplicate ban does to the store: the first ban record whose clause
/// matches is refreshed, and nothing else moves.
pub open spec fn refresh_ban_outcome(
    pre: StoreView,
    post: StoreView,
    clause: Seq<char>,
    reason: Seq<char>,
    analyzer: Seq<char>,
    now: int,
    ttl: int,
) -> bool {
    &&& post.filters == pre.filters
    &&& post.next_nongrata_id == pre.next_nongrata_id
    &&& exists|j: int|
        {
            &&& 0 <= j < pre.nongratas.len()
            &&& ci_contains((#[trigger] pre.nongratas[j]).restriction_value, clause)
            &&& forall|k: int|
                0 <= k < j ==> !ci_contains(
                    (#[trigger] pre.nongratas[k]).restriction_value,
                    clause,
                )
            &&& post.nongratas == pre.nongratas.update(
                j,
                NongrataView {
                    reason: reason,
                    analyzer_id: analyzer,
                    expires_at: spec_expiry(now, ttl),
                    ..pre.nongratas[j]
                },
            )
        }
}

/// What a coalesced ban does to the store, and the one upstream request it
/// issues: the kind's filter takes the extended expression and a ban record
/// is added.
pub open spec fn coalesce_ban_outcome(
    pre: StoreView,
    post: StoreView,
    calls: Seq<UpstreamCallView>,
    kind: FilterType,
    clause: Seq<char>,
    reason: Seq<char>,
    analyzer: Seq<char>,
    now: int,
    ttl: int,
) -> bool {
    exists|i: int|
        {
            &&& 0 <= i < pre.filters.len()
            &&& (#[trigger] pre.filters[i]).filter_type == kind
            &&& calls == seq![
                UpstreamCallView::UpdateFilter {
                    filter_id: pre.filters[i].id,
                    expression: appended_expr(pre.filters[i].expression, clause),
                },
            ]
            &&& post.filters == pre.filters.update(
                i,
                FilterView {
                    expression: appended_expr(pre.filters[i].expression, clause),
                    ..pre.filters[i]
                },
            )
            &&& post.nongratas == pre.nongratas.push(
                ban_record(
                    pre.filters[i].id,
                    clause,
                    reason,
                    analyzer,
                    now,
                    ttl,
                    pre.next_nongrata_id,
                ),
            )
            &&& post.next_nongrata_id == pre.next_nongrata_id + 1
        }
}

/// Commits a fresh ban: the filter takes the upstream-assigned id, then the
/// rule id and the ban record are persisted.
fn ban_fresh_commit(
    store: &mut Store,
    new_filter: Filter,
    new_filter_id: String,
    new_rule_id: String,
    reason: String,
    analyzer_id: String,
    now: i64,
    ttl: u64,
) -> (r: Result<(), ServerError>)
    requires
        old(store)@.wf(),
        old(store)@.next_nongrata_id < i64::MAX,
        !old(store)@.has_kind(new_filter@.filter_type),
    ensures
        final(store)@.wf(),
        !old(store)@.has_filter_id(new_filter_id@) ==> {
            &&& r is Ok
            &&& final(store)@.filters == old(store)@.filters.push(
                FilterView {
                    id: new_filter_id@,
                    rule_id: new_rule_id@,
                    filter_type: new_filter@.filter_type,
                    expression: new_filter@.expression,
                },
            )
            &&& final(store)@.nongratas == old(store)@.nongratas.push(
                ban_record(
                    new_filter_id@,
                    new_filter@.expression,
                    reason@,
                    analyzer_id@,
                    now as int,
                    ttl as int,
                    old(store)@.next_nongrata_id,
                ),
            )
            &&& final(store)@.next_nongrata_id == old(store)@.next_nongrata_id + 1
        },
        old(store)@.has_filter_id(new_filter_id@) ==> (r matches Err(ServerError::DBError(_))
            && final(store)@ == old(store)@),
{
    let ghost kind = new_filter@.filter_type;
    let ghost clause = new_filter@.expression;
    let clause_copy = new_filter.expression.clone();
    let outcome = apply_fresh_filter(store, new_filter, new_filter_id.clone());
    match outcome {
        Err(e) => Err(e),
        Ok(()) => {
            let ghost mid = store@;
            let rule_outcome = apply_fresh_rule(
                store,
                new_filter_id.as_str(),
                new_rule_id,
                clause_copy,
                reason,
                analyzer_id,
                now,
                ttl,
            );
            proof {
                assert(mid.has_filter_id(new_filter_id@)) by {
                    assert(mid.filters[mid.filters.len() - 1].id == new_filter_id@);
                }
            }
            match rule_outcome {
                Err(e) => {
                    proof {
                        assert(false);
                    }
                    Err(e)
                },
                Ok(()) => {
                    proof {
                        let i = choose|i: int|
                            0 <= i < mid.filters.len() && (#[trigger] mid.filters[i]).id
                                == new_filter_id@ && store@.filters == mid.filters.update(
                                i,
                                FilterView { rule_id: new_rule_id@, ..mid.filters[i] },
                            );
                        assert(i == mid.filters.len() - 1) by {
                            if i < mid.filters.len() - 1 {
                                assert(old(store)@.filters[i].id == new_filter_id@);
                                assert(old(store)@.has_filter_id(new_filter_id@));
                            }
                        }
                        assert(store@.filters =~= old(store)@.filters.push(
                            FilterView {
                                id: new_filter_id@,
                                rule_id: new_rule_id@,
                                filter_type: kind,
                                expression: clause,
                            },
                        ));
                    }
                    Ok(())
                },
            }
        },
    }
}

/// One full ban, given the ids upstream assigned: validates, plans, and
/// commits, returning the upstream requests the operation issues, in order.
///
/// A fresh ban creates a filter and a rule upstream and persists filter, rule
/// id and ban record; a coalesced ban extends the existing filter's
/// expression; a duplicate ban only refreshes its ban record and issues no
/// upstream request. A store that had no empty filter expression still has
/// none afterwards.
/// The full contract of a ban: which input errors come on which requests,
/// and for a valid request the outcome of each of the five cases — fresh
/// filter, colliding upstream id, duplicate refreshed, duplicate without its
/// record, and coalesce.
pub open spec fn ban_contract(
    pre: StoreView,
    post: StoreView,
    r: Result<(), ServerError>,
    calls: Seq<UpstreamCallView>,
    req: BlockRequest,
    analyzer: Seq<char>,
    now: int,
    fid: Seq<char>,
    rid: Seq<char>,
) -> bool {
    &&& req.ttl == 0 ==> (r matches Err(ServerError::MissingTTL)) && post == pre && calls.len()
        == 0
    &&& req.ttl > 0 && empty_ua(req.target.user_agent) ==> (r matches Err(
        ServerError::BadRequest(m),
    ) && m@ == "empty 'user_agent'"@) && post == pre && calls.len() == 0
    &&& req.ttl > 0 && !empty_ua(req.target.user_agent) && missing_target(
        req.target.ip,
        req.target.user_agent,
    ) ==> (r matches Err(ServerError::BadRequest(m)) && m@
        == "at least one of 'ip','user_agent' required"@) && post == pre && calls.len() == 0
    &&& ban_request_valid(req) ==> {
        let kind = target_kind(req.target);
        let clause = target_clause(req.target);
        &&& (!pre.has_kind(kind) && !pre.has_filter_id(fid)) ==> {
            &&& r is Ok
            &&& fresh_ban_outcome(
                pre,
                post,
                calls,
                kind,
                clause,
                req.reason@,
                analyzer,
                now,
                req.ttl as int,
                fid,
                rid,
            )
        }
        &&& (!pre.has_kind(kind) && pre.has_filter_id(fid)) ==> {
            &&& r matches Err(ServerError::DBError(_))
            &&& post == pre
            &&& calls.len() == 1
        }
        &&& (pre.has_kind(kind) && kind_includes(pre, kind, clause) && has_ci_match(
            pre,
            clause,
        )) ==> {
            &&& r is Ok
            &&& calls.len() == 0
            &&& refresh_ban_outcome(
                pre,
                post,
                clause,
                req.reason@,
                analyzer,
                now,
                req.ttl as int,
            )
        }
        &&& (pre.has_kind(kind) && kind_includes(pre, kind, clause) && !has_ci_match(
            pre,
            clause,
        )) ==> {
            &&& r matches Err(ServerError::DBError(_))
            &&& post == pre
            &&& calls.len() == 0
        }
        &&& (pre.has_kind(kind) && !kind_includes(pre, kind, clause)) ==> {
            &&& r is Ok
            &&& coalesce_ban_outcome(
                pre,
                post,
                calls,
                kind,
                clause,
                req.reason@,
                analyzer,
                now,
                req.ttl as int,
            )
        }
    }
}

#[verifier::rlimit(100)]
pub fn ban(
    store: &mut Store,
    req: &BlockRequest,
    analyzer_id: String,
    now: i64,
    new_filter_id: String,
    new_rule_id: String,
) -> (res: (Result<(), ServerError>, Vec<UpstreamCall>))
    requires
        old(store)@.wf(),
        old(store)@.next_nongrata_id < i64::MAX,
    ensures
        final(store)@.wf(),
        old(store)@.no_empty_filters() ==> final(store)@.no_empty_filters(),
        ban_contract(
            old(store)@,
            final(store)@,
            res.0,
            res.1.deep_view(),
            *req,
            analyzer_id@,
            now as int,
            new_filter_id@,
            new_rule_id@,
        ),
{
    let mut calls: Vec<UpstreamCall> = Vec::new();
    proof {
        assert(calls.deep_view() =~= Seq::<UpstreamCallView>::empty());
    }
    let plan = plan_ban(store, req);
    match plan {
        Err(e) => (Err(e), calls),
        Ok(BanPlan::Fresh { new_filter }) => {
            let ghost kind = target_kind(req.target);
            let ghost clause = target_clause(req.target);
            let expression_copy = new_filter.expression.clone();
            let description = new_filter.filter_type.label();
            calls.push(
                UpstreamCall::CreateFilter { expression: expression_copy, description },
            );
            calls.push(
                UpstreamCall::CreateRule {
                    filter_id: new_filter_id.clone(),
                    action: String::from_str("block"),
                },
            );
            proof {
                assert(calls.deep_view() =~= seq![
                    UpstreamCallView::CreateFilter {
                        expression: clause,
                        description: kind.spec_label(),
                    },
                    UpstreamCallView::CreateRule {
                        filter_id: new_filter_id@,
                        action: "block"@,
                    },
                ]);
            }
            let outcome = ban_fresh_commit(
                store,
                new_filter,
                new_filter_id,
                new_rule_id,
                req.reason.clone(),
                analyzer_id,
                now,
                req.ttl,
            );
            match outcome {
                Ok(()) => {
                    proof {
                        lemma_target_clause_shape(req.target);
                    }
                    (Ok(()), calls)
                },
                Err(e) => {
                    let mut only_create: Vec<UpstreamCall> = Vec::new();
                    let ghost first = calls.deep_view()[0];
                    let first_call = calls.remove(0);
                    only_create.push(first_call);
                    proof {
                        assert(only_create.deep_view() =~= seq![first]);
                    }
                    (Err(e), only_create)
                },
            }
        },
        Ok(BanPlan::Refresh { nongrata_id }) => {
            let ghost clause = target_clause(req.target);
            let outcome = apply_refresh(
                store,
                nongrata_id,
                req.reason.clone(),
                analyzer_id,
                now,
                req.ttl,
            );
            match outcome {
                Ok(()) => {
                    proof {
                        let j = choose|j: int|
                            {
                                &&& 0 <= j < old(store)@.nongratas.len()
                                &&& ci_contains(
                                    (#[trigger] old(store)@.nongratas[j]).restriction_value,
                                    clause,
                                )
                                &&& old(store)@.nongratas[j].id == Some(nongrata_id)
                                &&& forall|k: int|
                                    0 <= k < j ==> !ci_contains(
                                        (#[trigger] old(store)@.nongratas[k]).restriction_value,
                                        clause,
                                    )
                            };
                        let j2 = choose|j2: int|
                            {
                                &&& 0 <= j2 < old(store)@.nongratas.len()
                                &&& (#[trigger] old(store)@.nongratas[j2]).id == Some(nongrata_id)
                                &&& store@.nongratas == old(store)@.nongratas.update(
                                    j2,
                                    NongrataView {
                                        reason: req.reason@,
                                        analyzer_id: analyzer_id@,
                                        expires_at: spec_expiry(now as int, req.ttl as int),
                                        ..old(store)@.nongratas[j2]
                                    },
                                )
                            };
                        assert(j == j2);
                    }
                    (Ok(()), calls)
                },
                Err(e) => (Err(e), calls),
            }
        },
        Ok(BanPlan::Coalesce { filter_id, expression, clause }) => {
            let ghost kind = target_kind(req.target);
            let ghost cl = target_clause(req.target);
            calls.push(
                UpstreamCall::UpdateFilter {
                    filter_id: filter_id.clone(),
                    expression: expression.clone(),
                },
            );
            let ghost planned_calls = calls.deep_view();
            let outcome = apply_coalesce(
                store,
                filter_id.as_str(),
                expression,
                clause,
                req.reason.clone(),
                analyzer_id,
                now,
                req.ttl,
            );
            match outcome {
                Ok(()) => {
                    proof {
                        let i = choose|i: int|
                            {
                                &&& 0 <= i < old(store)@.filters.len()
                                &&& (#[trigger] old(store)@.filters[i]).filter_type == kind
                                &&& !includes_expr(old(store)@.filters[i].expression, cl)
                                &&& filter_id@ == old(store)@.filters[i].id
                                &&& planned_calls[0] == (UpstreamCallView::UpdateFilter {
                                    filter_id: old(store)@.filters[i].id,
                                    expression: appended_expr(
                                        old(store)@.filters[i].expression,
                                        cl,
                                    ),
                                })
                            };
                        let i2 = choose|i2: int|
                            {
                                &&& 0 <= i2 < old(store)@.filters.len()
                                &&& (#[trigger] old(store)@.filters[i2]).id == filter_id@
                                &&& store@.filters == old(store)@.filters.update(
                                    i2,
                                    FilterView {
                                        expression: appended_expr(
                                            old(store)@.filters[i2].expression,
                                            cl,
                                        ),
                                        ..old(store)@.filters[i2]
                                    },
                                )
                            };
                        assert(i == i2);
                        reveal_strlit(" or ");
                        assert(appended_expr(old(store)@.filters[i].expression, cl).len() > 0);
                        assert(planned_calls =~= seq![
                            UpstreamCallView::UpdateFilter {
                                filter_id: old(store)@.filters[i].id,
                                expression: appended_expr(old(store)@.filters[i].expression, cl),
                            },
                        ]);
                    }
                    (Ok(()), calls)
                },
                Err(e) => {
                    proof {
                        assert(false);
                    }
                    (Err(e), calls)
                },
            }
        },
    }
}

/// The clause a valid target contributes is non-empty, with bare ends.
pub proof fn lemma_target_clause_shape(t: Target)
    requires
        target_valid(t),
    ensures
        target_clause(t).len() > 0,
        !is_space(target_clause(t)[0]),
        !is_space(target_clause(t)[target_clause(t).len() - 1]),
{
    match (t.ip, t.user_agent) {
        (Some(i), None) => lemma_ip_clause_shape(i@),
        (None, Some(u)) => lemma_ua_clause_shape(u@),
        (Some(i), Some(u)) => lemma_ip_ua_clause_shape(i@, u@),
        (None, None) => {},
    }
}

/// What a granted unban does to the store, and the one upstream request it
/// issues: the clause leaves the kind's filter, which is deleted together
/// with its rule if nothing remains, and the first matching ban record goes.
pub open spec fn unban_outcome(
    pre: StoreView,
    post: StoreView,
    calls: Seq<UpstreamCallView>,
    kind: FilterType,
    clause: Seq<char>,
) -> bool {
    &&& exists|i: int|
        {
            &&& 0 <= i < pre.filters.len()
            &&& (#[trigger] pre.filters[i]).filter_type == kind
            &&& {
                let trimmed = trimmed_expr(pre.filters[i].expression, clause);
                if trim_spec(trimmed).len() == 0 {
                    &&& calls == seq![
                        UpstreamCallView::DeleteRule { rule_id: pre.filters[i].rule_id },
                    ]
                    &&& post.filters == pre.filters.remove(i)
                } else {
                    &&& calls == seq![
                        UpstreamCallView::UpdateFilter {
                            filter_id: pre.filters[i].id,
                            expression: trimmed,
                        },
                    ]
                    &&& post.filters == pre.filters.update(
                        i,
                        FilterView { expression: trimmed, ..pre.filters[i] },
                    )
                }
            }
        }
    &&& exists|j: int|
        {
            &&& 0 <= j < pre.nongratas.len()
            &&& ci_contains((#[trigger] pre.nongratas[j]).restriction_value, clause)
            &&& forall|k: int|
                0 <= k < j ==> !ci_contains(
                    (#[trigger] pre.nongratas[k]).restriction_value,
                    clause,
                )
            &&& post.nongratas == pre.nongratas.remove(j)
        }
    &&& post.next_nongrata_id == pre.next_nongrata_id
}

/// One full unban: validates, plans, and commits, returning the upstream
/// request the operation issues. The clause of the target is trimmed out of
/// its kind's filter; if the filter empties, rule and filter are deleted,
/// else the filter is rewritten; the matching ban record is removed. A store
/// that had no empty filter expression still has none afterwards.
/// The full contract of an unban: which input errors come on which requests,
/// `WrongFilter` when the target's kind has no filter or its clause no ban
/// record, and otherwise the trim-and-delete outcome.
pub open spec fn unban_contract(
    pre: StoreView,
    post: StoreView,
    r: Result<(), ServerError>,
    calls: Seq<UpstreamCallView>,
    req: UnblockRequest,
) -> bool {
    &&& empty_ua(req.target.user_agent) ==> (r matches Err(ServerError::BadRequest(m)) && m@
        == "empty 'user_agent'"@) && post == pre && calls.len() == 0
    &&& !empty_ua(req.target.user_agent) && missing_target(req.target.ip, req.target.user_agent)
        ==> (r matches Err(ServerError::BadRequest(m)) && m@
        == "at least one of 'ip','user_agent' required"@) && post == pre && calls.len() == 0
    &&& target_valid(req.target) ==> {
        let kind = target_kind(req.target);
        let clause = target_clause(req.target);
        &&& (!pre.has_kind(kind) || !has_ci_match(pre, clause)) ==> (r matches Err(
            ServerError::WrongFilter,
        )) && post == pre && calls.len() == 0
        &&& (pre.has_kind(kind) && has_ci_match(pre, clause)) ==> {
            &&& r is Ok
            &&& unban_outcome(pre, post, calls, kind, clause)
        }
    }
}

#[verifier::rlimit(100)]
pub fn unban(store: &mut Store, req: &UnblockRequest) -> (res: (Result<(), ServerError>, Vec<
    UpstreamCall,
>))
    requires
        old(store)@.wf(),
    ensures
        final(store)@.wf(),
        old(store)@.no_empty_filters() ==> final(store)@.no_empty_filters(),
        unban_contract(old(store)@, final(store)@, res.0, res.1.deep_view(), *req),
{
    let mut calls: Vec<UpstreamCall> = Vec::new();
    proof {
        assert(calls.deep_view() =~= Seq::<UpstreamCallView>::empty());
    }
    let ghost kind = target_kind(req.target);
    let ghost clause = target_clause(req.target);
    let plan = match plan_unban(store, req) {
        Err(e) => {
            proof {
                if target_valid(req.target) {
                    if old(store)@.has_kind(kind) && has_ci_match(old(store)@, clause) {
                        assert(false);
                    }
                }
            }
            return (Err(e), calls);
        },
        Ok(p) => p,
    };
    proof {
        if target_valid(req.target) {
            if !old(store)@.has_kind(kind) || !has_ci_match(old(store)@, clause) {
                assert(false);
            }
        }
    }
    if plan.empty {
        calls.push(UpstreamCall::DeleteRule { rule_id: plan.rule_id.clone() });
        proof {
            assert(calls.deep_view() =~= seq![
                UpstreamCallView::DeleteRule { rule_id: plan.rule_id@ },
            ]);
        }
    } else {
        calls.push(
            UpstreamCall::UpdateFilter {
                filter_id: plan.filter_id.clone(),
                expression: plan.expression.clone(),
            },
        );
        proof {
            assert(calls.deep_view() =~= seq![
                UpstreamCallView::UpdateFilter {
                    filter_id: plan.filter_id@,
                    expression: plan.expression@,
                },
            ]);
        }
    }
    let ghost planned_calls = calls.deep_view();
    let ghost plan_snapshot = plan;
    let outcome = apply_unban(store, plan);
    proof {
        let i = choose|i: int|
            {
                &&& 0 <= i < old(store)@.filters.len()
                &&& (#[trigger] old(store)@.filters[i]).filter_type == kind
                &&& plan_snapshot.filter_id@ == old(store)@.filters[i].id
                &&& plan_snapshot.rule_id@ == old(store)@.filters[i].rule_id
                &&& plan_snapshot.expression@ == trimmed_expr(
                    old(store)@.filters[i].expression,
                    clause,
                )
                &&& plan_snapshot.empty == (trim_spec(
                    trimmed_expr(old(store)@.filters[i].expression, clause),
                ).len() == 0)
            };
        assert(old(store)@.has_filter_id(plan_snapshot.filter_id@));
        let j = choose|j: int|
            {
                &&& 0 <= j < old(store)@.nongratas.len()
                &&& ci_contains((#[trigger] old(store)@.nongratas[j]).restriction_value, clause)
                &&& old(store)@.nongratas[j].id == Some(plan_snapshot.nongrata_id)
                &&& forall|k: int|
                    0 <= k < j ==> !ci_contains(
                        (#[trigger] old(store)@.nongratas[k]).restriction_value,
                        clause,
                    )
            };
        assert(old(store)@.has_nongrata_id(plan_snapshot.nongrata_id));
    }
    match outcome {
        Err(e) => {
            proof {
                assert(false);
            }
            (Err(e), calls)
        },
        Ok(()) => {
            proof {
                let i = choose|i: int|
                    {
                        &&& 0 <= i < old(store)@.filters.len()
                        &&& (#[trigger] old(store)@.filters[i]).filter_type == kind
                        &&& plan_snapshot.filter_id@ == old(store)@.filters[i].id
                        &&& plan_snapshot.rule_id@ == old(store)@.filters[i].rule_id
                        &&& plan_snapshot.expression@ == trimmed_expr(
                            old(store)@.filters[i].expression,
                            clause,
                        )
                        &&& plan_snapshot.empty == (trim_spec(
                            trimmed_expr(old(store)@.filters[i].expression, clause),
                        ).len() == 0)
                    };
                if plan_snapshot.empty {
                    let i2 = choose|i2: int|
                        {
                            &&& 0 <= i2 < old(store)@.filters.len()
                            &&& (#[trigger] old(store)@.filters[i2]).id
                                == plan_snapshot.filter_id@
                            &&& store@.filters == old(store)@.filters.remove(i2)
                        };
                    assert(i == i2);
                } else {
                    let i2 = choose|i2: int|
                        {
                            &&& 0 <= i2 < old(store)@.filters.len()
                            &&& (#[trigger] old(store)@.filters[i2]).id
                                == plan_snapshot.filter_id@
                            &&& store@.filters == old(store)@.filters.update(
                                i2,
                                FilterView {
                                    expression: plan_snapshot.expression@,
                                    ..old(store)@.filters[i2]
                                },
                            )
                        };
                    assert(i == i2);
                    assert(trim_spec(plan_snapshot.expression@).len() > 0);
                    lemma_trim_len(plan_snapshot.expression@);
                }
                let j = choose|j: int|
                    {
                        &&& 0 <= j < old(store)@.nongratas.len()
                        &&& ci_contains(
                            (#[trigger] old(store)@.nongratas[j]).restriction_value,
                            clause,
                        )
                        &&& old(store)@.nongratas[j].id == Some(plan_snapshot.nongrata_id)
                        &&& forall|k: int|
                            0 <= k < j ==> !ci_contains(
                                (#[trigger] old(store)@.nongratas[k]).restriction_value,
                                clause,
                            )
                    };
                let j2 = choose|j2: int|
                    {
                        &&& 0 <= j2 < old(store)@.nongratas.len()
                        &&& (#[trigger] old(store)@.nongratas[j2]).id == Some(
                            plan_snapshot.nongrata_id,
                        )
                        &&& store@.nongratas == old(store)@.nongratas.remove(j2)
                    };
                assert(j == j2);
            }
            (Ok(()), calls)
        },
    }
}

/// Relies on `chrono::Utc::now`: the number of non-leap seconds since the
/// Unix epoch at the moment of the call. Nothing can be promised of a clock
/// reading; chrono itself refuses a system clock set before the epoch.
#[verifier::external_body]
pub fn current_unix_time() -> i64 {
    chrono::Utc::now().timestamp()
}

/// One full ban stamped with the wall clock: as [`ban`], at whatever time the
/// clock reports. The contract holds for every reading the clock can return.
pub fn ban_at_current_time(
    store: &mut Store,
    req: &BlockRequest,
    analyzer_id: String,
    new_filter_id: String,
    new_rule_id: String,
) -> (res: (Result<(), ServerError>, Vec<UpstreamCall>))
    requires
        old(store)@.wf(),
        old(store)@.next_nongrata_id < i64::MAX,
    ensures
        final(store)@.wf(),
        old(store)@.no_empty_filters() ==> final(store)@.no_empty_filters(),
        exists|now: int|
            ban_contract(
                old(store)@,
                final(store)@,
                res.0,
                res.1.deep_view(),
                *req,
                analyzer_id@,
                now,
                new_filter_id@,
                new_rule_id@,
            ),
{
    let now = current_unix_time();
    let res = ban(store, req, analyzer_id, now, new_filter_id, new_rule_id);
    proof {
        assert(ban_contract(
            old(store)@,
            store@,
            res.0,
            res.1.deep_view(),
            *req,
            analyzer_id@,
            now as int,
            new_filter_id@,
            new_rule_id@,
        ));
    }
    res
}

} // verus!



