//! The mode gate and the dry-run executors.
//!
//! A process-wide switch decides, once per incoming operation, whether it
//! runs against the real executor or a dry one. A dry operation validates its
//! input exactly like a real one but writes nothing to the store and issues
//! no upstream request, so no sequence of dry-mode operations can corrupt
//! state.

use crate::errors::ServerError;
use crate::executor::{ban, ban_contract, ban_request_valid, target_valid, unban, unban_contract,
    BlockRequest, UnblockRequest, UpstreamCall};
use crate::models::{empty_ua, missing_target, Filter};
use crate::store::{Store, StoreView};
use vstd::prelude::*;

verus! {

/// What a dry ban returns: exactly the validation verdict of a real one.
pub open spec fn dry_ban_contract(r: Result<(), ServerError>, req: BlockRequest) -> bool {
    &&& r is Ok <==> ban_request_valid(req)
    &&& req.ttl == 0 ==> (r matches Err(ServerError::MissingTTL))
    &&& req.ttl > 0 && empty_ua(req.target.user_agent) ==> (r matches Err(
        ServerError::BadRequest(m),
    ) && m@ == "empty 'user_agent'"@)
    &&& req.ttl > 0 && !empty_ua(req.target.user_agent) && missing_target(
        req.target.ip,
        req.target.user_agent,
    ) ==> (r matches Err(ServerError::BadRequest(m)) && m@
        == "at least one of 'ip','user_agent' required"@)
}

/// What a dry unban returns: exactly the validation verdict of the target.
pub open spec fn dry_unban_contract(r: Result<(), ServerError>, req: UnblockRequest) -> bool {
    &&& r is Ok <==> target_valid(req.target)
    &&& empty_ua(req.target.user_agent) ==> (r matches Err(ServerError::BadRequest(m)) && m@
        == "empty 'user_agent'"@)
    &&& !empty_ua(req.target.user_agent) && missing_target(req.target.ip, req.target.user_agent)
        ==> (r matches Err(ServerError::BadRequest(m)) && m@
        == "at least one of 'ip','user_agent' required"@)
}

/// The dry executor: validates and classifies, touches nothing.
pub struct ExecutorServiceDry {}

impl ExecutorServiceDry {
    /// A dry executor; it holds no state.
    pub fn new() -> (r: Self) {
        Self {}
    }

    /// Validates a ban as the real executor would, without applying it.
    pub fn ban(&self, req: &BlockRequest, _analyzer_id: String) -> (r: Result<(), ServerError>)
        ensures
            dry_ban_contract(r, *req),
    {
        dry_ban_check(req)
    }

    /// Validates an unban as the real executor would, without applying it.
    pub fn unban(&self, req: &UnblockRequest) -> (r: Result<(), ServerError>)
        ensures
            dry_unban_contract(r, *req),
    {
        dry_unban_check(req)
    }
}

/// A second dry executor under the name its callers keep using; it behaves
/// exactly like [`ExecutorServiceDry`].
pub struct ExecutorServiceDryRun {}

impl ExecutorServiceDryRun {
    /// A dry executor; it holds no state.
    pub fn new() -> (r: Self) {
        Self {}
    }

    /// Validates a ban as the real executor would, without applying it.
    pub fn ban(&self, req: &BlockRequest, _analyzer_id: String) -> (r: Result<(), ServerError>)
        ensures
            dry_ban_contract(r, *req),
    {
        dry_ban_check(req)
    }

    /// Validates an unban as the real executor would, without applying it.
    pub fn unban(&self, req: &UnblockRequest) -> (r: Result<(), ServerError>)
        ensures
            dry_unban_contract(r, *req),
    {
        dry_unban_check(req)
    }
}

fn dry_ban_check(req: &BlockRequest) -> (r: Result<(), ServerError>)
    ensures
        dry_ban_contract(r, *req),
{
    if req.ttl == 0 {
        return Err(ServerError::MissingTTL);
    }
    match Filter::new(req.target.ip.clone(), req.target.user_agent.clone()) {
        Ok(_) => Ok(()),
        Err(e) => Err(e),
    }
}

fn dry_unban_check(req: &UnblockRequest) -> (r: Result<(), ServerError>)
    ensures
        dry_unban_contract(r, *req),
{
    match Filter::new(req.target.ip.clone(), req.target.user_agent.clone()) {
        Ok(_) => Ok(()),
        Err(e) => Err(e),
    }
}

/// Dispatches a ban by mode. Dry mode provably leaves the store untouched and
/// issues no upstream request while returning the same validation verdict;
/// operational mode meets the real executor's full contract.
pub fn ban_according_to_mode(
    is_dry: bool,
    store: &mut Store,
    req: &BlockRequest,
    analyzer_id: String,
    now: i64,
    new_filter_id: String,
    new_rule_id: String,
) -> (res: (Result<(), ServerError>, Vec<UpstreamCall>))
    requires
        old(store)@.wf(),
        old(store)@.next_nongrata_id < i64::MAX,
    ensures
        final(store)@.wf(),
        old(store)@.no_empty_filters() ==> final(store)@.no_empty_filters(),
        is_dry ==> final(store)@ == old(store)@ && res.1@.len() == 0 && dry_ban_contract(
            res.0,
            *req,
        ),
        !is_dry ==> ban_contract(
            old(store)@,
            final(store)@,
            res.0,
            res.1.deep_view(),
            *req,
            analyzer_id@,
            now as int,
            new_filter_id@,
            new_rule_id@,
        ),
{
    if is_dry {
        let dry_service = ExecutorServiceDryRun::new();
        (dry_service.ban(req, analyzer_id), Vec::new())
    } else {
        ban(store, req, analyzer_id, now, new_filter_id, new_rule_id)
    }
}

/// Dispatches an unban by mode, as [`ban_according_to_mode`] does for bans.
pub fn unban_according_to_mode(is_dry: bool, store: &mut Store, req: &UnblockRequest) -> (res: (
    Result<(), ServerError>,
    Vec<UpstreamCall>,
))
    requires
        old(store)@.wf(),
    ensures
        final(store)@.wf(),
        old(store)@.no_empty_filters() ==> final(store)@.no_empty_filters(),
        is_dry ==> final(store)@ == old(store)@ && res.1@.len() == 0 && dry_unban_contract(
            res.0,
            *req,
        ),
        !is_dry ==> unban_contract(old(store)@, final(store)@, res.0, res.1.deep_view(), *req),
{
    if is_dry {
        let dry_service = ExecutorServiceDryRun::new();
        (dry_service.unban(req), Vec::new())
    } else {
        unban(store, req)
    }
}

/// Dry-mode operations compose: when every step of a run leaves the store as
/// it found it, as each dry dispatch does, the store at the end of the run
/// equals the store at its start, however many operations ran and in whatever
/// order.
pub proof fn lemma_dry_sequence(states: Seq<StoreView>)
    requires
        states.len() > 0,
        forall|i: int| 0 < i < states.len() ==> #[trigger] states[i] == states[i - 1],
    ensures
        states.last() == states[0],
    decreases states.len(),
{
    if states.len() > 1 {
        lemma_dry_sequence(states.drop_last());
    }
}

} // verus!
