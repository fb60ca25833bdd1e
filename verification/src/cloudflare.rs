//! The upstream CDN wire model: request payloads, request paths, and the
//! interpretation of replies.
//!
//! Sending the HTTPS requests is the caller's job; this module builds every
//! byte of what is sent — the JSON payload values and the URL paths — and
//! decides from the reply's plain fields (`success`, error messages, result
//! ids) what the operation returned.

use crate::errors::ServerError;
use crate::models;
use vstd::prelude::*;

verus! {

/// Payload of a rule creation: the action and the filter it attaches to.
#[derive(Debug, Clone)]
pub struct CreateRuleRequest {
    pub action: String,
    pub filter: Filter,
}

/// A filter reference inside a rule-creation payload.
#[derive(Debug, Clone)]
pub struct Filter {
    pub id: String,
}

/// Payload of a filter creation.
#[derive(Debug, Clone)]
pub struct CreateFilterRequest {
    pub expression: String,
    pub description: String,
}

/// Payload of a filter update.
#[derive(Debug, Clone)]
pub struct UpdateFilterRequest {
    pub id: String,
    pub expression: String,
}

impl CreateRuleRequest {
    /// The rule-creation payload for a filter id, with the action's wire
    /// form.
    pub fn from_parts(filter_id: String, action: &models::RestrictionType) -> (r: Self)
        ensures
            r.action@ == action.spec_label(),
            r.filter.id@ == filter_id@,
    {
        CreateRuleRequest { action: action.label(), filter: Filter { id: filter_id } }
    }
}

impl CreateFilterRequest {
    /// The filter-creation payload for a filter: its expression, described by
    /// its kind.
    pub fn from_filter(filter: &models::Filter) -> (r: Self)
        ensures
            r.expression@ == filter@.expression,
            r.description@ == filter@.filter_type.spec_label(),
    {
        CreateFilterRequest {
            expression: filter.expression.clone(),
            description: filter.filter_type.label(),
        }
    }
}

impl UpdateFilterRequest {
    /// The filter-update payload for a filter: its id and new expression.
    pub fn from_filter(filter: &models::Filter) -> (r: Self)
        ensures
            r.id@ == filter@.id,
            r.expression@ == filter@.expression,
    {
        UpdateFilterRequest { id: filter.id.clone(), expression: filter.expression.clone() }
    }
}

/// The request path for the firewall-rules collection of a zone.
pub open spec fn spec_rules_path(zone_id: Seq<char>) -> Seq<char> {
    "zones/"@ + zone_id + "/firewall/rules"@
}

/// The request path for the filters collection of a zone.
pub open spec fn spec_filters_path(zone_id: Seq<char>) -> Seq<char> {
    "zones/"@ + zone_id + "/filters"@
}

/// The request path for one firewall rule of a zone.
pub open spec fn spec_rule_path(zone_id: Seq<char>, rule_id: Seq<char>) -> Seq<char> {
    "zones/"@ + zone_id + "/firewall/rules/"@ + rule_id
}

/// Builds [`spec_rules_path`].
pub fn rules_path(zone_id: &str) -> (r: String)
    ensures
        r@ == spec_rules_path(zone_id@),
{
    let r = String::from_str("zones/").concat(zone_id).concat("/firewall/rules");
    proof {
        assert(r@ =~= spec_rules_path(zone_id@));
    }
    r
}

/// Builds [`spec_filters_path`].
pub fn filters_path(zone_id: &str) -> (r: String)
    ensures
        r@ == spec_filters_path(zone_id@),
{
    let r = String::from_str("zones/").concat(zone_id).concat("/filters");
    proof {
        assert(r@ =~= spec_filters_path(zone_id@));
    }
    r
}

/// Builds [`spec_rule_path`]. The rule deletion request carries the query
/// parameter `delete_filter_if_unused=true` beside this path, so the filter
/// the rule used goes with it.
pub fn rule_path(zone_id: &str, rule_id: &str) -> (r: String)
    ensures
        r@ == spec_rule_path(zone_id@, rule_id@),
{
    let r = String::from_str("zones/").concat(zone_id).concat("/firewall/rules/").concat(rule_id);
    proof {
        assert(r@ =~= spec_rule_path(zone_id@, rule_id@));
    }
    r
}

/// Judges a reply that carries no result payload: `success = false` is an
/// upstream failure carrying the provider's messages.
pub fn interpret_reply(success: bool, messages: Vec<String>) -> (r: Result<(), ServerError>)
    ensures
        success <==> r is Ok,
        !success ==> (r matches Err(ServerError::Unsuccessfull { errors }) && errors.deep_view()
            == messages.deep_view()),
{
    if success {
        Ok(())
    } else {
        Err(ServerError::Unsuccessfull { errors: messages })
    }
}

/// Judges a reply whose result should carry created objects, and hands back
/// the id of the first one: `success = false` is an upstream failure, a
/// missing or empty result is a malformed reply.
pub fn interpret_id_reply(success: bool, messages: Vec<String>, ids: Vec<String>) -> (r: Result<
    String,
    ServerError,
>)
    ensures
        r is Ok <==> success && ids.deep_view().len() > 0,
        r matches Ok(id) ==> id@ == ids.deep_view()[0],
        !success ==> (r matches Err(ServerError::Unsuccessfull { errors }) && errors.deep_view()
            == messages.deep_view()),
        success && ids.deep_view().len() == 0 ==> (r matches Err(ServerError::WrappedErr { cause })
            && cause@ == "bad response"@),
{
    if !success {
        return Err(ServerError::Unsuccessfull { errors: messages });
    }
    if ids.len() == 0 {
        return Err(ServerError::WrappedErr { cause: String::from_str("bad response") });
    }
    Ok(ids[0].clone())
}

} // verus!
