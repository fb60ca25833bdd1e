//! The filter algebra and the persisted records.
//!
//! A filter holds one boolean expression for the upstream firewall; each ban
//! contributes one clause, and same-kind clauses are joined with ` or `. A
//! nongrata records one active ban and points at the filter carrying its
//! clause.

use crate::errors::ServerError;
use crate::text::{
    collapse, contains_sub, count_sub, has_sub, remove_all, remove_all_sub, remove_first,
    remove_first_sub, trim_ends, trim_spec,
};
use vstd::prelude::*;

verus! {

/// The action a restriction asks of the upstream firewall.
#[derive(Debug, Clone)]
pub enum RestrictionType {
    Block,
    Challenge,
    Whitelist,
    Unblock(String),
}

impl RestrictionType {
    /// What [`Self::label`] returns: the lowercase wire form of the action.
    pub open spec fn spec_label(&self) -> Seq<char> {
        match self {
            RestrictionType::Block => "block"@,
            RestrictionType::Challenge => "challenge"@,
            RestrictionType::Whitelist => "whitelist"@,
            RestrictionType::Unblock(_) => "unblock"@,
        }
    }

    /// The lowercase wire form of the action.
    pub fn label(&self) -> (r: String)
        ensures
            r@ == self.spec_label(),
    {
        match self {
            RestrictionType::Block => String::from_str("block"),
            RestrictionType::Challenge => String::from_str("challenge"),
            RestrictionType::Whitelist => String::from_str("whitelist"),
            RestrictionType::Unblock(_) => String::from_str("unblock"),
        }
    }
}

/// The input-shape classification of a filter: which identifiers were given.
/// `Unset` marks a filter rebuilt from a stored expression whose kind must be
/// inherited from context before any comparison.
#[derive(Debug, Clone, Copy, PartialEq, Eq, Structural)]
pub enum FilterType {
    IP,
    UserAgent,
    IPUserAgent,
    Unset,
}

impl FilterType {
    /// What [`Self::label`] returns.
    pub open spec fn spec_label(&self) -> Seq<char> {
        match self {
            FilterType::IP => "ip"@,
            FilterType::UserAgent => "user_agent"@,
            FilterType::IPUserAgent => "ip_user_agent"@,
            FilterType::Unset => "unset"@,
        }
    }

    /// The textual form of the kind, used as the upstream filter description.
    pub fn label(&self) -> (r: String)
        ensures
            r@ == self.spec_label(),
    {
        match self {
            FilterType::IP => String::from_str("ip"),
            FilterType::UserAgent => String::from_str("user_agent"),
            FilterType::IPUserAgent => String::from_str("ip_user_agent"),
            FilterType::Unset => String::from_str("unset"),
        }
    }
}

/// The clause contributed by a ban on an IP address alone.
pub open spec fn ip_clause(ip: Seq<char>) -> Seq<char> {
    "(ip.src eq "@ + ip + ")"@
}

/// The clause contributed by a ban on a User-Agent alone.
pub open spec fn ua_clause(ua: Seq<char>) -> Seq<char> {
    "(http.user_agent eq \""@ + ua + "\")"@
}

/// The clause contributed by a ban on an (IP, User-Agent) pair.
pub open spec fn ip_ua_clause(ip: Seq<char>, ua: Seq<char>) -> Seq<char> {
    "(ip.src eq "@ + ip + " and http.user_agent eq \""@ + ua + "\")"@
}

/// What appending a same-kind filter does to an expression: both sides are
/// trimmed and joined with ` or `.
pub open spec fn appended_expr(e: Seq<char>, b: Seq<char>) -> Seq<char> {
    trim_spec(e) + " or "@ + trim_spec(b)
}

/// The pattern removed first when trimming clause `b` out of an expression:
/// the clause with the separator that joined it to a predecessor.
pub open spec fn or_pattern(b: Seq<char>) -> Seq<char> {
    trim_spec("or "@ + trim_spec(b))
}

/// The fallback pattern when the clause has no predecessor: the clause with
/// the separator that joins it to a successor.
pub open spec fn lead_pattern(b: Seq<char>) -> Seq<char> {
    trim_spec(trim_spec(b) + " or"@)
}

/// What trimming clause `b` out of expression `e` yields: the clause goes
/// together with one adjacent `or` — the joining one before it, or, when the
/// clause opens the expression, the one after it — then every residual bare
/// occurrence goes, then whitespace is collapsed.
pub open spec fn trimmed_expr(e: Seq<char>, b: Seq<char>) -> Seq<char> {
    let step1 = if has_sub(e, or_pattern(b)) {
        remove_first(e, or_pattern(b))
    } else {
        remove_first(e, lead_pattern(b))
    };
    collapse(remove_all(step1, trim_spec(b)))
}

/// Whether expression `e` already carries clause `b`.
pub open spec fn includes_expr(e: Seq<char>, b: Seq<char>) -> bool {
    has_sub(e, trim_spec(b))
}

/// How many clauses an expression carries: one more than its ` or `
/// separators. Faithful for the expressions this library builds, whose
/// clauses carry no separator text of their own.
pub open spec fn clause_count(e: Seq<char>) -> int {
    count_sub(e, " or "@) + 1
}

/// A `ua` that is present but empty is rejected.
pub open spec fn empty_ua(ua: Option<String>) -> bool {
    ua matches Some(u) && u@.len() == 0
}

/// Neither identifier is present.
pub open spec fn missing_target(ip: Option<String>, ua: Option<String>) -> bool {
    ip is None && ua is None
}

/// One filter: at most one is persisted per kind, and its expression is the
/// ground truth for which clauses exist.
#[derive(Debug, Clone)]
pub struct Filter {
    /// Opaque id assigned by the upstream CDN on creation; empty until then.
    pub id: String,
    /// Opaque id of the upstream firewall rule referencing this filter; empty
    /// while no rule is attached.
    pub rule_id: String,
    /// The input-shape classification.
    pub filter_type: FilterType,
    /// The upstream firewall-expression string.
    pub expression: String,
}

/// The mathematical value of a [`Filter`].
pub struct FilterView {
    pub id: Seq<char>,
    pub rule_id: Seq<char>,
    pub filter_type: FilterType,
    pub expression: Seq<char>,
}

impl View for Filter {
    type V = FilterView;

    open spec fn view(&self) -> FilterView {
        FilterView {
            id: self.id@,
            rule_id: self.rule_id@,
            filter_type: self.filter_type,
            expression: self.expression@,
        }
    }
}

impl DeepView for Filter {
    type V = FilterView;

    open spec fn deep_view(&self) -> FilterView {
        self@
    }
}

impl Filter {
    /// Rebuilds a filter value from a stored expression, for use as a trim
    /// target. The kind is `Unset` until the caller assigns the real kind of
    /// the filter it was loaded against.
    pub fn from_expression(id: String, expr: String) -> (r: Self)
        ensures
            r@.id == id@,
            r@.rule_id == Seq::<char>::empty(),
            r@.filter_type == FilterType::Unset,
            r@.expression == expr@,
    {
        Self { id, rule_id: String::new(), filter_type: FilterType::Unset, expression: expr }
    }

    /// Classifies a ban target and builds its single clause.
    ///
    /// At least one identifier must be present and a present `ua` must be
    /// non-empty; the kind follows from which identifiers are set, and the
    /// expression is the clause of that kind. `ip` is the canonical text of an
    /// already-parsed IP address.
    pub fn new(ip: Option<String>, ua: Option<String>) -> (r: Result<Self, ServerError>)
        ensures
            r is Ok <==> !empty_ua(ua) && !missing_target(ip, ua),
            empty_ua(ua) ==> (r matches Err(ServerError::BadRequest(m)) && m@
                == "empty 'user_agent'"@),
            !empty_ua(ua) && missing_target(ip, ua) ==> (r matches Err(
                ServerError::BadRequest(m),
            ) && m@ == "at least one of 'ip','user_agent' required"@),
            r matches Ok(f) ==> {
                &&& f@.id == Seq::<char>::empty()
                &&& f@.rule_id == Seq::<char>::empty()
                &&& match (ip, ua) {
                    (Some(i), None) => f@.filter_type == FilterType::IP && f@.expression
                        == ip_clause(i@),
                    (None, Some(u)) => f@.filter_type == FilterType::UserAgent && f@.expression
                        == ua_clause(u@),
                    (Some(i), Some(u)) => f@.filter_type == FilterType::IPUserAgent
                        && f@.expression == ip_ua_clause(i@, u@),
                    (None, None) => false,
                }
            },
    {
        if let Some(u) = &ua {
            if u.as_str().is_empty() {
                return Err(ServerError::BadRequest(String::from_str("empty 'user_agent'")));
            }
        }
        match (ua, ip) {
            (None, None) => Err(
                ServerError::BadRequest(
                    String::from_str("at least one of 'ip','user_agent' required"),
                ),
            ),
            (Some(u), None) => {
                let expression = String::from_str("(http.user_agent eq \"").concat(
                    u.as_str(),
                ).concat("\")");
                proof {
                    assert(expression@ =~= ua_clause(u@));
                }
                Ok(
                    Self {
                        id: String::new(),
                        rule_id: String::new(),
                        filter_type: FilterType::UserAgent,
                        expression,
                    },
                )
            },
            (None, Some(i)) => {
                let expression = String::from_str("(ip.src eq ").concat(i.as_str()).concat(")");
                proof {
                    assert(expression@ =~= ip_clause(i@));
                }
                Ok(
                    Self {
                        id: String::new(),
                        rule_id: String::new(),
                        filter_type: FilterType::IP,
                        expression,
                    },
                )
            },
            (Some(u), Some(i)) => {
                let expression = String::from_str("(ip.src eq ").concat(i.as_str()).concat(
                    " and http.user_agent eq \"",
                ).concat(u.as_str()).concat("\")");
                proof {
                    assert(expression@ =~= ip_ua_clause(i@, u@));
                }
                Ok(
                    Self {
                        id: String::new(),
                        rule_id: String::new(),
                        filter_type: FilterType::IPUserAgent,
                        expression,
                    },
                )
            },
        }
    }

    /// Extends this filter's expression with the same-kind clause of
    /// `to_append`, joined by ` or `. Kinds must match, else `WrongFilter`.
    pub fn append(&mut self, to_append: Filter) -> (r: Result<(), ServerError>)
        ensures
            old(self)@.filter_type == to_append@.filter_type ==> {
                &&& r is Ok
                &&& final(self)@.expression == appended_expr(
                    old(self)@.expression,
                    to_append@.expression,
                )
                &&& final(self)@.id == old(self)@.id
                &&& final(self)@.rule_id == old(self)@.rule_id
                &&& final(self)@.filter_type == old(self)@.filter_type
            },
            old(self)@.filter_type != to_append@.filter_type ==> (r matches Err(
                ServerError::WrongFilter,
            ) && final(self)@ == old(self)@),
    {
        if self.filter_type == to_append.filter_type {
            let a = trim_ends(self.expression.as_str());
            let b = trim_ends(to_append.expression.as_str());
            let joined = a.concat(" or ").concat(b.as_str());
            proof {
                assert(joined@ =~= appended_expr(old(self)@.expression, to_append@.expression));
            }
            self.expression = joined;
            Ok(())
        } else {
            Err(ServerError::WrongFilter)
        }
    }

    /// Removes the same-kind clause of `trim_filter` from this filter's
    /// expression: the first occurrence joined by `or` — before the clause,
    /// or after it when the clause opens the expression — then every residual
    /// bare occurrence, then whitespace is collapsed. Kinds must match, else
    /// `WrongFilter`.
    pub fn trim_expression(&mut self, trim_filter: Filter) -> (r: Result<(), ServerError>)
        ensures
            old(self)@.filter_type == trim_filter@.filter_type ==> {
                &&& r is Ok
                &&& final(self)@.expression == trimmed_expr(
                    old(self)@.expression,
                    trim_filter@.expression,
                )
                &&& final(self)@.id == old(self)@.id
                &&& final(self)@.rule_id == old(self)@.rule_id
                &&& final(self)@.filter_type == old(self)@.filter_type
            },
            old(self)@.filter_type != trim_filter@.filter_type ==> (r matches Err(
                ServerError::WrongFilter,
            ) && final(self)@ == old(self)@),
    {
        if self.filter_type == trim_filter.filter_type {
            let clause = trim_ends(trim_filter.expression.as_str());
            let joined_pat = String::from_str("or ").concat(clause.as_str());
            let pat = trim_ends(joined_pat.as_str());
            proof {
                assert(joined_pat@ =~= "or "@ + trim_spec(trim_filter@.expression));
            }
            let step1 = if contains_sub(self.expression.as_str(), pat.as_str()) {
                remove_first_sub(self.expression.as_str(), pat.as_str())
            } else {
                let lead_joined = clause.clone().concat(" or");
                let lead = trim_ends(lead_joined.as_str());
                proof {
                    assert(lead_joined@ =~= trim_spec(trim_filter@.expression) + " or"@);
                }
                remove_first_sub(self.expression.as_str(), lead.as_str())
            };
            let step2 = remove_all_sub(step1.as_str(), clause.as_str());
            self.expression = crate::text::collapse_ws(step2.as_str());
            Ok(())
        } else {
            Err(ServerError::WrongFilter)
        }
    }

    /// Whether this filter's expression already carries the clause of
    /// `new_filter`. Kinds must match, else `WrongFilter`.
    pub fn already_includes_filter(&self, new_filter: Filter) -> (r: Result<bool, ServerError>)
        ensures
            self@.filter_type == new_filter@.filter_type ==> (r matches Ok(b) && b
                == includes_expr(self@.expression, new_filter@.expression)),
            self@.filter_type != new_filter@.filter_type ==> r matches Err(
                ServerError::WrongFilter,
            ),
    {
        if self.filter_type == new_filter.filter_type {
            let clause = trim_ends(new_filter.expression.as_str());
            Ok(contains_sub(self.expression.as_str(), clause.as_str()))
        } else {
            Err(ServerError::WrongFilter)
        }
    }

    /// An exact copy, made field by field so that its value is known.
    pub fn duplicate(&self) -> (r: Filter)
        ensures
            r@ == self@,
    {
        Filter {
            id: self.id.clone(),
            rule_id: self.rule_id.clone(),
            filter_type: self.filter_type,
            expression: self.expression.clone(),
        }
    }

    /// Whether the expression is empty once trimmed: nothing is banned through
    /// this filter any more.
    pub fn is_empty(self) -> (r: bool)
        ensures
            r == (trim_spec(self@.expression).len() == 0),
    {
        let t = trim_ends(self.expression.as_str());
        t.as_str().is_empty()
    }
}

/// One active ban, pointing at the filter that carries its clause.
#[derive(Debug, Clone)]
pub struct Nongrata {
    /// Monotonic id assigned by the store on insert; `None` until then.
    pub id: Option<i64>,
    /// The id of the filter carrying this ban's clause.
    pub filter_id: String,
    /// Caller-supplied reason.
    pub reason: String,
    /// The single clause contributed by this ban, used as the trim key.
    pub restriction_value: String,
    /// Textual form of the restriction kind.
    pub restriction_type: String,
    /// Absolute expiry time, seconds since the Unix epoch (UTC).
    pub expires_at: i64,
    /// Whether the ban applies globally; currently always true.
    pub is_global: bool,
    /// Opaque caller identifier, stored for audit.
    pub analyzer_id: String,
}

/// The mathematical value of a [`Nongrata`].
pub struct NongrataView {
    pub id: Option<i64>,
    pub filter_id: Seq<char>,
    pub reason: Seq<char>,
    pub restriction_value: Seq<char>,
    pub restriction_type: Seq<char>,
    pub expires_at: int,
    pub is_global: bool,
    pub analyzer_id: Seq<char>,
}

impl View for Nongrata {
    type V = NongrataView;

    open spec fn view(&self) -> NongrataView {
        NongrataView {
            id: self.id,
            filter_id: self.filter_id@,
            reason: self.reason@,
            restriction_value: self.restriction_value@,
            restriction_type: self.restriction_type@,
            expires_at: self.expires_at as int,
            is_global: self.is_global,
            analyzer_id: self.analyzer_id@,
        }
    }
}

impl DeepView for Nongrata {
    type V = NongrataView;

    open spec fn deep_view(&self) -> NongrataView {
        self@
    }
}

impl Nongrata {
    /// An exact copy, made field by field so that its value is known.
    pub fn duplicate(&self) -> (r: Nongrata)
        ensures
            r@ == self@,
    {
        Nongrata {
            id: self.id,
            filter_id: self.filter_id.clone(),
            reason: self.reason.clone(),
            restriction_value: self.restriction_value.clone(),
            restriction_type: self.restriction_type.clone(),
            expires_at: self.expires_at,
            is_global: self.is_global,
            analyzer_id: self.analyzer_id.clone(),
        }
    }

    /// A fresh, not yet persisted ban record.
    pub fn new(
        reason: String,
        filter_id: String,
        ttl: i64,
        restriction_value: String,
        restriction_type: String,
        is_global: bool,
        analyzer_id: String,
    ) -> (r: Self)
        ensures
            r@.id is None,
            r@.filter_id == filter_id@,
            r@.reason == reason@,
            r@.restriction_value == restriction_value@,
            r@.restriction_type == restriction_type@,
            r@.expires_at == ttl as int,
            r@.is_global == is_global,
            r@.analyzer_id == analyzer_id@,
    {
        Self {
            id: None,
            filter_id,
            reason,
            restriction_value,
            restriction_type,
            expires_at: ttl,
            is_global,
            analyzer_id,
        }
    }
}

} // verus!
