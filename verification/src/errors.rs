//! The closed error taxonomy of the service, with its mapping onto HTTP
//! status codes.

use vstd::prelude::*;

verus! {

/// Everything a ban, unban, invalidation or admin operation can fail with.
#[derive(Debug)]
pub enum ServerError {
    /// The upstream CDN replied with `success = false`; carries the provider's
    /// error messages.
    Unsuccessfull { errors: Vec<String> },
    /// The request body was too large.
    Overflow,
    /// Transport failure or non-2xx reply from the upstream CDN.
    ClientError(String),
    /// A wrapped foreign error.
    WrappedErr { cause: String },
    /// Neither `ip` nor `user_agent` was given.
    MissingTarget,
    /// A ban arrived with `ttl == 0`.
    MissingTTL,
    /// The admin endpoint was handed an invalid log directive.
    WrongLogLevel,
    /// The admin endpoint was handed no usable dry-run switch.
    MissingDryRunStatus,
    /// The target IP did not parse.
    BadIP,
    /// Some other input violation, with its reason.
    BadRequest(String),
    /// No database connection could be obtained.
    PoolError(String),
    /// A store query failed.
    DBError(String),
    /// Filter kinds did not match, or an unban found nothing to remove.
    WrongFilter,
    /// Anything not covered above.
    Other(String),
}

impl ServerError {
    /// The HTTP status code a frontend reports for this error.
    pub open spec fn spec_http_code(&self) -> u16 {
        match self {
            ServerError::Overflow => 413,
            ServerError::Unsuccessfull { .. } => 500,
            ServerError::ClientError(_) => 500,
            ServerError::WrappedErr { .. } => 500,
            ServerError::PoolError(_) => 500,
            ServerError::DBError(_) => 500,
            ServerError::Other(_) => 500,
            ServerError::MissingTarget => 400,
            ServerError::MissingTTL => 400,
            ServerError::WrongLogLevel => 400,
            ServerError::MissingDryRunStatus => 400,
            ServerError::BadIP => 400,
            ServerError::BadRequest(_) => 400,
            ServerError::WrongFilter => 400,
        }
    }

    /// Executable form of [`Self::spec_http_code`].
    pub fn http_code(&self) -> (c: u16)
        ensures
            c == self.spec_http_code(),
    {
        match self {
            ServerError::Overflow => 413,
            ServerError::Unsuccessfull { .. } => 500,
            ServerError::ClientError(_) => 500,
            ServerError::WrappedErr { .. } => 500,
            ServerError::PoolError(_) => 500,
            ServerError::DBError(_) => 500,
            ServerError::Other(_) => 500,
            ServerError::MissingTarget => 400,
            ServerError::MissingTTL => 400,
            ServerError::WrongLogLevel => 400,
            ServerError::MissingDryRunStatus => 400,
            ServerError::BadIP => 400,
            ServerError::BadRequest(_) => 400,
            ServerError::WrongFilter => 400,
        }
    }

    /// The reason string a frontend reports for this error.
    pub fn message(&self) -> (m: String)
        ensures
            m@ == self.spec_message(),
    {
        match self {
            ServerError::Overflow => String::from_str("Request body overflow"),
            ServerError::Unsuccessfull { errors } => concat_all(errors),
            ServerError::ClientError(s) => s.clone(),
            ServerError::WrappedErr { cause } => cause.clone(),
            ServerError::PoolError(s) => s.clone(),
            ServerError::DBError(s) => s.clone(),
            ServerError::Other(s) => s.clone(),
            ServerError::MissingTarget => String::from_str("Missing target"),
            ServerError::MissingTTL => String::from_str("Missing TTL"),
            ServerError::WrongLogLevel => String::from_str("Wrong log level"),
            ServerError::MissingDryRunStatus => String::from_str("Missing dry run status"),
            ServerError::BadIP => String::from_str("Bad IP"),
            ServerError::BadRequest(reason) => reason.clone(),
            ServerError::WrongFilter => String::from_str("Wrong filter"),
        }
    }

    /// What [`Self::message`] returns.
    pub open spec fn spec_message(&self) -> Seq<char> {
        match self {
            ServerError::Overflow => "Request body overflow"@,
            ServerError::Unsuccessfull { errors } => concat_all_spec(errors.deep_view()),
            ServerError::ClientError(s) => s@,
            ServerError::WrappedErr { cause } => cause@,
            ServerError::PoolError(s) => s@,
            ServerError::DBError(s) => s@,
            ServerError::Other(s) => s@,
            ServerError::MissingTarget => "Missing target"@,
            ServerError::MissingTTL => "Missing TTL"@,
            ServerError::WrongLogLevel => "Wrong log level"@,
            ServerError::MissingDryRunStatus => "Missing dry run status"@,
            ServerError::BadIP => "Bad IP"@,
            ServerError::BadRequest(reason) => reason@,
            ServerError::WrongFilter => "Wrong filter"@,
        }
    }
}

/// All the strings of `parts`, concatenated in order.
pub open spec fn concat_all_spec(parts: Seq<Seq<char>>) -> Seq<char>
    decreases parts.len(),
{
    if parts.len() == 0 {
        Seq::<char>::empty()
    } else {
        parts[0] + concat_all_spec(parts.subrange(1, parts.len() as int))
    }
}

/// Concatenates a list of strings, in order and with nothing between them.
pub fn concat_all(parts: &Vec<String>) -> (r: String)
    ensures
        r@ == concat_all_spec(parts.deep_view()),
    decreases parts@.len(),
{
    let mut out = String::new();
    let mut i: usize = 0;
    proof {
        assert(parts.deep_view().subrange(0, parts.deep_view().len() as int) =~= parts.deep_view());
        assert(Seq::<char>::empty() + concat_all_spec(parts.deep_view()) =~= concat_all_spec(
            parts.deep_view(),
        ));
    }
    while i < parts.len()
        invariant
            0 <= i <= parts@.len(),
            concat_all_spec(parts.deep_view()) == out@ + concat_all_spec(
                parts.deep_view().subrange(i as int, parts.deep_view().len() as int),
            ),
        decreases parts@.len() - i,
    {
        proof {
            let rest = parts.deep_view().subrange(i as int, parts.deep_view().len() as int);
            assert(rest[0] == parts.deep_view()[i as int]);
            assert(rest.subrange(1, rest.len() as int) =~= parts.deep_view().subrange(
                i + 1,
                parts.deep_view().len() as int,
            ));
        }
        out.append(parts[i].as_str());
        i += 1;
    }
    proof {
        assert(parts.deep_view().subrange(i as int, parts.deep_view().len() as int)
            =~= Seq::<Seq<char>>::empty());
        assert(out@ + Seq::<char>::empty() =~= out@);
    }
    out
}

} // verus!
