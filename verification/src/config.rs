//! The service's configuration values, and the strings derived from them.

use vstd::prelude::*;

verus! {

/// The decimal digit character for a value below ten.
pub open spec fn digit_char(d: int) -> char {
    if d == 0 {
        '0'
    } else if d == 1 {
        '1'
    } else if d == 2 {
        '2'
    } else if d == 3 {
        '3'
    } else if d == 4 {
        '4'
    } else if d == 5 {
        '5'
    } else if d == 6 {
        '6'
    } else if d == 7 {
        '7'
    } else if d == 8 {
        '8'
    } else {
        '9'
    }
}

/// The decimal representation of a non-negative number, most significant
/// digit first.
pub open spec fn dec_rep(n: int) -> Seq<char>
    decreases n,
{
    if n < 10 {
        seq![digit_char(n)]
    } else {
        dec_rep(n / 10).push(digit_char(n % 10))
    }
}

fn digit_str(d: u16) -> (r: String)
    requires
        d < 10,
    ensures
        r@ == seq![digit_char(d as int)],
{
    let r = match d {
        0 => String::from_str("0"),
        1 => String::from_str("1"),
        2 => String::from_str("2"),
        3 => String::from_str("3"),
        4 => String::from_str("4"),
        5 => String::from_str("5"),
        6 => String::from_str("6"),
        7 => String::from_str("7"),
        8 => String::from_str("8"),
        _ => String::from_str("9"),
    };
    proof {
        reveal_strlit("0");
        reveal_strlit("1");
        reveal_strlit("2");
        reveal_strlit("3");
        reveal_strlit("4");
        reveal_strlit("5");
        reveal_strlit("6");
        reveal_strlit("7");
        reveal_strlit("8");
        reveal_strlit("9");
        assert(r@ =~= seq![digit_char(d as int)]);
    }
    r
}

/// The decimal form of a port number.
pub fn port_string(n: u16) -> (r: String)
    ensures
        r@ == dec_rep(n as int),
    decreases n,
{
    if n < 10 {
        digit_str(n)
    } else {
        let prefix = port_string(n / 10);
        let last = digit_str(n % 10);
        let r = prefix.concat(last.as_str());
        proof {
            assert(r@ =~= dec_rep((n / 10) as int).push(digit_char((n % 10) as int)));
        }
        r
    }
}

/// Where the HTTP server listens, and in which mode it starts.
#[derive(Debug, Clone)]
pub struct ServerConfig {
    pub host: String,
    pub port: u16,
    pub dry_run: bool,
}

impl ServerConfig {
    /// The listen address: host and decimal port joined by a colon.
    pub fn get_address(self) -> (r: String)
        ensures
            r@ == self.host@ + ":"@ + dec_rep(self.port as int),
    {
        let r = self.host.concat(":").concat(port_string(self.port).as_str());
        proof {
            assert(r@ =~= self.host@ + ":"@ + dec_rep(self.port as int));
        }
        r
    }
}

/// The database endpoint and its credentials.
#[derive(Debug, Clone)]
pub struct DbConfig {
    pub user: String,
    pub password: String,
    pub db: String,
    pub host: String,
    pub port: String,
}

impl DbConfig {
    /// A database configuration from its parts.
    pub fn new(user: String, password: String, db: String, host: String, port: String) -> (r: Self)
        ensures
            r.user@ == user@,
            r.password@ == password@,
            r.db@ == db@,
            r.host@ == host@,
            r.port@ == port@,
    {
        DbConfig { user, password, db, host, port }
    }

    /// The connection string the database client is built from.
    pub fn pg_conn_string(self) -> (r: String)
        ensures
            r@ == "postgres://"@ + self.user@ + ":"@ + self.password@ + "@"@ + self.host@ + ":"@
                + self.port@ + "/"@ + self.db@,
    {
        let r = String::from_str("postgres://").concat(self.user.as_str()).concat(":").concat(
            self.password.as_str(),
        ).concat("@").concat(self.host.as_str()).concat(":").concat(self.port.as_str()).concat(
            "/",
        ).concat(self.db.as_str());
        proof {
            assert(r@ =~= "postgres://"@ + self.user@ + ":"@ + self.password@ + "@"@ + self.host@
                + ":"@ + self.port@ + "/"@ + self.db@);
        }
        r
    }
}

/// Where traces go, and under which service name.
#[derive(Debug, Clone)]
pub struct TracingConfig {
    pub svc_name: String,
    pub jaeger_endpoint: Option<String>,
}

} // verus!
