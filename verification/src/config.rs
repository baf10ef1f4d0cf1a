//! How to reach the database.

use vstd::prelude::*;
use vstd::string::StringExecFns;

verus! {

/// The character of a decimal digit.
pub open spec fn digit_char(d: int) -> char {
    if d == 0 {
        '0'
    } else if d == 1 {
        '1'
    } else if d == 2 {
        '2'
    } else if d == 3 {
        '3'
    } else if d == 4 {
        '4'
    } else if d == 5 {
        '5'
    } else if d == 6 {
        '6'
    } else if d == 7 {
        '7'
    } else if d == 8 {
        '8'
    } else {
        '9'
    }
}

/// A number in decimal digits, without leading zeros.
pub open spec fn decimal(n: nat) -> Seq<char>
    decreases n,
{
    if n < 10 {
        seq![digit_char(n as int)]
    } else {
        decimal(n / 10).push(digit_char((n % 10) as int))
    }
}

/// One decimal digit as text.
fn digit_text(d: u16) -> (r: &'static str)
    requires
        d < 10,
    ensures
        r@ == seq![digit_char(d as int)],
{
    proof {
        reveal_strlit("0");
        reveal_strlit("1");
        reveal_strlit("2");
        reveal_strlit("3");
        reveal_strlit("4");
        reveal_strlit("5");
        reveal_strlit("6");
        reveal_strlit("7");
        reveal_strlit("8");
        reveal_strlit("9");
    }
    let r: &'static str = if d == 0 {
        "0"
    } else if d == 1 {
        "1"
    } else if d == 2 {
        "2"
    } else if d == 3 {
        "3"
    } else if d == 4 {
        "4"
    } else if d == 5 {
        "5"
    } else if d == 6 {
        "6"
    } else if d == 7 {
        "7"
    } else if d == 8 {
        "8"
    } else {
        "9"
    };
    proof {
        assert(r@ =~= seq![digit_char(d as int)]);
    }
    r
}

/// A port number in decimal digits.
pub fn decimal_text(n: u16) -> (r: String)
    ensures
        r@ == decimal(n as nat),
    decreases n,
{
    if n < 10 {
        String::from_str(digit_text(n))
    } else {
        let mut s: String = decimal_text(n / 10);
        s.append(digit_text(n % 10));
        proof {
            let d = digit_char((n % 10) as int);
            assert(decimal((n / 10) as nat) + seq![d] =~= decimal((n / 10) as nat).push(d));
        }
        s
    }
}

/// Where the database is, and as whom to log in.
#[derive(Debug, Clone, PartialEq, Eq)]
pub struct DatabaseConfig {
    pub host: String,
    pub port: u16,
    pub username: String,
    pub password: String,
    pub name: String,
}

/// The address of the server: scheme, credentials, host and port.
pub open spec fn server_address(config: DatabaseConfig) -> Seq<char> {
    "postgres://"@ + config.username@ + ":"@ + config.password@ + "@"@ + config.host@ + ":"@
        + decimal(config.port as nat)
}

impl DatabaseConfig {
    /// The address of the database on its server.
    pub fn connection_string(&self) -> (r: String)
        ensures
            r@ == server_address(*self) + "/"@ + self.name@,
    {
        let mut s: String = self.connection_string_without_db();
        s.append("/");
        s.append(self.name.as_str());
        s
    }

    /// The address of the server, without a database.
    pub fn connection_string_without_db(&self) -> (r: String)
        ensures
            r@ == server_address(*self),
    {
        let mut s: String = String::from_str("postgres://");
        s.append(self.username.as_str());
        s.append(":");
        s.append(self.password.as_str());
        s.append("@");
        s.append(self.host.as_str());
        s.append(":");
        let port: String = decimal_text(self.port);
        s.append(port.as_str());
        s
    }
}

impl Default for DatabaseConfig {
    /// A local server under its usual port and account.
    fn default() -> (r: DatabaseConfig)
        ensures
            r.host@ == "localhost"@,
            r.port == 5432,
            r.username@ == "postgres"@,
            r.password@ == "postgres"@,
            r.name@ == "myapp"@,
    {
        DatabaseConfig {
            host: String::from_str("localhost"),
            port: 5432,
            username: String::from_str("postgres"),
            password: String::from_str("postgres"),
            name: String::from_str("myapp"),
        }
    }
}

} // verus!
