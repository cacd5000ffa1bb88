use vstd::prelude::*;
use crate::models::{AppStatus, Config, RefreshResponse, Timestamp};
use crate::store::now_millis;

verus! {

/// The port used when none is configured.
pub const DEFAULT_PORT: u16 = 8080;

/// Why a configuration was refused.
#[derive(Clone, Copy, PartialEq, Eq, Structural, Debug)]
pub enum ConfigError {
    /// No database connection string was given.
    MissingDatabaseUrl,
    /// The port is not a number from 0 to 65535.
    InvalidPort,
}

pub open spec fn is_digit(c: char) -> bool {
    '0' <= c && c <= '9'
}

pub open spec fn all_digits(s: Seq<char>) -> bool {
    forall|i: int| 0 <= i < s.len() ==> is_digit(#[trigger] s[i])
}

/// The value of a text of decimal digits.
pub open spec fn digits_value(s: Seq<char>) -> int
    decreases s.len(),
{
    if s.len() == 0 {
        0
    } else {
        digits_value(s.drop_last()) * 10 + ((s.last() as u32) - ('0' as u32))
    }
}

/// The port a text denotes: an optional `+`, then one or more decimal
/// digits whose value fits in 16 bits.
/// A port text without its optional leading `+`.
pub open spec fn port_body(s: Seq<char>) -> Seq<char> {
    if s.len() > 0 && s[0] == '+' {
        s.drop_first()
    } else {
        s
    }
}

pub open spec fn port_value(s: Seq<char>) -> Option<u16> {
    let body = port_body(s);
    if body.len() > 0 && all_digits(body) && digits_value(body) <= u16::MAX {
        Some(digits_value(body) as u16)
    } else {
        None
    }
}

proof fn lemma_digits_value_grows(s: Seq<char>, i: int)
    requires
        all_digits(s),
        0 <= i <= s.len(),
    ensures
        0 <= digits_value(s.subrange(0, i)) <= digits_value(s),
    decreases s.len(),
{
    if s.len() > 0 {
        let t = s.drop_last();
        assert(all_digits(t)) by {
            assert forall|j: int| 0 <= j < t.len() implies is_digit(#[trigger] t[j]) by {
                assert(t[j] == s[j]);
            }
        }
        assert(is_digit(s[s.len() - 1]));
        if i == s.len() {
            assert(s.subrange(0, i) =~= s);
            lemma_digits_value_grows(t, t.len() as int);
            assert(t.subrange(0, t.len() as int) =~= t);
        } else {
            lemma_digits_value_grows(t, i);
            assert(t.subrange(0, i) =~= s.subrange(0, i));
            lemma_digits_value_grows(t, t.len() as int);
            assert(t.subrange(0, t.len() as int) =~= t);
        }
    }
}

/// The port that `text` denotes, if it denotes one.
pub fn parse_port(text: &str) -> (r: Option<u16>)
    ensures
        r == port_value(text@),
{
    let n = text.unicode_len();
    let mut start: usize = 0;
    if n > 0 && text.get_char(0) == '+' {
        start = 1;
    }
    let ghost body = port_body(text@);
    assert(body =~= text@.subrange(start as int, n as int));
    if start == n {
        return None;
    }
    let mut value: u32 = 0;
    let mut i: usize = start;
    assert(body.subrange(0, 0) =~= Seq::<char>::empty());
    while i < n
        invariant
            start <= i <= n,
            n == text@.len(),
            body =~= text@.subrange(start as int, n as int),
            body == port_body(text@),
            all_digits(body.subrange(0, i - start)),
            value as int == digits_value(body.subrange(0, i - start)),
            value <= 65535,
        decreases n - i,
    {
        let c = text.get_char(i);
        let ghost k = i - start;
        assert(body[k as int] == c);
        if c < '0' || c > '9' {
            assert(!is_digit(body[k as int]));
            assert(!all_digits(body));
            return None;
        }
        assert(body.subrange(0, k + 1).drop_last() =~= body.subrange(0, k as int));
        let next: u32 = value * 10 + ((c as u32) - ('0' as u32));
        assert(all_digits(body.subrange(0, k + 1))) by {
            assert forall|j: int| 0 <= j < k + 1 implies is_digit(#[trigger] body.subrange(0, k + 1)[j]) by {
                if j < k {
                    assert(body.subrange(0, k + 1)[j] == body.subrange(0, k as int)[j]);
                }
            }
        }
        assert(body.subrange(0, k + 1).last() == c);
        assert(digits_value(body.subrange(0, k + 1)) == next as int);
        if next > 65535 {
            proof {
                if all_digits(body) {
                    lemma_digits_value_grows(body, k + 1);
                }
            }
            return None;
        }
        value = next;
        i = i + 1;
    }
    assert(body.subrange(0, (n - start) as int) =~= body);
    Some(value as u16)
}

impl Config {
    /// The configuration from a database connection string and a port
    /// text; without a port text the port is 8080.
    pub fn from_parts(database_url: Option<String>, port: Option<String>) -> (r: Result<Config, ConfigError>)
        ensures
            match r {
                Ok(c) => {
                    &&& database_url == Some(c.database_url)
                    &&& match port {
                        Some(p) => port_value(p@) == Some(c.port),
                        None => c.port == DEFAULT_PORT,
                    }
                },
                Err(ConfigError::MissingDatabaseUrl) => database_url is None,
                Err(ConfigError::InvalidPort) => database_url is Some && (port matches Some(p)
                    && port_value(p@) is None),
            },
    {
        let url = match database_url {
            Some(u) => u,
            None => {
                return Err(ConfigError::MissingDatabaseUrl);
            },
        };
        let port = match port {
            Some(p) => match parse_port(p.as_str()) {
                Some(v) => v,
                None => {
                    return Err(ConfigError::InvalidPort);
                },
            },
            None => DEFAULT_PORT,
        };
        Ok(Config { database_url: url, port })
    }
}

/// The report of a successful refresh: its status, how many countries it
/// processed and when; a status without a time reports the current time,
/// to a tenth of a second.
pub fn refresh_response(status: &AppStatus) -> (r: RefreshResponse)
    requires
        status.total_countries >= 0,
    ensures
        r.status@ == "success"@,
        r.countries_processed == status.total_countries as usize,
        status.last_refreshed_at matches Some(t) ==> r.last_refreshed_at == t,
{
    let at = match status.last_refreshed_at {
        Some(t) => t,
        None => Timestamp { millis: now_millis() },
    };
    RefreshResponse {
        status: String::from_str("success"),
        countries_processed: status.total_countries as usize,
        last_refreshed_at: at,
    }
}

} // verus!
