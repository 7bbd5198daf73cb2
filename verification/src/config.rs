//! The dashboard's configuration, from the values of its settings.
use vstd::prelude::*;

verus! {

/// The port served on when none (or no valid one) is configured.
pub const DEFAULT_PORT: u16 = 3000;

/// The connection to LiveKit and where the dashboard serves and stores.
pub struct Config {
    pub livekit_url: String,
    pub api_key: String,
    pub api_secret: String,
    pub port: u16,
    pub sqlite_path: String,
    pub base_path: String,
}

/// Every character of `s` is an ASCII digit.
pub open spec fn all_digits(s: Seq<char>) -> bool {
    forall|i: int| 0 <= i < s.len() ==> '0' <= #[trigger] s[i] && s[i] <= '9'
}

/// The number the decimal digits `s` spell.
pub open spec fn digits_value(s: Seq<char>) -> int
    decreases s.len(),
{
    if s.len() == 0 {
        0
    } else {
        digits_value(s.drop_last()) * 10 + (s.last() as int - 48)
    }
}

/// What parsing `s` as a `u16` gives: an optional `+`, then one or more
/// decimal digits whose value fits.
pub open spec fn spec_parse_u16(s: Seq<char>) -> Option<u16> {
    let d = if s.len() > 0 && s[0] == '+' {
        s.drop_first()
    } else {
        s
    };
    if d.len() > 0 && all_digits(d) && digits_value(d) <= u16::MAX {
        Some(digits_value(d) as u16)
    } else {
        None
    }
}

/// `str::parse::<u16>`: the value of an optional `+` followed by decimal
/// digits, when it fits; `None` for anything else.
#[verifier::external_body]
fn parse_u16(s: &str) -> (r: Option<u16>)
    ensures
        r == spec_parse_u16(s@),
{
    s.parse::<u16>().ok()
}

/// The port a `PORT` setting gives: its value when it parses, else 3000.
pub open spec fn spec_port(port: Option<Seq<char>>) -> u16 {
    match port {
        Some(p) => match spec_parse_u16(p) {
            Some(n) => n,
            None => DEFAULT_PORT,
        },
        None => DEFAULT_PORT,
    }
}

impl Config {
    /// The configuration from the values of the settings: the three LiveKit
    /// settings as given, the port parsed (3000 when absent or invalid), the
    /// database path (`./data/monitor.db` when absent) and the base path
    /// (empty when absent).
    pub fn from_values(
        livekit_url: String,
        api_key: String,
        api_secret: String,
        port: Option<String>,
        sqlite_path: Option<String>,
        base_path: Option<String>,
    ) -> (c: Config)
        ensures
            c.livekit_url == livekit_url,
            c.api_key == api_key,
            c.api_secret == api_secret,
            c.port == spec_port(
                match port {
                    Some(p) => Some(p@),
                    None => None,
                },
            ),
            c.sqlite_path@ == match sqlite_path {
                Some(p) => p@,
                None => "./data/monitor.db"@,
            },
            c.base_path@ == match base_path {
                Some(p) => p@,
                None => Seq::<char>::empty(),
            },
    {
        let port = match port {
            Some(p) => match parse_u16(p.as_str()) {
                Some(n) => n,
                None => DEFAULT_PORT,
            },
            None => DEFAULT_PORT,
        };
        let sqlite_path = match sqlite_path {
            Some(p) => p,
            None => "./data/monitor.db".to_owned(),
        };
        let base_path = match base_path {
            Some(p) => p,
            None => String::new(),
        };
        Config { livekit_url, api_key, api_secret, port, sqlite_path, base_path }
    }
}

} // verus!
