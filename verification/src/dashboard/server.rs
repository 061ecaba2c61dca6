//! Dashboard server configuration.
use crate::text::{
    ascii_lowered, concat3, decimal, flag_is_on, int_value, is_ascii_text, is_on_flag, lowercase,
    parse_i64, u64_text,
};
use vstd::prelude::*;

verus! {

/// The port that the server listens on unless another one is given.
pub const DEFAULT_PORT: u16 = 8080;

/// Dashboard server configuration
#[derive(Debug, Clone)]
pub struct DashboardConfig {
    /// Port to listen on
    pub port: u16,
    /// Host to bind to
    pub host: String,
    /// Path to static files directory
    pub static_dir: String,
    /// Enable CORS for development
    pub enable_cors: bool,
}

impl Default for DashboardConfig {
    fn default() -> (r: Self)
        ensures
            r.port == DEFAULT_PORT,
            r.host@ == "127.0.0.1"@,
            r.static_dir@ == "static"@,
            r.enable_cors,
    {
        DashboardConfig {
            port: DEFAULT_PORT,
            host: "127.0.0.1".to_string(),
            static_dir: "static".to_string(),
            enable_cors: true,
        }
    }
}

/// The port that a text stands for: digits after an optional plus sign, at most 65535.
pub open spec fn port_value(text: Seq<char>) -> Option<u16> {
    match int_value(text) {
        Some(n) => if text[0] != '-' && n <= u16::MAX {
            Some(n as u16)
        } else {
            None
        },
        None => None,
    }
}

/// The port that a text stands for.
pub fn parse_port(text: &str) -> (r: Option<u16>)
    ensures
        r == port_value(text@),
{
    if text.is_empty() {
        return None;
    }
    let first: char = text.get_char(0);
    match parse_i64(text) {
        Some(n) => if first != '-' && n <= u16::MAX as i64 {
            Some(n as u16)
        } else {
            None
        },
        None => None,
    }
}

/// The text, or another one where there is none.
pub open spec fn text_or(text: Option<String>, other: Seq<char>) -> Seq<char> {
    match text {
        Some(t) => t@,
        None => other,
    }
}

impl DashboardConfig {
    /// Create config from the values of the environment variables for the port, the host, the
    /// directory of static files and CORS.
    pub fn from_vars(
        port: Option<String>,
        host: Option<String>,
        static_dir: Option<String>,
        cors: Option<String>,
    ) -> (r: Self)
        ensures
            r.port == (match port {
                Some(text) => match port_value(text@) {
                    Some(p) => p,
                    None => DEFAULT_PORT,
                },
                None => DEFAULT_PORT,
            }),
            r.host@ == text_or(host, "127.0.0.1"@),
            r.static_dir@ == text_or(static_dir, "static"@),
            cors is None ==> r.enable_cors,
            cors matches Some(flag) ==> {
                &&& r.enable_cors == is_on_flag(flag@, lowercase(flag@))
                &&& is_ascii_text(flag@) ==> r.enable_cors == is_on_flag(
                    flag@,
                    ascii_lowered(flag@),
                )
            },
    {
        let port: u16 = match port {
            Some(text) => match parse_port(&text) {
                Some(p) => p,
                None => DEFAULT_PORT,
            },
            None => DEFAULT_PORT,
        };
        let host = match host {
            Some(host) => host,
            None => "127.0.0.1".to_string(),
        };
        let static_dir = match static_dir {
            Some(dir) => dir,
            None => "static".to_string(),
        };
        let enable_cors = match cors {
            Some(flag) => flag_is_on(&flag),
            None => true,
        };
        DashboardConfig { port, host, static_dir, enable_cors }
    }

    /// The address to listen on
    pub fn address(&self) -> (r: String)
        ensures
            r@ == self.host@ + ":"@ + decimal(self.port as nat),
    {
        concat3(&self.host, ":", &u64_text(self.port as u64))
    }
}

/// A port is read back from its decimal text, and no text in digits names a larger one.
pub proof fn law_a_port_is_read_back(n: nat)
    ensures
        n <= u16::MAX ==> port_value(crate::text::int_text(n as int)) == Some(n as u16),
        n > u16::MAX ==> port_value(crate::text::int_text(n as int)) is None,
        n > 0 ==> port_value(crate::text::int_text(-n)) is None,
{
    crate::text::law_int_text_reads_back(n as int);
    crate::text::law_int_text_reads_back(-n);
    crate::text::lemma_decimal(n);
}

} // verus!
