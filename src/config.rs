//! Settings of the HTTP server and of the terminal client.
use vstd::prelude::*;

verus! {

/// Where and how the HTTP server listens.
#[derive(Debug, Clone)]
pub struct ServerConfig {
    pub host: String,
    pub port: u16,
    pub enable_cors: bool,
    pub cors_origins: Vec<String>,
}

impl Default for ServerConfig {
    /// Local host, port 8080, CORS on for the two local development origins.
    fn default() -> (r: ServerConfig)
        ensures
            r.host@ == "127.0.0.1"@,
            r.port == 8080,
            r.enable_cors,
            r.cors_origins@.len() == 2,
            r.cors_origins@[0]@ == "http://localhost:3000"@,
            r.cors_origins@[1]@ == "http://127.0.0.1:3000"@,
    {
        let mut cors_origins: Vec<String> = Vec::new();
        cors_origins.push(String::from_str("http://localhost:3000"));
        cors_origins.push(String::from_str("http://127.0.0.1:3000"));
        ServerConfig { host: String::from_str("127.0.0.1"), port: 8080, enable_cors: true, cors_origins }
    }
}

/// Settings of the terminal client; the refresh rate is in seconds.
#[derive(Debug, Clone)]
pub struct Config {
    pub api_url: String,
    pub refresh_rate_secs: u64,
    pub use_websocket: bool,
}

impl Default for Config {
    /// The local API, refreshed every two seconds by polling.
    fn default() -> (r: Config)
        ensures
            r.api_url@ == "http://localhost:8080"@,
            r.refresh_rate_secs == 2,
            !r.use_websocket,
    {
        Config { api_url: String::from_str("http://localhost:8080"), refresh_rate_secs: 2, use_websocket: false }
    }
}

} // verus!

verus! {

/// Why the client's arguments give no configuration.
#[derive(Debug)]
pub enum ConfigError {
    /// `--help` or `-h`: the caller shows the usage and stops.
    HelpRequested,
    /// The option takes a value and none follows it.
    MissingValue(String),
    /// The refresh value is not a whole number of seconds.
    InvalidRefreshRate(String),
    UnknownArgument(String),
}

/// What parsing the arguments gives, over text.
pub enum ArgsOutcome {
    Parsed(Seq<char>, u64, bool),
    Help,
    Missing(Seq<char>),
    Invalid(Seq<char>),
    Unknown(Seq<char>),
}

/// Parses `args` from position `i`, the options so far being the URL,
/// the refresh rate in seconds and the streaming flag.
pub open spec fn parse_args(args: Seq<String>, i: int, url: Seq<char>, secs: u64, ws: bool) -> ArgsOutcome
    decreases args.len() - i,
{
    if i >= args.len() || i < 0 {
        ArgsOutcome::Parsed(url, secs, ws)
    } else {
        let a = args[i]@;
        if a == "--api-url"@ || a == "-u"@ {
            if i + 1 < args.len() {
                parse_args(args, i + 2, args[i + 1]@, secs, ws)
            } else {
                ArgsOutcome::Missing(a)
            }
        } else if a == "--refresh"@ || a == "-r"@ {
            if i + 1 < args.len() {
                match crate::text::parse_u64_spec(vstd::utf8::encode_utf8(args[i + 1]@)) {
                    Some(v) => parse_args(args, i + 2, url, v, ws),
                    None => ArgsOutcome::Invalid(args[i + 1]@),
                }
            } else {
                ArgsOutcome::Missing(a)
            }
        } else if a == "--websocket"@ || a == "-w"@ {
            parse_args(args, i + 1, url, secs, true)
        } else if a == "--help"@ || a == "-h"@ {
            ArgsOutcome::Help
        } else {
            ArgsOutcome::Unknown(a)
        }
    }
}

/// `r` is what `parse_args` gives.
pub open spec fn outcome_is(r: Result<Config, ConfigError>, o: ArgsOutcome) -> bool {
    match (r, o) {
        (Ok(c), ArgsOutcome::Parsed(url, secs, ws)) => c.api_url@ == url && c.refresh_rate_secs == secs
            && c.use_websocket == ws,
        (Err(ConfigError::HelpRequested), ArgsOutcome::Help) => true,
        (Err(ConfigError::MissingValue(s)), ArgsOutcome::Missing(t)) => s@ == t,
        (Err(ConfigError::InvalidRefreshRate(s)), ArgsOutcome::Invalid(t)) => s@ == t,
        (Err(ConfigError::UnknownArgument(s)), ArgsOutcome::Unknown(t)) => s@ == t,
        _ => false,
    }
}

fn is_arg(a: &String, text: &str) -> (r: bool)
    ensures
        r == (a@ == text@),
{
    let t = String::from_str(text);
    *a == t
}

impl Config {
    /// The configuration that the command line `args` (program name first)
    /// asks for, starting from the defaults: `--api-url`/`-u` with a URL,
    /// `--refresh`/`-r` with whole seconds, `--websocket`/`-w`, and
    /// `--help`/`-h`.
    pub fn from_args(args: &Vec<String>) -> (r: Result<Config, ConfigError>)
        ensures
            outcome_is(r, parse_args(args@, 1, "http://localhost:8080"@, 2, false)),
    {
        let mut config = Config::default();
        let mut i: usize = 1;
        while i < args.len()
            invariant
                parse_args(args@, 1, "http://localhost:8080"@, 2, false)
                    == parse_args(args@, i as int, config.api_url@, config.refresh_rate_secs, config.use_websocket),
                1 <= i,
            decreases args@.len() - i,
        {
            let a = &args[i];
            if is_arg(a, "--api-url") || is_arg(a, "-u") {
                if i + 1 < args.len() {
                    config.api_url = args[i + 1].clone();
                    i = i + 2;
                } else {
                    return Err(ConfigError::MissingValue(a.clone()));
                }
            } else if is_arg(a, "--refresh") || is_arg(a, "-r") {
                if i + 1 < args.len() {
                    let v = &args[i + 1];
                    let b = v.as_str().as_bytes();
                    match crate::text::parse_u64(b, 0, b.len()) {
                        Some(secs) => {
                            assert(b@.subrange(0, b@.len() as int) =~= b@);
                            config.refresh_rate_secs = secs;
                            i = i + 2;
                        },
                        None => {
                            assert(b@.subrange(0, b@.len() as int) =~= b@);
                            return Err(ConfigError::InvalidRefreshRate(v.clone()));
                        },
                    }
                } else {
                    return Err(ConfigError::MissingValue(a.clone()));
                }
            } else if is_arg(a, "--websocket") || is_arg(a, "-w") {
                config.use_websocket = true;
                i = i + 1;
            } else if is_arg(a, "--help") || is_arg(a, "-h") {
                return Err(ConfigError::HelpRequested);
            } else {
                return Err(ConfigError::UnknownArgument(a.clone()));
            }
        }
        Ok(config)
    }
}

} // verus!
