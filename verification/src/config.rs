//! Server configuration: the defaults, the heartbeat timing surface, and
//! the command-line argument parser that fills a `ServerConfig`.

use vstd::prelude::*;
use vstd::string::*;

use crate::decimal::{parse_u16, parse_u16_spec};

verus! {

pub const DEFAULT_HTTP_PORT: u16 = 13377;

pub const DEFAULT_WS_PORT: u16 = 13378;

/// Interval between liveness probes sent to clients, in seconds.
pub const PING_INTERVAL_SECS: u64 = 30;

/// Clients whose last heartbeat response is older than this many seconds
/// at scan time are evicted.
pub const PONG_TIMEOUT_SECS: u64 = 90;

/// Where the HTTP and WebSocket listeners bind.
#[derive(Debug)]
pub struct ServerConfig {
    pub http_host: String,
    pub http_port: u16,
    pub ws_host: String,
    pub ws_port: u16,
}

/// Why a command line was rejected.
#[derive(PartialEq, Eq, Structural, Clone, Copy, Debug)]
pub enum ConfigError {
    /// The value after `--http-port` is no port number.
    InvalidHttpPort,
    /// The value after `--ws-port` is no port number.
    InvalidWsPort,
    /// `--http-port` stood last, with no value after it.
    MissingHttpPortValue,
    /// `--ws-port` stood last, with no value after it.
    MissingWsPortValue,
    /// `--host` stood last, with no value after it.
    MissingHostValue,
    /// An argument that is none of the known flags.
    UnknownArgument,
}

/// The views of a list of argument strings.
pub open spec fn views_of(args: Seq<String>) -> Seq<Seq<char>> {
    args.map_values(|a: String| a@)
}

/// What parsing decides from argument `i` onward, carrying the settings
/// read so far: flags come with a value after them, a later flag
/// overwrites an earlier one, `--host` sets both hosts at once, and the
/// first unusable argument stops everything with its error.
pub open spec fn from_args_spec(
    args: Seq<Seq<char>>,
    i: int,
    http_host: Seq<char>,
    http_port: u16,
    ws_host: Seq<char>,
    ws_port: u16,
) -> Result<(Seq<char>, u16, Seq<char>, u16), ConfigError>
    decreases args.len() - i,
{
    if i >= args.len() {
        Ok((http_host, http_port, ws_host, ws_port))
    } else if args[i] == "--http-port"@ {
        if i + 1 < args.len() {
            match parse_u16_spec(args[i + 1]) {
                Some(p) => from_args_spec(args, i + 2, http_host, p, ws_host, ws_port),
                None => Err(ConfigError::InvalidHttpPort),
            }
        } else {
            Err(ConfigError::MissingHttpPortValue)
        }
    } else if args[i] == "--ws-port"@ {
        if i + 1 < args.len() {
            match parse_u16_spec(args[i + 1]) {
                Some(p) => from_args_spec(args, i + 2, http_host, http_port, ws_host, p),
                None => Err(ConfigError::InvalidWsPort),
            }
        } else {
            Err(ConfigError::MissingWsPortValue)
        }
    } else if args[i] == "--host"@ {
        if i + 1 < args.len() {
            from_args_spec(args, i + 2, args[i + 1], http_port, args[i + 1], ws_port)
        } else {
            Err(ConfigError::MissingHostValue)
        }
    } else {
        Err(ConfigError::UnknownArgument)
    }
}

impl ServerConfig {
    /// Parse a command line, `args[0]` being the program name. Defaults:
    /// localhost, port 13377 for HTTP and 13378 for WebSocket.
    pub fn from_args(args: &Vec<String>) -> (r: Result<ServerConfig, ConfigError>)
        ensures
            match r {
                Ok(c) => from_args_spec(
                    views_of(args@), 1,
                    "localhost"@, DEFAULT_HTTP_PORT, "localhost"@, DEFAULT_WS_PORT,
                ) == Ok::<(Seq<char>, u16, Seq<char>, u16), ConfigError>(
                    (c.http_host@, c.http_port, c.ws_host@, c.ws_port),
                ),
                Err(e) => from_args_spec(
                    views_of(args@), 1,
                    "localhost"@, DEFAULT_HTTP_PORT, "localhost"@, DEFAULT_WS_PORT,
                ) == Err::<(Seq<char>, u16, Seq<char>, u16), ConfigError>(e),
            },
    {
        let ghost views = views_of(args@);
        let mut http_host: String = String::from_str("localhost");
        let mut http_port: u16 = DEFAULT_HTTP_PORT;
        let mut ws_host: String = String::from_str("localhost");
        let mut ws_port: u16 = DEFAULT_WS_PORT;
        let n = args.len();
        let mut i: usize = 1;
        while i < n
            invariant
                n == args@.len(),
                views == views_of(args@),
                1 <= i,
                from_args_spec(
                    views, 1, "localhost"@, DEFAULT_HTTP_PORT, "localhost"@, DEFAULT_WS_PORT,
                ) == from_args_spec(
                    views, i as int, http_host@, http_port, ws_host@, ws_port,
                ),
            decreases n - i,
        {
            proof {
                assert(views[i as int] == args@[i as int]@);
            }
            let flag_http: String = String::from_str("--http-port");
            let flag_ws: String = String::from_str("--ws-port");
            let flag_host: String = String::from_str("--host");
            if args[i] == flag_http {
                if i + 1 < n {
                    proof {
                        assert(views[i as int + 1] == args@[i as int + 1]@);
                    }
                    match parse_u16(&args[i + 1]) {
                        Some(p) => {
                            http_port = p;
                            i += 2;
                        },
                        None => {
                            return Err(ConfigError::InvalidHttpPort);
                        },
                    }
                } else {
                    return Err(ConfigError::MissingHttpPortValue);
                }
            } else if args[i] == flag_ws {
                if i + 1 < n {
                    proof {
                        assert(views[i as int + 1] == args@[i as int + 1]@);
                    }
                    match parse_u16(&args[i + 1]) {
                        Some(p) => {
                            ws_port = p;
                            i += 2;
                        },
                        None => {
                            return Err(ConfigError::InvalidWsPort);
                        },
                    }
                } else {
                    return Err(ConfigError::MissingWsPortValue);
                }
            } else if args[i] == flag_host {
                if i + 1 < n {
                    proof {
                        assert(views[i as int + 1] == args@[i as int + 1]@);
                    }
                    http_host = args[i + 1].clone();
                    ws_host = args[i + 1].clone();
                    i += 2;
                } else {
                    return Err(ConfigError::MissingHostValue);
                }
            } else {
                return Err(ConfigError::UnknownArgument);
            }
        }
        Ok(ServerConfig { http_host, http_port, ws_host, ws_port })
    }
}

} // verus!
