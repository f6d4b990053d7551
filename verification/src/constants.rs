use vstd::prelude::*;

verus! {

/// Copyright notice.
pub const COPYRIGHT: &'static str = "Copyright © 2026 Polarlabs";

/// License of the program.
pub const LICENSE: &'static str = "AGPL-3.0-only";

/// Default address of the check's server.
pub const DNS_SECHECK_SERVER: &'static str = "93.177.64.153";

/// Default interface on which the server listens.
pub const DNS_SECHECK_SERVER_DEFAULT_INTERFACE: &'static str = "0.0.0.0";

/// Default port of the DNS service.
pub const DNS_SECHECK_DNS_SERVER_PORT: u16 = 53;

/// Default port of the HTTP service.
pub const DNS_SECHECK_HTTP_SERVER_PORT: u16 = 80;

/// Number of reports the server keeps.
pub const DNS_SECHECK_HTTP_CACHE_SIZE: u64 = 1000;

/// Seconds after which an unused report is dropped.
pub const DNS_SECHECK_HTTP_CACHE_TIME_TO_IDLE_S: u64 = 3600;

/// Number of digits of a check's key.
pub const DNS_SECHECK_KEY_LENGTH_USIZE: usize = 6;

/// Largest message read from a TCP connection at once.
pub const DNS_SECHECK_MAX_TCP_MESSAGE_SIZE: usize = 64 * 1024;

/// Largest datagram read at once.
pub const DNS_SECHECK_MAX_UDP_MESSAGE_SIZE: usize = 64 * 1024;

/// Environment variable naming the server.
pub const ENV_DNS_SECHECK_SERVER: &'static str = "DNS_SECHECK_SERVER";

/// Environment variable naming the interface.
pub const ENV_DNS_SECHECK_SERVER_DEFAULT_INTERFACE: &'static str = "DNS_SECHECK_SERVER_DEFAULT_INTERFACE";

/// Environment variable naming the DNS port.
pub const ENV_DNS_SECHECK_DNS_SERVER_PORT: &'static str = "DNS_SECHECK_DNS_SERVER_PORT";

/// Environment variable naming the HTTP port.
pub const ENV_DNS_SECHECK_HTTP_SERVER_PORT: &'static str = "DNS_SECHECK_HTTP_SERVER_PORT";

/// Environment variable naming the cache size.
pub const ENV_DNS_SECHECK_HTTP_CACHE_SIZE: &'static str = "DNS_SECHECK_HTTP_CACHE_SIZE";

/// Environment variable naming the cache's idle time.
pub const ENV_DNS_SECHECK_HTTP_CACHE_TIME_TO_IDLE_S: &'static str = "DNS_SECHECK_HTTP_CACHE_TIME_TO_IDLE_S";

} // verus!
