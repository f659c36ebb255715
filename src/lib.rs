// A multi-protocol forwarding proxy: protocol sniffing, HTTP and SOCKS5
// parsing, source-address pools, candidate ordering, and the per-connection
// decisions that a driver performs against real sockets.
pub mod addr;
pub mod config;
pub mod event;
pub mod groups;
pub mod http;
pub mod pool;
pub mod relay;
pub mod resolve;
pub mod session;
pub mod socks5;
pub mod summary;
pub mod text;
