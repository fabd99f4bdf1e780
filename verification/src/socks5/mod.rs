pub mod s5;
pub mod addr;
pub mod packet;

pub use s5::{S5Result, S5Atyp, S5Cmd, S5AuthMethod, S5Parser};
pub use addr::Socks5Addr;
pub use packet::{build_method_response, build_connect_request, build_response, build_response_with_bind,
    build_udp_assoc_response, parse_udp_datagram, build_udp_datagram, build_userpass_response, REP_SUCCESS};
