pub mod obfs;
pub mod obfsutil;
pub mod auth_chain;
pub mod verify;
pub mod tls1_2_ticket;
pub mod auth;
pub mod http_simple;
