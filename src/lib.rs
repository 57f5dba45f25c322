pub mod config;
pub mod load_balancer;
pub mod socks;
pub mod text;
pub mod tunnel;
