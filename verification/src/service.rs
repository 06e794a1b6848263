pub mod dns;
pub mod healthcheck;
pub mod whois;
