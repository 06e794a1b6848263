pub mod cidr;
pub mod number;
