pub mod connack;
pub mod connect;
pub mod publish;
