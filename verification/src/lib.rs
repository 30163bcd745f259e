pub mod broker;
pub mod mqtt_headers;
pub mod mqtt_payloads;
pub mod mqtt_types;
pub mod packets;
pub mod processor;
