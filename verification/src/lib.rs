//! Merging proxy subscriptions into one list of links or one Mihomo configuration.

pub mod address;
pub mod address_laws;
pub mod cache;
pub mod codec;
pub mod config;
pub mod config_laws;
pub mod config_read_laws;
pub mod content_laws;
pub mod cut;
pub mod decimal;
pub mod entry_laws;
pub mod foreign;
pub mod host_laws;
pub mod link_laws;
pub mod link_reader;
pub mod link_writer;
pub mod node;
pub mod order;
pub mod proxy_laws;
pub mod read_laws;
pub mod request;
pub mod request_laws;
pub mod safety;
pub mod seen;
pub mod service;
pub mod subscription;
pub mod subscription_laws;
pub mod text;
pub mod write_laws;
pub mod yaml_laws;
pub mod yaml_reader;
