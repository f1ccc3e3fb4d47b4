//! Home AI core library: configuration, filesystem layout, scoped bearer
//! tokens with failed-attempt lockout, task health, the house model, event
//! validation and retention windows, and the supervisor's restart policy.

use vstd::prelude::*;

pub mod api;
pub mod auth;
pub mod bus;
pub mod clock;
pub mod config;
pub mod health;
pub mod house;
pub mod model;
pub mod paths;
pub mod restart;
pub mod sorted_map;
pub mod text;
pub mod tls;
pub mod tokens;

verus! {

pub const API_PORT: u16 = 8443;
pub const GRPC_PORT: u16 = 50051;
pub const LLM_PORT: u16 = 8200;
pub const VISION_PORT: u16 = 8250;
pub const STT_PORT: u16 = 8100;
pub const TTS_PORT: u16 = 8300;
pub const METRICS_PORT: u16 = 8500;
pub const GRAFANA_PORT: u16 = 3000;
pub const MQTTS_PORT: u16 = 8883;

pub const CONFIG_PATH: &'static str = "/etc/homeai/config.toml";
pub const HOUSE_PATH: &'static str = "/etc/homeai/house.toml";
pub const MODELS_PATH: &'static str = "/etc/homeai/models.toml";
pub const DB_PATH: &'static str = "/var/lib/homeai/home.db";

} // verus!
