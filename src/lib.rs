//! Core of an Interledger relay connector: the packet codec, the routing
//! engine with health tracking, and the decisions of the request pipeline.

pub mod address;
pub mod auth;
pub mod clock;
pub mod config;
pub mod health;
pub mod http;
pub mod ildcp;
pub mod oer;
pub mod packet;
pub mod peers;
pub mod routing;
pub mod services;
pub mod telemetry;
pub mod timestamp;
