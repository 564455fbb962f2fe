//! Core of a TLS-capable reverse proxy manager: routing, access control,
//! weighted upstream selection and request metrics, with machine-checked contracts.

pub mod access;
pub mod aggregator;
pub mod balancer;
pub mod blacklist;
pub mod collector;
pub mod config;
pub mod forward;
pub mod i18n;
pub mod listener;
pub mod metrics;
pub mod percentile;
pub mod pipeline;
pub mod queue;
pub mod router;
pub mod single_instance;
pub mod startup;
pub mod static_files;
pub mod text;
pub mod tray;
pub mod update;
pub mod window;
