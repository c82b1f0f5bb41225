//! A microgrid simulator's core: bounds algebra, dispatch store, topology
//! registry, telemetry history and scenario reporting, with every rule stated
//! as a contract and proved.

pub mod ac;
pub mod answers;
pub mod battery;
pub mod bounds;
pub mod clock;
pub mod component;
pub mod csv;
pub mod dc_bus;
pub mod decay;
pub mod dispatch;
pub mod dispatch_views;
pub mod double;
pub mod ev_charger;
pub mod events;
pub mod fold;
pub mod frequency;
pub mod graph;
pub mod history;
pub mod inverter;
pub mod keys;
pub mod lisp_format;
pub mod meter;
pub mod microgrids;
pub mod network;
pub mod order;
pub mod payload;
pub mod physics;
pub mod queries;
pub mod ramp;
pub mod reactive;
pub mod registry;
pub mod report;
pub mod runtime;
pub mod sampling;
pub mod scalar;
pub mod scenario;
pub mod scenarios;
pub mod setpoints;
pub mod sim_clock;
pub mod site;
pub mod streams;
pub mod subscriptions;
pub mod target;
pub mod text;
pub mod time;
pub mod timeline;
pub mod timeouts;
pub mod topology;
pub mod tui_log;
pub mod ui_log;
pub mod world;
