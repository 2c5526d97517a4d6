//! The decisions of the comp fleet's tools: what they parse, what they refuse, what
//! they answer and how they place, route and judge work.

pub mod agent;
pub mod bench;
pub mod browser;
pub mod capgraph;
pub mod catalog;
pub mod checks;
pub mod clipboard;
pub mod cron;
pub mod digest;
pub mod docker;
pub mod ffmpeg;
pub mod field;
pub mod forward;
pub mod fswatch;
pub mod goal;
pub mod goald;
pub mod hopcost;
pub mod imageopt;
pub mod ingress;
pub mod json;
pub mod lanscan;
pub mod llmlocal;
pub mod mailrelay;
pub mod matrix;
pub mod mdns;
pub mod media;
pub mod number;
pub mod oci;
pub mod offpeak;
pub mod order;
pub mod park;
pub mod path;
pub mod planscale;
pub mod plug;
pub mod relay;
pub mod reuse;
pub mod scope;
pub mod text;
pub mod text_map;
pub mod url;
