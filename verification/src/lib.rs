//! Core of a local application library: catalogue, scanning, sharing over HTTP.

pub mod actions;
pub mod base64;
pub mod catalog;
pub mod client;
pub mod exchange;
pub mod executables;
pub mod fnv;
pub mod http;
pub mod icons;
pub mod json;
pub mod layout;
pub mod lists;
pub mod model;
pub mod names;
pub mod numbers;
pub mod order;
pub mod package;
pub mod paths;
pub mod review;
pub mod scan;
pub mod server;
pub mod sessions;
pub mod settings;
pub mod split;
pub mod streams;
pub mod text;
pub mod transfer;
pub mod utf8;
pub mod wire;
