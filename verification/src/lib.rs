//! A driver for a Wi-SUN route-B radio module that reads smart-meter
//! telemetry over ECHONET Lite.
//!
//! The crate is organized along the data path.  [`serial`] turns a raw
//! byte transport into CR/LF-terminated lines; [`parser`] classifies each
//! line, or multi-line block, into a typed module message; [`echonet`]
//! encodes and decodes the binary ECHONET Lite packets carried in UDP
//! payloads, together with the property-map descriptor; [`wisun_module`]
//! drives the module through its AT-style command set — scan, join, and
//! property reads — over a buffered message queue.  [`ipv6`] and [`text`]
//! hold the address and text forms the command set uses.
//!
//! Every function is specified against a mathematical model of its data:
//! byte streams as sequences, the property map as a set, the connection
//! as its sequence of future lines.  Only the boundary — the operating
//! system's serial port, UTF-8 decoding, the wall clock, and
//! transaction-id drawing — is trusted.
pub mod echonet;
pub mod ipv6;
pub mod parser;
pub mod serial;
pub mod text;
pub mod wisun_module;
