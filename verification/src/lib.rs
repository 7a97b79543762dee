//! Core of a client-side, range-capable object download subsystem.
//!
//! The crate holds the verified logic of the subsystem: the host selection
//! and punishment engine, the telemetry ("dotting") record model with its
//! weighted-average merge, the line-oriented record codec used for the
//! on-disk buffer file and the monitor upload body, the dotter state
//! machine that drives flushing and uploading, request-id formatting, and
//! the multi-cluster configuration model.  Everything that talks to the
//! outside world (files, sockets, clocks, threads) stays with the caller,
//! which hands plain values in and takes plain values back.

pub mod codec;
pub mod config;
pub mod dotter;
pub mod host_selector;
pub mod record_map;
pub mod req_id;
pub mod records;
pub mod strutil;
