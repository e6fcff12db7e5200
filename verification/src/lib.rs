//! Playback of two-team field telemetry: parsing of bracketed log and live
//! wire records, coordinate normalization, render-cadence decoupling and
//! interpolated motion, over fixed-point coordinates.

#![verifier::loop_isolation(false)]

pub mod entities;
pub mod fx;
pub mod numparse;
pub mod playdata;
pub mod rcg;
pub mod rclive;
pub mod simobjs;
pub mod strutil;
pub mod tokens;
pub mod xspaces;
