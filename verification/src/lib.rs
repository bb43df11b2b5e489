//! Codec for the TSL UMD tally-light control protocol.
//!
//! TSL UMD is a family of protocols for driving tally (on air) lights on
//! multiviewers, under-monitor displays and broadcast monitors. It was
//! originally carried over serial lines and is now commonly sent over IP,
//! one packet per datagram.

pub mod v3_1;
