//! Checks whether the cache directory of the `pixi` package manager has at
//! least a requested number of binary gigabytes (1024^3 bytes) of free disk
//! space.
//!
//! The caller runs `pixi info --json` and hands the captured bytes to this
//! library, together with the requested threshold given as the raw bit
//! pattern of an IEEE 754 double. The library decodes the cache directory
//! from the JSON, queries the filesystem for the available bytes, compares
//! them against the threshold exactly (no floating-point arithmetic, no
//! rounding), and renders the success or failure message.

pub mod bits;
pub mod compare;
pub mod decode;
pub mod display;
pub mod report;
pub mod space;
