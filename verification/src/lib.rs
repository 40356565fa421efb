//! A verified lockfile subsystem for pinning resolved RPM package sets.
//!
//! The lockfile records the declared package specs, the fully resolved
//! remote package set, the requirement sets of locally supplied RPMs and
//! the per-repository GPG trust policy.  It decides when an existing
//! resolution may be reused, persists itself in a deterministic textual
//! format, reports deltas between resolutions, and drives the
//! checksum/signature verification of downloaded artifacts.

pub mod order;
pub mod lockfile;
pub mod updates;
pub mod resolve;
pub mod download;
pub mod codec;
