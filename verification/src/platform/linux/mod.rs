//! The Linux side: firewall rules, the `nfqws` engine, the systemd unit, elevation.
use vstd::prelude::*;

pub mod desktop;
pub mod elevate;
pub mod firewall;
pub mod nft;
pub mod paths;
pub mod runtime;
pub mod service;
pub mod status;
pub mod strategy;

verus! {

/// The Linux platform. It has no state of its own.
#[derive(Clone, Copy, PartialEq, Eq, Structural, Debug)]
pub struct LinuxPlatform;

impl LinuxPlatform {
    /// The platform.
    pub fn new() -> (r: Self)
        ensures
            r == LinuxPlatform,
    {
        LinuxPlatform
    }
}

} // verus!
