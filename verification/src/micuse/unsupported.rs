//! Systems without a way to watch the virtual microphone. A target is always
//! found, so that what is reported is that the system cannot tell, and not that
//! a device is missing.
use vstd::prelude::*;

use crate::micuse::MicUse;

verus! {

/// Nothing in particular is watched.
#[derive(Debug, Clone, Copy, PartialEq, Eq, Structural)]
pub struct MonitorTarget;

pub fn find_monitor_target(_output_device_name: &str) -> (r: Option<MonitorTarget>)
    ensures
        r == Some(MonitorTarget),
{
    Some(MonitorTarget)
}

pub fn device_running_somewhere(_target: &MonitorTarget) -> (r: bool)
    ensures
        !r,
{
    false
}

pub fn other_process_capturing(_target: &MonitorTarget) -> (r: MicUse)
    ensures
        r == MicUse::Unsupported,
{
    MicUse::Unsupported
}

} // verus!
