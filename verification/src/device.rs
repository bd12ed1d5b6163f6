//! Compute-device selection: CPU by request, otherwise an accelerator when
//! one is available, with a silent-by-flag fallback to CPU.

use vstd::prelude::*;

verus! {

/// The compute target for a run: the CPU, or the accelerator with the given
/// ordinal.
#[derive(Clone, Copy, Debug, PartialEq, Eq, Structural)]
pub enum Device {
    Cpu,
    Accelerator(u32),
}

/// The pure selection policy: honour an explicit CPU preference, otherwise
/// take the accelerator when one is present, else fall back to the CPU and
/// ask for a warning (the second component of the result).
pub fn select_device(prefer_cpu: bool, accelerator_available: bool) -> (r: (Device, bool))
    ensures
        prefer_cpu ==> r == (Device::Cpu, false),
        !prefer_cpu && accelerator_available ==> r == (Device::Accelerator(0u32), false),
        !prefer_cpu && !accelerator_available ==> r == (Device::Cpu, true),
{
    if prefer_cpu {
        (Device::Cpu, false)
    } else if accelerator_available {
        (Device::Accelerator(0), false)
    } else {
        (Device::Cpu, true)
    }
}

/// Relies on candle_core::Device::cuda_if_available for accelerator
/// enumeration: the result is a CUDA device when one can be initialised, the
/// CPU otherwise; an enumeration failure counts as no accelerator. Nothing is
/// promised of the result, which depends on the machine.
#[verifier::external_body]
fn accelerator_available() -> bool {
    match candle_core::Device::cuda_if_available(0) {
        Ok(d) => d.is_cuda(),
        Err(_) => false,
    }
}

/// Pick the compute device for this run. Returns the device and whether the
/// caller should warn that an accelerator was wanted but none was found.
pub fn device(prefer_cpu: bool) -> (r: (Device, bool))
    ensures
        prefer_cpu ==> r == (Device::Cpu, false),
        !prefer_cpu ==> r.0 == Device::Cpu || r.0 == Device::Accelerator(0u32),
        !prefer_cpu ==> (r.1 <==> r.0 == Device::Cpu),
{
    let available = if prefer_cpu {
        false
    } else {
        accelerator_available()
    };
    select_device(prefer_cpu, available)
}

} // verus!
