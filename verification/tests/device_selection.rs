use sam_prep::select_device;
use sam_prep::Device;

#[test]
fn cpu_preference_wins() {
    assert_eq!(select_device(true, true), (Device::Cpu, false));
    assert_eq!(select_device(true, false), (Device::Cpu, false));
}

#[test]
fn accelerator_taken_when_available() {
    assert_eq!(select_device(false, true), (Device::Accelerator(0), false));
}

#[test]
fn fallback_to_cpu_warns() {
    assert_eq!(select_device(false, false), (Device::Cpu, true));
}

#[test]
fn device_without_accelerator_returns_cpu_and_warns() {
    // This build has no accelerator support, so asking for one falls back to
    // the CPU with a warning.
    let (d, warn) = sam_prep::device(false);
    assert_eq!(d, Device::Cpu);
    assert!(warn);
}

#[test]
fn device_with_cpu_preference_is_quiet() {
    let (d, warn) = sam_prep::device(true);
    assert_eq!(d, Device::Cpu);
    assert!(!warn);
}
