use vstd::prelude::*;

verus! {

/// An audio input or output device.
#[derive(Debug, Clone, PartialEq, Eq)]
pub struct AudioDeviceInfo {
    pub id: String,
    pub name: String,
}

/// What starting the microphone reports when no capture is available on this platform.
pub fn mic_capture_unavailable() -> (r: String)
    ensures
        r@ == "Mic capture not available on this platform"@,
{
    String::from_str("Mic capture not available on this platform")
}

} // verus!
