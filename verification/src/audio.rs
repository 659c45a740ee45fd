//! Values exchanged with the native audio host, and the checks made on the
//! Rust side of its C interface.
use vstd::prelude::*;
use vstd::string::StrSliceExecFns;
use vstd::string::StringExecFns;

use crate::text::{chars_of, push_char};

verus! {

/// A playback device as the native host reports it.
#[derive(Debug, Clone, PartialEq, Eq)]
pub struct DeviceInfo {
    pub id: String,
    pub name: String,
    pub is_default: bool,
}

/// Why a native audio operation failed.
#[derive(Debug, Clone, Copy, PartialEq, Eq, Structural)]
pub enum AudioError {
    CreationFailed,
    DeviceInfoFailed,
    InvalidDeviceId,
    LoadFailed,
    StartFailed,
    PlayFailed,
    SeekFailed,
}

/// The message that describes an audio error.
pub open spec fn audio_error_message(e: AudioError) -> Seq<char> {
    match e {
        AudioError::CreationFailed => "could not create the native audio host"@,
        AudioError::DeviceInfoFailed => "could not read native audio device information"@,
        AudioError::InvalidDeviceId => "audio device ID contains a null byte"@,
        AudioError::LoadFailed => "could not load the mono sample"@,
        AudioError::StartFailed => "could not start the selected audio device"@,
        AudioError::PlayFailed => "audio transport could not start"@,
        AudioError::SeekFailed => "audio transport seek was rejected"@,
    }
}

impl AudioError {
    /// The message that describes the error.
    pub fn message(&self) -> (m: &'static str)
        ensures
            m@ == audio_error_message(*self),
    {
        match self {
            AudioError::CreationFailed => "could not create the native audio host",
            AudioError::DeviceInfoFailed => "could not read native audio device information",
            AudioError::InvalidDeviceId => "audio device ID contains a null byte",
            AudioError::LoadFailed => "could not load the mono sample",
            AudioError::StartFailed => "could not start the selected audio device",
            AudioError::PlayFailed => "audio transport could not start",
            AudioError::SeekFailed => "audio transport seek was rejected",
        }
    }
}

/// The outcome of a native call that reports success as a flag.
pub fn native_status(succeeded: bool, failure: AudioError) -> (r: Result<(), AudioError>)
    ensures
        r == (if succeeded { Ok::<(), AudioError>(()) } else { Err(failure) }),
{
    if succeeded {
        Ok(())
    } else {
        Err(failure)
    }
}

/// A device id can be handed to C only when it holds no NUL character.
pub fn check_device_id(device_id: Option<&str>) -> (r: Result<(), AudioError>)
    ensures
        r == (match device_id {
            Some(id) => if id@.contains('\0') {
                Err(AudioError::InvalidDeviceId)
            } else {
                Ok(())
            },
            None => Ok::<(), AudioError>(()),
        }),
{
    match device_id {
        None => Ok(()),
        Some(id) => {
            let cs = chars_of(id);
            let mut i: usize = 0;
            while i < cs.len()
                invariant
                    device_id == Some(id),
                    cs@ == id@,
                    i <= cs@.len(),
                    forall|k: int| 0 <= k < i ==> cs@[k] != '\0',
                decreases cs.len() - i,
            {
                if cs[i] == '\0' {
                    assert(id@[i as int] == '\0');
                    assert(id@.contains('\0'));
                    return Err(AudioError::InvalidDeviceId);
                }
                i += 1;
            }
            Ok(())
        },
    }
}

/// The device that a play request selects: none (the backend default) when
/// no id or an empty id is given.
pub fn selected_device(device_id: Option<&str>) -> (r: Option<&str>)
    ensures
        match device_id {
            Some(id) => if id@.len() == 0 {
                r is None
            } else {
                r == Some(id)
            },
            None => r is None,
        },
{
    match device_id {
        Some(id) => {
            if id.unicode_len() == 0 {
                None
            } else {
                Some(id)
            }
        },
        None => None,
    }
}

/// The line that lists a device: id, a tab, the name, and ` (default)` for
/// the default device.
pub open spec fn device_line(d: DeviceInfo) -> Seq<char> {
    d.id@ + seq!['\t'] + d.name@ + if d.is_default {
        " (default)"@
    } else {
        Seq::empty()
    }
}

impl DeviceInfo {
    /// The line that lists this device.
    pub fn listing(&self) -> (s: String)
        ensures
            s@ == device_line(*self),
    {
        let mut s = String::from_str(self.id.as_str());
        push_char(&mut s, '\t');
        s.append(self.name.as_str());
        if self.is_default {
            s.append(" (default)");
        }
        s
    }
}

} // verus!
