//! The audio backends' plain parts: which device playback goes to, the capture objects each
//! platform starts from, and the errors they report.
use vstd::prelude::*;

use crate::text::concat;

verus! {

/// Playback through one output device: the system default, or the device whose id was saved in
/// settings. A device that is absent or an id that does not parse fails the start, so audio
/// never silently moves to a device the user did not choose.
#[derive(Debug, Clone, PartialEq, Eq)]
pub struct CpalOutput {
    pub device: Option<String>,
}

impl CpalOutput {
    /// `None` plays through the default device; `Some(id)` through the device with that id.
    pub fn new(device: Option<String>) -> (o: CpalOutput)
        ensures
            o.device == device,
    {
        CpalOutput { device }
    }
}

impl Default for CpalOutput {
    fn default() -> (o: CpalOutput)
        ensures
            o.device is None,
    {
        CpalOutput { device: None }
    }
}

/// An output device as the settings dialog lists it: the stable id to save and the name to show.
#[derive(Debug, Clone, PartialEq, Eq)]
pub struct OutputDevice {
    pub id: String,
    pub name: String,
}

/// Why an audio backend failed.
#[derive(Debug, Clone, PartialEq, Eq)]
pub enum AudioError {
    PipeWire(String),
    Windows(String),
    Unsupported(String),
    Device(String),
    Format(String),
}

/// The text an audio error is shown as: what failed, then the backend's own words.
pub open spec fn error_text(e: AudioError) -> Seq<char> {
    match e {
        AudioError::PipeWire(m) => "PipeWire: "@ + m@,
        AudioError::Windows(m) => "windows: "@ + m@,
        AudioError::Unsupported(m) => "unsupported on this system: "@ + m@,
        AudioError::Device(m) => "audio device: "@ + m@,
        AudioError::Format(m) => "format refused: "@ + m@,
    }
}

impl AudioError {
    /// The error as shown to the user.
    pub fn message(&self) -> (text: String)
        ensures
            text@ == error_text(*self),
    {
        match self {
            AudioError::PipeWire(m) => concat("PipeWire: ", m.as_str()),
            AudioError::Windows(m) => concat("windows: ", m.as_str()),
            AudioError::Unsupported(m) => concat("unsupported on this system: ", m.as_str()),
            AudioError::Device(m) => concat("audio device: ", m.as_str()),
            AudioError::Format(m) => concat("format refused: ", m.as_str()),
        }
    }
}

/// A running capture, as each platform backend provides it.
pub trait AudioCaptureSession {
    /// Set once the backend's thread has died; the registry polls it and treats it as a failure.
    fn error(&self) -> Option<String>;

    /// Stops the capture.
    fn stop(self: Box<Self>);
}

/// A running playback, as each platform backend provides it; dropping it stops playback.
pub trait AudioOutputSession {}

/// Linux capture of every application's playback except brp's own, identified by this process.
#[derive(Debug, Clone, Copy, PartialEq, Eq)]
pub struct PipeWireCapture {
    pub process_id: u32,
}

impl PipeWireCapture {
    /// Capture run by process `process_id`.
    pub fn new(process_id: u32) -> (c: PipeWireCapture)
        ensures
            c.process_id == process_id,
    {
        PipeWireCapture { process_id }
    }
}

/// Windows capture through process loopback, excluding this process's own tree.
#[derive(Debug, Clone, Copy, PartialEq, Eq)]
pub struct ProcessLoopbackCapture {
    pub process_id: u32,
}

impl ProcessLoopbackCapture {
    /// Capture run by process `process_id`.
    pub fn new(process_id: u32) -> (c: ProcessLoopbackCapture)
        ensures
            c.process_id == process_id,
    {
        ProcessLoopbackCapture { process_id }
    }
}

/// A failed Windows call as an audio error: the call's name, then what it reported.
pub fn windows_error(call: &str, error: &str) -> (e: AudioError)
    ensures
        e matches AudioError::Windows(m) && m@ == call@ + ": "@ + error@,
{
    let head = concat(call, ": ");
    AudioError::Windows(concat(head.as_str(), error))
}

} // verus!
