//! Rendering of the audio preview box: visible-width string helpers, box
//! borders and label/value rows, text wrapping, number formatting, iXML tag
//! extraction and the braille waveform.
pub mod text;
pub mod ansi;
pub mod frame;
pub mod fields;
pub mod wrap;
pub mod wrapped;
pub mod binary32;
pub mod waveform;
pub mod encoding;
pub mod ixml;
pub mod units;
pub mod tags;
pub mod probe;
pub mod json;
pub mod report;
