//! Decoding of byte payloads under several text encodings, with a
//! description of every character that was decoded.
//!
//! A payload is handed to a list of engines, one for each encoding. Each
//! engine either decodes the payload to a text and describes its characters
//! from the Unicode character database, or says why the payload does not
//! decode. The dispatcher gathers the outcomes by engine name and writes
//! them as one JSON object.

pub mod dispatcher;
pub mod engine;
pub mod json;
pub mod text;
pub mod unicode;
pub mod utf16engine;
pub mod utf8engine;
