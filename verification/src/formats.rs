//! Pluggable response deserialization: a capability contract for turning a
//! response payload - text, bytes, or a readable stream - into a
//! caller-specified typed value, and the JSON implementation of it. The
//! JSON operations wire the payload straight through a standard JSON
//! parse: whatever the JSON parser accepts or rejects is the contract.

use vstd::prelude::*;
use vstd::string::StringExecFns;

verus! {

/// The uniform failure of response parsing: the name of the format that
/// failed and the underlying parser's message.
#[derive(Debug, Clone, PartialEq, Eq)]
pub struct DeserializationError {
    pub format: String,
    pub message: String,
}

/// serde_json's error type, carried opaquely until its message is read.
#[verifier::external_type_specification]
#[verifier::external_body]
pub struct ExJsonError(serde_json::Error);

/// Relies on serde_json::from_str: parses a typed value from JSON text;
/// which inputs parse is the JSON parser's contract.
#[verifier::external_body]
fn json_from_str<T: serde::de::DeserializeOwned>(s: &str) -> Result<T, serde_json::Error> {
    serde_json::from_str(s)
}

/// Relies on serde_json::from_slice: parses a typed value from JSON bytes.
#[verifier::external_body]
fn json_from_slice<T: serde::de::DeserializeOwned>(s: &[u8]) -> Result<T, serde_json::Error> {
    serde_json::from_slice(s)
}

/// Relies on serde_json::from_reader: parses a typed value by consuming a
/// readable byte stream. The stream is supplied and owned by the caller;
/// this library never schedules its I/O.
#[verifier::external_body]
fn json_from_reader<T: serde::de::DeserializeOwned, R: std::io::Read>(rdr: R) -> Result<
    T,
    serde_json::Error,
> {
    serde_json::from_reader(rdr)
}

/// Relies on the `Display` rendering of serde_json::Error for the
/// diagnostic message carried in `DeserializationError`.
#[verifier::external_body]
fn json_error_message(e: &serde_json::Error) -> String {
    e.to_string()
}

/// The uniform error for a failed JSON parse.
fn json_error(e: &serde_json::Error) -> (r: DeserializationError)
    ensures
        r.format@ == "json"@,
{
    DeserializationError { format: String::from_str("json"), message: json_error_message(e) }
}

/// A capability for turning response payloads into a caller-specified
/// typed value, from text already in memory, from a raw byte buffer, or by
/// incrementally consuming a readable byte stream. A failure wraps the
/// underlying parser's cause into a `DeserializationError` carrying this
/// format's name.
pub trait DeserializerFormat {
    /// The name a failure of this format reports.
    spec fn format_name(&self) -> Seq<char>;

    /// Parse a typed value from UTF-8 text already fully decoded in memory.
    fn parse_str<T: serde::de::DeserializeOwned>(&self, s: &str) -> (r: Result<
        T,
        DeserializationError,
    >)
        ensures
            r matches Err(e) ==> e.format@ == self.format_name(),
    ;

    /// Parse a typed value from a raw byte buffer.
    fn parse_slice<T: serde::de::DeserializeOwned>(&self, s: &[u8]) -> (r: Result<
        T,
        DeserializationError,
    >)
        ensures
            r matches Err(e) ==> e.format@ == self.format_name(),
    ;

    /// Parse a typed value by incrementally consuming a readable byte
    /// stream, for large or pipelined payloads; the caller supplies and
    /// drives the stream.
    fn parse_reader<T: serde::de::DeserializeOwned, R: std::io::Read>(&self, rdr: R) -> (r: Result<
        T,
        DeserializationError,
    >)
        ensures
            r matches Err(e) ==> e.format@ == self.format_name(),
    ;
}

/// The JSON deserializer: a stateless strategy with no owned data.
pub struct JsonDeserializer;

impl DeserializerFormat for JsonDeserializer {
    open spec fn format_name(&self) -> Seq<char> {
        "json"@
    }

    fn parse_str<T: serde::de::DeserializeOwned>(&self, s: &str) -> (r: Result<
        T,
        DeserializationError,
    >) {
        match json_from_str(s) {
            Ok(v) => Ok(v),
            Err(e) => Err(json_error(&e)),
        }
    }

    fn parse_slice<T: serde::de::DeserializeOwned>(&self, s: &[u8]) -> (r: Result<
        T,
        DeserializationError,
    >) {
        match json_from_slice(s) {
            Ok(v) => Ok(v),
            Err(e) => Err(json_error(&e)),
        }
    }

    fn parse_reader<T: serde::de::DeserializeOwned, R: std::io::Read>(&self, rdr: R) -> (r: Result<
        T,
        DeserializationError,
    >) {
        match json_from_reader(rdr) {
            Ok(v) => Ok(v),
            Err(e) => Err(json_error(&e)),
        }
    }
}

} // verus!
