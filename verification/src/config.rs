//! Export transport configuration and its startup-time validation.
//!
//! The transport itself (channel, TLS, batching runtime) lives outside the
//! library; what is validated here is the part a tracer's lifetime depends
//! on: the collector endpoint must parse and the optional ingestion key must
//! be a legal metadata value. Both checks call the same parsers the
//! transport uses, so a configuration accepted here is one the transport
//! accepts too.
use vstd::prelude::*;

verus! {

/// Whether a character may appear in static authentication metadata.
///
/// `tonic` accepts a metadata value iff every byte is the tab (9) or at
/// least 32 and not 127 (DEL). On UTF-8 text that byte rule is exactly this
/// character rule: characters below 32 other than tab, and the DEL
/// character, are refused; every character of more than one byte encodes
/// into bytes of 128 and above, which the byte rule accepts.
pub open spec fn key_char_ok(c: char) -> bool {
    c == '\t' || (c as u32 >= 32 && c as u32 != 127)
}

/// Whether a whole key is a legal metadata value.
pub open spec fn key_ok(s: Seq<char>) -> bool {
    forall|i: int| 0 <= i < s.len() ==> key_char_ok(s[i])
}

/// Whether the collector endpoint text is one the export transport's
/// channel builder accepts. What it accepts is a whole address grammar, so
/// the predicate is left without a definition and every statement about it
/// goes through [`endpoint_ok`].
pub uninterp spec fn endpoint_accepted(s: Seq<char>) -> bool;

/// Relies on `tonic::metadata::AsciiMetadataValue::try_from` (through
/// `http::HeaderValue`): it returns `Ok` iff every byte of the text is 9,
/// or at least 32 and not 127 — as characters, iff [`key_ok`] holds.
#[verifier::external_body]
pub(crate) fn metadata_value_ok(s: &str) -> (r: bool)
    ensures
        r == key_ok(s@),
{
    match tonic::metadata::AsciiMetadataValue::try_from(String::from(s)) {
        Ok(_) => true,
        Err(_) => false,
    }
}

/// Relies on `tonic::transport::Endpoint::from_shared`: whether the
/// endpoint text parses as a channel address. Its result depends on the
/// text alone; [`endpoint_accepted`] names it.
#[verifier::external_body]
pub(crate) fn endpoint_ok(s: &str) -> (r: bool)
    ensures
        r == endpoint_accepted(s@),
{
    match tonic::transport::Endpoint::from_shared(String::from(s)) {
        Ok(_) => true,
        Err(_) => false,
    }
}

/// What a tracer needs to know about its export transport.
#[derive(Debug, Clone)]
pub struct ExportConfig {
    /// Collector address the transport will dial.
    pub endpoint: String,
    /// Optional static authentication metadata sent with every export.
    pub ingestion_key: Option<String>,
    /// Greatest number of characters a recorded payload preview keeps.
    pub preview_bound: usize,
    /// Greatest number of ended spans the batch buffer holds at once.
    pub queue_capacity: usize,
}

/// A startup-time configuration fault. Each is fatal: no span may be
/// created over a transport that could not be configured.
#[derive(Debug, Clone, Copy, PartialEq, Eq)]
pub enum InitError {
    /// The endpoint text is empty.
    MissingEndpoint,
    /// The endpoint text does not parse as a channel address.
    MalformedEndpoint,
    /// The ingestion key holds a character metadata may not carry.
    MalformedKey,
}

impl ExportConfig {
    /// The configuration is acceptable: a nonempty endpoint the channel
    /// builder parses, and a key (when given) that is legal metadata.
    pub open spec fn acceptable(&self) -> bool {
        &&& self.endpoint@.len() > 0
        &&& endpoint_accepted(self.endpoint@)
        &&& match self.ingestion_key {
            Option::Some(k) => key_ok(k@),
            Option::None => true,
        }
    }

    /// Check this configuration, reporting the first fault in the order:
    /// missing endpoint, malformed endpoint, malformed key.
    pub fn validate(&self) -> (r: Result<(), InitError>)
        ensures
            r is Ok <==> self.acceptable(),
            r == Result::<(), InitError>::Err(InitError::MissingEndpoint) <==> self.endpoint@.len() == 0,
            r == Result::<(), InitError>::Err(InitError::MalformedEndpoint) <==> (self.endpoint@.len() > 0
                && !endpoint_accepted(self.endpoint@)),
            r == Result::<(), InitError>::Err(InitError::MalformedKey) <==> (self.endpoint@.len() > 0
                && endpoint_accepted(self.endpoint@)
                && (self.ingestion_key matches Option::Some(k) && !key_ok(k@))),
    {
        if self.endpoint.as_str().unicode_len() == 0 {
            return Err(InitError::MissingEndpoint);
        }
        if !endpoint_ok(self.endpoint.as_str()) {
            return Err(InitError::MalformedEndpoint);
        }
        match &self.ingestion_key {
            Some(k) => {
                if !metadata_value_ok(k.as_str()) {
                    return Err(InitError::MalformedKey);
                }
            },
            None => {},
        }
        Ok(())
    }
}

} // verus!
