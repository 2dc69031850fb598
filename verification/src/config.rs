//! The decoded configuration that the registry is built from.

use base64::Engine;
use vstd::prelude::*;
use vstd::string::*;
use vstd::utf8::{decode_utf8, valid_utf8};
use crate::text::{bytes_of, utf8_text};

verus! {

/// A set of inbound and outbound keys.
/// Requests sent to the inbound DSN are mirrored to all outbound DSNs.
#[derive(Debug, PartialEq)]
pub struct KeyRing {
    /// The virtual DSN that the mirror accepts traffic on.
    pub inbound: Option<String>,
    /// The upstream DSNs that the mirror forwards traffic to.
    pub outbound: Vec<Option<String>>,
}

/// The mathematical model of a [`KeyRing`].
pub struct KeyRingModel {
    pub inbound: Option<Seq<char>>,
    pub outbound: Seq<Option<Seq<char>>>,
}

impl DeepView for KeyRing {
    type V = KeyRingModel;

    open spec fn deep_view(&self) -> KeyRingModel {
        KeyRingModel {
            inbound: self.inbound.deep_view(),
            outbound: self.outbound.deep_view(),
        }
    }
}

/// The whole configuration of a mirror.
#[derive(Debug, PartialEq)]
pub struct ConfigData {
    /// The inbound IP to use.
    pub ip: Option<String>,
    /// The port the server listens on.
    pub port: Option<u16>,
    /// The key rings that the server handles.
    pub keys: Vec<KeyRing>,
}

/// The configuration could not be read or decoded.
#[derive(Debug, Clone)]
pub struct ConfigError;

/// The bytes that `text` encodes in standard base64, as the `base64` crate
/// decodes it; `None` where it reports an error.
pub uninterp spec fn base64_decoded(text: Seq<char>) -> Option<Seq<u8>>;

/// Calls `Engine::decode` of `base64::engine::general_purpose::STANDARD`.
/// The outcome is a function of the text alone.
#[verifier::external_body]
pub(crate) fn base64_decode(text: &str) -> (r: Option<Vec<u8>>)
    ensures
        bytes_of(r) == base64_decoded(text@),
{
    match base64::engine::general_purpose::STANDARD.decode(text) {
        Ok(decoded) => Some(decoded),
        Err(_) => None,
    }
}

/// The text that decoded bytes spell, if they are UTF-8.
pub open spec fn text_of(decoded: Option<Seq<u8>>) -> Option<Seq<char>> {
    match decoded {
        Some(b) => if valid_utf8(b) {
            Some(decode_utf8(b))
        } else {
            None
        },
        None => None,
    }
}

/// Reads decoded bytes as text.
pub fn config_text(decoded: Option<Vec<u8>>) -> (r: Result<String, ConfigError>)
    ensures
        r is Ok <==> text_of(bytes_of(decoded)) is Some,
        r is Ok ==> Some(r->Ok_0@) == text_of(bytes_of(decoded)),
{
    match decoded {
        Some(bytes) => {
            match utf8_text(bytes.as_slice()) {
                Some(text) => Ok(text),
                None => Err(ConfigError),
            }
        },
        None => Err(ConfigError),
    }
}

/// Decodes a configuration that is given in base64 into its text. It fails
/// where the input is no base64 or the bytes are no UTF-8.
pub fn decode_b64_config(b64: &str) -> (r: Result<String, ConfigError>)
    ensures
        r is Ok <==> text_of(base64_decoded(b64@)) is Some,
        r is Ok ==> Some(r->Ok_0@) == text_of(base64_decoded(b64@)),
{
    config_text(base64_decode(b64))
}

} // verus!
