//! Strict decoding of raw entry names under a chosen character set.
use vstd::prelude::*;
use vstd::string::StringExecFns;

use encoding::label::encoding_from_whatwg_label;
use encoding::{DecoderTrap, Encoding};

verus! {

/// The canonical name of the character set that a label selects, if any.
pub uninterp spec fn codec_for_label(label: Seq<char>) -> Option<Seq<char>>;

/// The text that `raw` decodes to under the character set labelled `label`,
/// with every invalid byte sequence a failure; `None` where decoding fails or
/// the label selects no character set.
pub uninterp spec fn strict_decode(label: Seq<char>, raw: Seq<u8>) -> Option<Seq<char>>;

/// Relies on `encoding::label::encoding_from_whatwg_label` to find the
/// character set for a label, and on its `whatwg_name` (or `name`) for the
/// canonical name.
#[verifier::external_body]
fn lookup_label(label: &str) -> (r: Option<String>)
    ensures
        match r {
            Some(n) => codec_for_label(label@) == Some(n@),
            None => codec_for_label(label@).is_none(),
        },
{
    match encoding_from_whatwg_label(label) {
        Some(e) => Some(e.whatwg_name().unwrap_or(e.name()).to_string()),
        None => None,
    }
}

/// Relies on `Encoding::decode` with `DecoderTrap::Strict`, for the character
/// set that `encoding_from_whatwg_label` finds for `label`.
#[verifier::external_body]
fn decode_strict(label: &str, raw: &[u8]) -> (r: Option<String>)
    ensures
        match r {
            Some(t) => strict_decode(label@, raw@) == Some(t@),
            None => strict_decode(label@, raw@).is_none(),
        },
{
    match encoding_from_whatwg_label(label) {
        Some(e) => e.decode(raw, DecoderTrap::Strict).ok(),
        None => None,
    }
}

/// A character set, by its canonical name.
#[derive(Debug, Clone)]
pub struct Codec {
    pub name: String,
}

/// Why a raw entry name could not be turned into text.
#[derive(Debug, Clone)]
pub enum NameError {
    /// No character set answers to the label.
    UnknownEncoding { label: String },
    /// The entry's name bytes are invalid under the character set.
    Undecodable { codec: String, entry: String },
}

impl NameError {
    /// The error as one line of text.
    pub fn message(&self) -> (r: String)
        ensures
            r@ == match self {
                NameError::UnknownEncoding { label } => "Unknown encoding: "@ + label@,
                NameError::Undecodable { codec, entry } => "Encoding "@ + codec@
                    + " doesn't work for file "@ + entry@,
            },
    {
        match self {
            NameError::UnknownEncoding { label } => {
                let mut m = String::from_str("Unknown encoding: ");
                m.append(label.as_str());
                m
            },
            NameError::Undecodable { codec, entry } => {
                let mut m = String::from_str("Encoding ");
                m.append(codec.as_str());
                m.append(" doesn't work for file ");
                m.append(entry.as_str());
                m
            },
        }
    }
}

/// The outcome of looking up a label, given what the lookup found.
pub fn codec_from_lookup(label: &str, found: Option<String>) -> (r: Result<Codec, NameError>)
    ensures
        match found {
            Some(n) => r matches Ok(c) && c.name@ == n@,
            None => r matches Err(NameError::UnknownEncoding { label: l }) && l@ == label@,
        },
{
    match found {
        Some(n) => Ok(Codec { name: n }),
        None => Err(NameError::UnknownEncoding { label: String::from_str(label) }),
    }
}

/// The character set that a label selects.
pub fn parse_encoding(label: &str) -> (r: Result<Codec, NameError>)
    ensures
        match codec_for_label(label@) {
            Some(n) => r matches Ok(c) && c.name@ == n,
            None => r matches Err(NameError::UnknownEncoding { label: l }) && l@ == label@,
        },
{
    let found = lookup_label(label);
    codec_from_lookup(label, found)
}

/// The outcome of decoding an entry's name, given what strict decoding gave.
pub fn name_from_decoded(codec: &Codec, decoded: Option<String>, entry: &str) -> (r: Result<
    String,
    NameError,
>)
    ensures
        match decoded {
            Some(t) => r matches Ok(s) && s@ == t@,
            None => r matches Err(NameError::Undecodable { codec: c, entry: e }) && c@
                == codec.name@ && e@ == entry@,
        },
{
    match decoded {
        Some(t) => Ok(t),
        None => Err(
            NameError::Undecodable {
                codec: String::from_str(codec.name.as_str()),
                entry: String::from_str(entry),
            },
        ),
    }
}

/// Decodes an entry's raw name under `codec`, failing on any invalid byte
/// sequence; `entry` is how the failure names the entry.
pub fn decode_zip_filename(codec: &Codec, raw: &[u8], entry: &str) -> (r: Result<
    String,
    NameError,
>)
    ensures
        match strict_decode(codec.name@, raw@) {
            Some(t) => r matches Ok(s) && s@ == t,
            None => r matches Err(NameError::Undecodable { codec: c, entry: e }) && c@
                == codec.name@ && e@ == entry@,
        },
{
    let decoded = decode_strict(codec.name.as_str(), raw);
    name_from_decoded(codec, decoded, entry)
}

} // verus!
