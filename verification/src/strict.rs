//! The protocol library as the strict decoder and as the judge of
//! signatures.

use crate::json::parsed;
use nostr::JsonUtil;
use vstd::prelude::*;

verus! {

/// What the protocol library makes of a client frame: the frame written anew
/// from what `nostr::ClientMessage::from_json` decoded, or the text of the
/// error with which it refused the frame.
pub uninterp spec fn strict_message(text: Seq<char>) -> Result<Seq<char>, Seq<char>>;

/// What the protocol library makes of an event object: the object written
/// anew from what `nostr::Event::from_json` decoded, or `None` where it
/// refused the text.
pub uninterp spec fn strict_event(text: Seq<char>) -> Option<Seq<char>>;

/// What the protocol library makes of a filter object: the object written
/// anew from what `nostr::Filter::from_json` decoded, or `None` where it
/// refused the text.
pub uninterp spec fn strict_filter(text: Seq<char>) -> Option<Seq<char>>;

/// Why the protocol library refuses an event object, if it does: the text of
/// the error from `nostr::Event::from_json`, or from `nostr::Event::verify`,
/// which checks the id against the hash of the canonical serialization and
/// the signature against the id and the public key. `None` where both accept.
pub uninterp spec fn signature_fault(text: Seq<char>) -> Option<Seq<char>>;

/// The characters of a result that holds texts.
pub open spec fn text_result(r: Result<String, String>) -> Result<Seq<char>, Seq<char>> {
    match r {
        Ok(s) => Ok(s@),
        Err(e) => Err(e@),
    }
}

/// The characters of an optional text.
pub open spec fn text_option(o: Option<String>) -> Option<Seq<char>> {
    match o {
        Some(s) => Some(s@),
        None => None,
    }
}

/// Decodes a client frame with `nostr::ClientMessage::from_json` and writes
/// the decoded message back with `try_as_json`; an error of either becomes
/// its text. The result depends on the text alone: [`strict_message`]. The
/// decoder first parses the text with `serde_json::from_slice`, so it
/// refuses every text that is no JSON.
#[verifier::external_body]
pub(crate) fn normalize_message(text: &str) -> (r: Result<String, String>)
    ensures
        text_result(r) == strict_message(text@),
        parsed(text@).is_none() ==> r.is_err(),
{
    match nostr::ClientMessage::from_json(text) {
        Ok(m) => m.try_as_json().map_err(|e| e.to_string()),
        Err(e) => Err(e.to_string()),
    }
}

/// Decodes an event object with `nostr::Event::from_json` and writes the
/// decoded event back with `try_as_json`. The result depends on the text
/// alone: [`strict_event`].
#[verifier::external_body]
pub(crate) fn normalize_event(text: &str) -> (r: Option<String>)
    ensures
        text_option(r) == strict_event(text@),
{
    match nostr::Event::from_json(text) {
        Ok(e) => e.try_as_json().ok(),
        Err(_) => None,
    }
}

/// Decodes a filter object with `nostr::Filter::from_json` and writes the
/// decoded filter back with `try_as_json`. The result depends on the text
/// alone: [`strict_filter`].
#[verifier::external_body]
pub(crate) fn normalize_filter(text: &str) -> (r: Option<String>)
    ensures
        text_option(r) == strict_filter(text@),
{
    match nostr::Filter::from_json(text) {
        Ok(f) => f.try_as_json().ok(),
        Err(_) => None,
    }
}

/// Decodes an event object with `nostr::Event::from_json` and calls
/// `nostr::Event::verify` on it; hands back the text of the error, if any.
/// The result depends on the text alone: [`signature_fault`].
#[verifier::external_body]
pub(crate) fn check_signature(text: &str) -> (r: Option<String>)
    ensures
        text_option(r) == signature_fault(text@),
{
    match nostr::Event::from_json(text) {
        Ok(e) => e.verify().err().map(|x| x.to_string()),
        Err(x) => Some(x.to_string()),
    }
}

} // verus!
