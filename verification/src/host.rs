//! What the operating system hands back: the outcome of a command that was
//! run on the library's behalf, and the decoding of its output into text.

use vstd::prelude::*;
use vstd::utf8::{decode_utf8, valid_utf8};

verus! {

/// The outcome of one command run by the host.
#[derive(Debug, PartialEq, Eq)]
pub enum CommandOutcome {
    /// The command could not be started.
    NotRun,
    /// The command ran to its end.
    Exited {
        /// Whether it reported success.
        success: bool,
        /// What it wrote to its standard output.
        stdout: Vec<u8>,
        /// What it wrote to its standard error.
        stderr: Vec<u8>,
    },
}

/// The text that lossy decoding makes of `bytes`: their UTF-8 reading, with a
/// replacement character wherever they are not valid UTF-8.
pub uninterp spec fn lossy_text(bytes: Seq<u8>) -> Seq<char>;

/// Strict decoding with `String::from_utf8`: it succeeds exactly on valid
/// UTF-8, and the string it gives is the text those bytes encode.
#[verifier::external_body]
pub(crate) fn decode(bytes: Vec<u8>) -> (text: Option<String>)
    ensures
        text is Some <==> valid_utf8(bytes@),
        text matches Some(s) ==> s@ == decode_utf8(bytes@),
{
    match String::from_utf8(bytes) {
        Ok(s) => Some(s),
        Err(_) => None,
    }
}

/// Lossy decoding with `String::from_utf8_lossy`: the result depends on the
/// bytes alone and is named `lossy_text`.
#[verifier::external_body]
pub(crate) fn decode_lossy(bytes: &Vec<u8>) -> (text: String)
    ensures
        text@ == lossy_text(bytes@),
{
    String::from_utf8_lossy(bytes).into_owned()
}

} // verus!
