//! Engines are objects that can analyze raw bytes: each decodes them under
//! one encoding and describes the characters it found.

use crate::unicode::{codepoint_label, record_views, DescriptionRecord, RecordView};
use vstd::prelude::*;

verus! {

/// What one engine made of a payload.
#[derive(Debug, PartialEq, Eq)]
pub enum EngineOutcome {
    /// The payload decodes to `parsed`, whose characters `description`
    /// describes one by one.
    Success { parsed: String, description: Vec<DescriptionRecord> },
    /// The payload does not decode, for the reason that `error` gives.
    Failure { error: String },
}

/// The contents of an [`EngineOutcome`].
pub ghost enum OutcomeView {
    Success { parsed: Seq<char>, description: Seq<RecordView> },
    Failure { error: Seq<char> },
}

impl View for EngineOutcome {
    type V = OutcomeView;

    open spec fn view(&self) -> OutcomeView {
        match *self {
            EngineOutcome::Success { parsed, description } => OutcomeView::Success {
                parsed: parsed@,
                description: record_views(description@),
            },
            EngineOutcome::Failure { error } => OutcomeView::Failure { error: error@ },
        }
    }
}

/// The contents of what `parse` returns: the decoded text or the reason.
pub open spec fn text_result(r: Result<String, String>) -> Result<Seq<char>, Seq<char>> {
    match r {
        Ok(text) => Ok(text@),
        Err(reason) => Err(reason@),
    }
}

/// The common interface for engines.
///
/// What an engine returns is fixed by three functions of its own: its name,
/// what each payload decodes to, and how each text is described. Whatever
/// they are, a description has one record for each character of the text,
/// in order, and each record names its character and shows the scalar value
/// of the character as its code point.
pub trait Engine: Send + Sync {
    /// The name of the engine.
    spec fn name(&self) -> Seq<char>;

    /// What a payload decodes to, or why it does not decode.
    spec fn decoded(&self, bytes: Seq<u8>) -> Result<Seq<char>, Seq<char>>;

    /// The description of a text.
    spec fn described(&self, text: Seq<char>) -> Seq<RecordView>;

    /// Parse a sequence of bytes into a String, or return a String
    /// describing the error.
    fn parse(&self, bytes: &Vec<u8>) -> (r: Result<String, String>)
        ensures
            text_result(r) == self.decoded(bytes@),
    ;

    /// Return a description record for every character in the string.
    fn describe(&self, string: &String) -> (records: Vec<DescriptionRecord>)
        ensures
            record_views(records@) == self.described(string@),
            records.len() == string@.len(),
            forall|i: int|
                0 <= i < records.len() ==> {
                    &&& (#[trigger] records[i])@.character == Some(string@[i])
                    &&& records[i]@.codepoint == codepoint_label(string@[i] as u32)
                },
    ;

    /// Return the name of the engine, the key of its outcome in a response.
    fn get_name(&self) -> (name: String)
        ensures
            name@ == self.name(),
    ;
}

/// What an engine makes of a payload: the decoded text with its
/// description, or the reason why the payload does not decode.
pub open spec fn outcome_of<E: Engine + ?Sized>(engine: &E, bytes: Seq<u8>) -> OutcomeView {
    match engine.decoded(bytes) {
        Ok(text) => OutcomeView::Success { parsed: text, description: engine.described(text) },
        Err(reason) => OutcomeView::Failure { error: reason },
    }
}

/// Runs one engine on a payload.
pub fn run<E: Engine + ?Sized>(engine: &E, bytes: &Vec<u8>) -> (outcome: EngineOutcome)
    ensures
        outcome@ == outcome_of(engine, bytes@),
{
    match engine.parse(bytes) {
        Ok(parsed) => {
            let description = engine.describe(&parsed);
            EngineOutcome::Success { parsed, description }
        },
        Err(error) => EngineOutcome::Failure { error },
    }
}

/// Parsing is a function of the engine and the payload: two results for
/// the same payload hold the same text or the same reason.
pub proof fn lemma_parse_is_deterministic<E: Engine + ?Sized>(
    engine: &E,
    bytes: Seq<u8>,
    first: Result<String, String>,
    second: Result<String, String>,
)
    requires
        text_result(first) == engine.decoded(bytes),
        text_result(second) == engine.decoded(bytes),
    ensures
        text_result(first) == text_result(second),
{
}

} // verus!
