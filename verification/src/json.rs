//! The response as JSON text: one object, keyed by engine name, written
//! without white space.

use crate::engine::{EngineOutcome, OutcomeView};
use crate::text::push_char;
use crate::unicode::{record_views, DescriptionRecord, RecordView};
use vstd::prelude::*;

verus! {

/// The JSON string literal for a text, as `serde_json` writes it: the text
/// between double quotes, with the characters that JSON does not allow in a
/// string escaped.
pub uninterp spec fn json_string_literal(text: Seq<char>) -> Seq<char>;

/// Writes a text as a JSON string literal.
///
/// Trusted: makes a `serde_json::Value::String` of the text and calls
/// `to_string` on it, which goes through the `Display` of `Value` and so
/// through the compact serializer of `serde_json`. What it writes depends on
/// the text alone; the contract gives that result its name and claims no
/// more.
#[verifier::external_body]
pub(crate) fn json_string(text: &str) -> (literal: String)
    ensures
        literal@ == json_string_literal(text@),
{
    serde_json::Value::String(text.to_owned()).to_string()
}

/// One description record as a JSON object: `codepoint`, `name` and, where
/// the record names a character, `character`.
pub open spec fn record_json(record: RecordView) -> Seq<char> {
    "{\"codepoint\":"@ + json_string_literal(record.codepoint) + ",\"name\":"@
        + json_string_literal(record.name) + match record.character {
        Some(c) => ",\"character\":"@ + json_string_literal(seq![c]),
        None => Seq::empty(),
    } + "}"@
}

/// The records of a description, separated by commas.
pub open spec fn records_json(records: Seq<RecordView>) -> Seq<char>
    decreases records.len(),
{
    if records.len() == 0 {
        Seq::empty()
    } else if records.len() == 1 {
        record_json(records[0])
    } else {
        records_json(records.drop_last()) + ","@ + record_json(records.last())
    }
}

/// The outcome of one engine as a JSON object: `parsed` and `description`
/// for a success, `error` for a failure.
pub open spec fn outcome_json(outcome: OutcomeView) -> Seq<char> {
    match outcome {
        OutcomeView::Success { parsed, description } => "{\"parsed\":"@ + json_string_literal(
            parsed,
        ) + ",\"description\":["@ + records_json(description) + "]}"@,
        OutcomeView::Failure { error } => "{\"error\":"@ + json_string_literal(error) + "}"@,
    }
}

/// The members of the response object for the given names, in their
/// order, separated by commas: each name with the outcome kept under it.
pub open spec fn members_json(
    names: Seq<Seq<char>>,
    outcomes: Map<Seq<char>, OutcomeView>,
) -> Seq<char>
    decreases names.len(),
{
    if names.len() == 0 {
        Seq::empty()
    } else {
        let member = json_string_literal(names.last()) + ":"@ + outcome_json(
            outcomes[names.last()],
        );
        if names.len() == 1 {
            member
        } else {
            members_json(names.drop_last(), outcomes) + ","@ + member
        }
    }
}

/// The whole response as one JSON object.
pub open spec fn response_json(
    names: Seq<Seq<char>>,
    outcomes: Map<Seq<char>, OutcomeView>,
) -> Seq<char> {
    "{"@ + members_json(names, outcomes) + "}"@
}

/// Appends one description record.
pub fn push_record_json(out: &mut String, record: &DescriptionRecord)
    ensures
        final(out)@ == old(out)@ + record_json(record@),
{
    out.append("{\"codepoint\":");
    let codepoint = json_string(record.codepoint.as_str());
    out.append(codepoint.as_str());
    out.append(",\"name\":");
    let name = json_string(record.name.as_str());
    out.append(name.as_str());
    match record.character {
        Some(c) => {
            let mut single = String::new();
            push_char(&mut single, c);
            assert(single@ =~= seq![c]);
            out.append(",\"character\":");
            let character = json_string(single.as_str());
            out.append(character.as_str());
        },
        None => {},
    }
    out.append("}");
    assert(out@ =~= old(out)@ + record_json(record@));
}

/// Appends the records of a description.
pub fn push_records_json(out: &mut String, records: &Vec<DescriptionRecord>)
    ensures
        final(out)@ == old(out)@ + records_json(record_views(records@)),
{
    let ghost views = record_views(records@);
    let mut i: usize = 0;
    proof {
        assert(views.subrange(0, 0) =~= Seq::<RecordView>::empty());
        assert(out@ =~= old(out)@ + records_json(views.subrange(0, 0)));
    }
    while i < records.len()
        invariant
            i <= records.len(),
            views == record_views(records@),
            out@ == old(out)@ + records_json(views.subrange(0, i as int)),
        decreases records.len() - i,
    {
        let ghost read = views.subrange(0, i + 1);
        proof {
            assert(read.drop_last() =~= views.subrange(0, i as int));
            assert(read.last() == records[i as int]@);
        }
        if i > 0 {
            out.append(",");
        }
        push_record_json(out, &records[i]);
        proof {
            assert(out@ =~= old(out)@ + records_json(read));
        }
        i = i + 1;
    }
    proof {
        assert(views.subrange(0, records.len() as int) =~= views);
    }
}

/// Appends the outcome of one engine.
pub fn push_outcome_json(out: &mut String, outcome: &EngineOutcome)
    ensures
        final(out)@ == old(out)@ + outcome_json(outcome@),
{
    match outcome {
        EngineOutcome::Success { parsed, description } => {
            out.append("{\"parsed\":");
            let text = json_string(parsed.as_str());
            out.append(text.as_str());
            out.append(",\"description\":[");
            push_records_json(out, description);
            out.append("]}");
            assert(out@ =~= old(out)@ + outcome_json(outcome@));
        },
        EngineOutcome::Failure { error } => {
            out.append("{\"error\":");
            let text = json_string(error.as_str());
            out.append(text.as_str());
            out.append("}");
            assert(out@ =~= old(out)@ + outcome_json(outcome@));
        },
    }
}

} // verus!
