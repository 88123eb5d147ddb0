//! The dispatcher: hands a payload to every engine and gathers what each
//! made of it into one response, keyed by engine name.

use crate::engine::{outcome_of, run, Engine, EngineOutcome, OutcomeView};
use crate::json::{json_string, members_json, push_outcome_json, response_json};
use vstd::prelude::*;

verus! {

/// The names of the engines, in their order.
pub open spec fn engine_names(engines: Seq<Box<dyn Engine>>) -> Seq<Seq<char>> {
    Seq::new(engines.len(), |i: int| engines[i].name())
}

/// The names without the repeats: each name once, at the place where it
/// comes first.
pub open spec fn without_repeats(names: Seq<Seq<char>>) -> Seq<Seq<char>>
    decreases names.len(),
{
    if names.len() == 0 {
        Seq::empty()
    } else {
        let earlier = without_repeats(names.drop_last());
        if earlier.contains(names.last()) {
            earlier
        } else {
            earlier.push(names.last())
        }
    }
}

/// What the engines make of a payload, by engine name. The engines are
/// taken in order; where two share a name, the later one replaces the
/// earlier.
pub open spec fn aggregated(engines: Seq<Box<dyn Engine>>, bytes: Seq<u8>) -> Map<
    Seq<char>,
    OutcomeView,
>
    decreases engines.len(),
{
    if engines.len() == 0 {
        Map::empty()
    } else {
        aggregated(engines.drop_last(), bytes).insert(
            engines.last().name(),
            outcome_of(&*engines.last(), bytes),
        )
    }
}

/// The response has an entry for each engine name and for nothing else,
/// whatever the payload.
pub proof fn lemma_keys_are_engine_names(engines: Seq<Box<dyn Engine>>, bytes: Seq<u8>)
    ensures
        aggregated(engines, bytes).dom() == engine_names(engines).to_set(),
    decreases engines.len(),
{
    let names = engine_names(engines);
    if engines.len() == 0 {
        assert(aggregated(engines, bytes).dom() =~= names.to_set());
    } else {
        let earlier = engines.drop_last();
        lemma_keys_are_engine_names(earlier, bytes);
        assert(engine_names(earlier) =~= names.drop_last());
        assert forall|name: Seq<char>|
            aggregated(engines, bytes).dom().contains(name) <==> names.to_set().contains(
                name,
            ) by {
            if names.drop_last().contains(name) {
                let i = choose|i: int| 0 <= i < names.len() - 1 && names.drop_last()[i] == name;
                assert(names[i] == name);
            }
            if names.contains(name) {
                let i = choose|i: int| 0 <= i < names.len() && names[i] == name;
                if i < names.len() - 1 {
                    assert(names.drop_last()[i] == name);
                }
            }
            assert(names.last() == engines.last().name());
        }
        assert(aggregated(engines, bytes).dom() =~= names.to_set());
    }
}

/// The names without repeats are the same names, and none comes twice.
pub proof fn lemma_without_repeats(names: Seq<Seq<char>>)
    ensures
        without_repeats(names).no_duplicates(),
        forall|name: Seq<char>| without_repeats(names).contains(name) <==> names.contains(name),
    decreases names.len(),
{
    if names.len() > 0 {
        let shorter = names.drop_last();
        lemma_without_repeats(shorter);
        let earlier = without_repeats(shorter);
        let result = without_repeats(names);
        assert forall|name: Seq<char>| result.contains(name) <==> names.contains(name) by {
            if names.contains(name) {
                let i = choose|i: int| 0 <= i < names.len() && names[i] == name;
                if i < names.len() - 1 {
                    assert(shorter[i] == name);
                    assert(shorter.contains(name));
                    assert(earlier.contains(name));
                    let j = choose|j: int| 0 <= j < earlier.len() && earlier[j] == name;
                    assert(result[j] == name);
                } else if earlier.contains(name) {
                    let j = choose|j: int| 0 <= j < earlier.len() && earlier[j] == name;
                    assert(result[j] == name);
                } else {
                    assert(result[earlier.len() as int] == name);
                }
            }
            if result.contains(name) {
                let j = choose|j: int| 0 <= j < result.len() && result[j] == name;
                if j < earlier.len() {
                    assert(earlier[j] == name);
                    assert(earlier.contains(name));
                    assert(shorter.contains(name));
                    let i = choose|i: int| 0 <= i < shorter.len() && shorter[i] == name;
                    assert(names[i] == name);
                } else {
                    assert(names[names.len() - 1] == name);
                }
            }
        }
    }
}

/// One entry of a response.
struct ResponseEntry {
    name: String,
    outcome: EngineOutcome,
}

spec fn names_of(entries: Seq<ResponseEntry>) -> Seq<Seq<char>> {
    Seq::new(entries.len(), |i: int| entries[i].name@)
}

spec fn outcomes_of(entries: Seq<ResponseEntry>) -> Map<Seq<char>, OutcomeView>
    decreases entries.len(),
{
    if entries.len() == 0 {
        Map::empty()
    } else {
        outcomes_of(entries.drop_last()).insert(entries.last().name@, entries.last().outcome@)
    }
}

proof fn lemma_outcomes_keys(entries: Seq<ResponseEntry>)
    ensures
        forall|name: Seq<char>|
            outcomes_of(entries).contains_key(name) <==> names_of(entries).contains(name),
    decreases entries.len(),
{
    if entries.len() > 0 {
        let shorter = entries.drop_last();
        lemma_outcomes_keys(shorter);
        let names = names_of(entries);
        assert(names_of(shorter) =~= names.drop_last());
        assert forall|name: Seq<char>|
            outcomes_of(entries).contains_key(name) <==> names.contains(name) by {
            if names.drop_last().contains(name) {
                let i = choose|i: int| 0 <= i < names.len() - 1 && names.drop_last()[i] == name;
                assert(names[i] == name);
            }
            if names.contains(name) {
                let i = choose|i: int| 0 <= i < names.len() && names[i] == name;
                if i < names.len() - 1 {
                    assert(names.drop_last()[i] == name);
                }
            }
            assert(names.last() == entries.last().name@);
        }
    }
}

proof fn lemma_outcomes_lookup(entries: Seq<ResponseEntry>, i: int)
    requires
        names_of(entries).no_duplicates(),
        0 <= i < entries.len(),
    ensures
        outcomes_of(entries).contains_key(entries[i].name@),
        outcomes_of(entries)[entries[i].name@] == entries[i].outcome@,
    decreases entries.len(),
{
    let names = names_of(entries);
    if i < entries.len() - 1 {
        let shorter = entries.drop_last();
        assert(names_of(shorter) =~= names.drop_last());
        assert(names[i] != names[entries.len() - 1]);
        lemma_outcomes_lookup(shorter, i);
    }
}

proof fn lemma_outcomes_replace(entries: Seq<ResponseEntry>, i: int, entry: ResponseEntry)
    requires
        names_of(entries).no_duplicates(),
        0 <= i < entries.len(),
        entry.name@ == entries[i].name@,
    ensures
        names_of(entries.update(i, entry)) == names_of(entries),
        outcomes_of(entries.update(i, entry)) == outcomes_of(entries).insert(
            entry.name@,
            entry.outcome@,
        ),
    decreases entries.len(),
{
    let names = names_of(entries);
    let replaced = entries.update(i, entry);
    assert(names_of(replaced) =~= names);
    let shorter = entries.drop_last();
    if i < entries.len() - 1 {
        assert(names_of(shorter) =~= names.drop_last());
        assert(names[i] != names[entries.len() - 1]);
        lemma_outcomes_replace(shorter, i, entry);
        assert(replaced.drop_last() =~= shorter.update(i, entry));
        assert(replaced.last() == entries.last());
        assert(outcomes_of(replaced) =~= outcomes_of(entries).insert(
            entry.name@,
            entry.outcome@,
        ));
    } else {
        assert(replaced.drop_last() =~= shorter);
        assert(outcomes_of(replaced) =~= outcomes_of(entries).insert(
            entry.name@,
            entry.outcome@,
        ));
    }
}

/// What the engines made of one payload: for each engine name the outcome
/// of the engine of that name. No name comes twice.
pub struct AggregatedResponse {
    entries: Vec<ResponseEntry>,
}

impl View for AggregatedResponse {
    type V = Map<Seq<char>, OutcomeView>;

    closed spec fn view(&self) -> Map<Seq<char>, OutcomeView> {
        outcomes_of(self.entries@)
    }
}

impl AggregatedResponse {
    #[verifier::type_invariant]
    spec fn names_differ(self) -> bool {
        names_of(self.entries@).no_duplicates()
    }

    /// The names of the response, in the order in which it is written.
    pub closed spec fn names(&self) -> Seq<Seq<char>> {
        names_of(self.entries@)
    }

    /// The number of names.
    pub fn len(&self) -> (n: usize)
        ensures
            n == self.names().len(),
    {
        self.entries.len()
    }

    /// The name at `index` in the order of the response, with its outcome.
    pub fn entry(&self, index: usize) -> (found: Option<(&String, &EngineOutcome)>)
        ensures
            match found {
                Some((name, outcome)) => {
                    &&& index < self.names().len()
                    &&& name@ == self.names()[index as int]
                    &&& self@.contains_key(name@)
                    &&& outcome@ == self@[name@]
                },
                None => index >= self.names().len(),
            },
    {
        if index < self.entries.len() {
            proof {
                use_type_invariant(self);
                lemma_outcomes_lookup(self.entries@, index as int);
            }
            Some((&self.entries[index].name, &self.entries[index].outcome))
        } else {
            None
        }
    }

    /// The place of a name among the entries.
    fn position(entries: &Vec<ResponseEntry>, name: &String) -> (found: Option<usize>)
        ensures
            match found {
                Some(i) => i < entries.len() && entries[i as int].name@ == name@,
                None => !names_of(entries@).contains(name@),
            },
    {
        let mut i: usize = 0;
        while i < entries.len()
            invariant
                i <= entries.len(),
                forall|j: int| 0 <= j < i ==> (#[trigger] names_of(entries@)[j]) != name@,
            decreases entries.len() - i,
        {
            if entries[i].name == *name {
                return Some(i);
            }
            assert(names_of(entries@)[i as int] == entries[i as int].name@);
            i = i + 1;
        }
        None
    }

    /// The outcome kept under a name.
    pub fn get(&self, name: &str) -> (found: Option<&EngineOutcome>)
        ensures
            match found {
                Some(outcome) => self@.contains_key(name@) && outcome@ == self@[name@],
                None => !self@.contains_key(name@),
            },
    {
        proof {
            use_type_invariant(self);
            lemma_outcomes_keys(self.entries@);
        }
        let wanted = String::from_str(name);
        match Self::position(&self.entries, &wanted) {
            Some(i) => {
                proof {
                    lemma_outcomes_lookup(self.entries@, i as int);
                }
                Some(&self.entries[i].outcome)
            },
            None => None,
        }
    }

    /// The response as JSON text: one object with a member for each name,
    /// in the order of the response.
    pub fn to_json(&self) -> (text: String)
        ensures
            text@ == response_json(self.names(), self@),
    {
        let mut text = String::from_str("{");
        let ghost names = names_of(self.entries@);
        let ghost outcomes = outcomes_of(self.entries@);
        let mut i: usize = 0;
        proof {
            use_type_invariant(self);
            assert(names.subrange(0, 0) =~= Seq::<Seq<char>>::empty());
            assert(text@ =~= "{"@ + members_json(names.subrange(0, 0), outcomes));
        }
        while i < self.entries.len()
            invariant
                i <= self.entries.len(),
                names == names_of(self.entries@),
                names.no_duplicates(),
                outcomes == outcomes_of(self.entries@),
                text@ == "{"@ + members_json(names.subrange(0, i as int), outcomes),
            decreases self.entries.len() - i,
        {
            let ghost read = names.subrange(0, i + 1);
            proof {
                assert(read.drop_last() =~= names.subrange(0, i as int));
                assert(read.last() == self.entries[i as int].name@);
                lemma_outcomes_lookup(self.entries@, i as int);
            }
            if i > 0 {
                text.append(",");
            }
            let name = json_string(self.entries[i].name.as_str());
            text.append(name.as_str());
            text.append(":");
            push_outcome_json(&mut text, &self.entries[i].outcome);
            proof {
                assert(text@ =~= "{"@ + members_json(read, outcomes));
            }
            i = i + 1;
        }
        text.append("}");
        proof {
            assert(names.subrange(0, self.entries.len() as int) =~= names);
        }
        text
    }
}

/// Hands the payload to every engine and gathers the outcomes by engine
/// name. The failure of one engine keeps no other from its result. The
/// names of the response are those of the engines, whatever the payload.
pub fn handle(bytes: &Vec<u8>, engines: &Vec<Box<dyn Engine>>) -> (response: AggregatedResponse)
    ensures
        response@ == aggregated(engines@, bytes@),
        response.names() == without_repeats(engine_names(engines@)),
        response@.dom() == engine_names(engines@).to_set(),
{
    let mut entries: Vec<ResponseEntry> = Vec::new();
    let ghost all = engine_names(engines@);
    let mut k: usize = 0;
    proof {
        assert(engines@.subrange(0, 0) =~= Seq::<Box<dyn Engine>>::empty());
        assert(all.subrange(0, 0) =~= Seq::<Seq<char>>::empty());
        assert(names_of(entries@) =~= without_repeats(all.subrange(0, 0)));
    }
    while k < engines.len()
        invariant
            k <= engines.len(),
            all == engine_names(engines@),
            names_of(entries@).no_duplicates(),
            names_of(entries@) == without_repeats(all.subrange(0, k as int)),
            outcomes_of(entries@) == aggregated(engines@.subrange(0, k as int), bytes@),
        decreases engines.len() - k,
    {
        let name = engines[k].get_name();
        let outcome = run(&*engines[k], bytes);
        let ghost before = entries@;
        proof {
            assert(engines@.subrange(0, k + 1).drop_last() =~= engines@.subrange(0, k as int));
            assert(all.subrange(0, k + 1).drop_last() =~= all.subrange(0, k as int));
            assert(all.subrange(0, k + 1).last() == name@);
        }
        match AggregatedResponse::position(&entries, &name) {
            Some(i) => {
                let entry = ResponseEntry { name, outcome };
                proof {
                    lemma_outcomes_replace(before, i as int, entry);
                    assert(names_of(before)[i as int] == name@);
                }
                entries.set(i, entry);
            },
            None => {
                entries.push(ResponseEntry { name, outcome });
                proof {
                    assert(entries@.drop_last() =~= before);
                    assert(names_of(entries@) =~= names_of(before).push(name@));
                }
            },
        }
        k = k + 1;
    }
    proof {
        assert(engines@.subrange(0, k as int) =~= engines@);
        assert(all.subrange(0, k as int) =~= all);
        lemma_keys_are_engine_names(engines@, bytes@);
    }
    AggregatedResponse { entries }
}

/// The media type of the response.
pub fn content_type() -> (media_type: &'static str)
    ensures
        media_type@ == "application/json; charset=utf-8"@,
{
    "application/json; charset=utf-8"
}

/// Answers one request: the JSON text of what the engines made of the
/// payload.
pub fn handle_request(buffer: &Vec<u8>, engines: &Vec<Box<dyn Engine>>) -> (body: String)
    ensures
        body@ == response_json(
            without_repeats(engine_names(engines@)),
            aggregated(engines@, buffer@),
        ),
{
    handle(buffer, engines).to_json()
}

} // verus!
