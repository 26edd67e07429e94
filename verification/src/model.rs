use vstd::prelude::*;
use vstd::string::StringExecFns;

verus! {

/// The mathematical view of a `Lookup`: its four fields as character sequences.
pub struct LookupV {
    pub kind: Seq<char>,
    pub name: Seq<char>,
    pub value: Seq<char>,
    pub state: Seq<char>,
}

/// The mathematical view of a `RecordData`: its three fields as character sequences.
pub struct RecordV {
    pub kind: Seq<char>,
    pub name: Seq<char>,
    pub value: Seq<char>,
}

/// One DNS answer record, reduced to the three strings this library reads:
/// the record type, the owner name, and the rendered data value.
#[derive(Clone, Debug, PartialEq, Eq)]
pub struct RecordData {
    pub kind: String,
    pub name: String,
    pub value: String,
}

/// One normalized lookup result: either one answer record of a successful
/// resolution, or the placeholder for a subject whose resolution failed.
#[derive(Clone, Debug, PartialEq, Eq)]
pub struct Lookup {
    pub kind: String,
    pub name: String,
    pub value: String,
    pub state: String,
}

impl View for RecordData {
    type V = RecordV;

    open spec fn view(&self) -> RecordV {
        RecordV { kind: self.kind@, name: self.name@, value: self.value@ }
    }
}

impl View for Lookup {
    type V = LookupV;

    open spec fn view(&self) -> LookupV {
        LookupV { kind: self.kind@, name: self.name@, value: self.value@, state: self.state@ }
    }
}

/// The state string of a successful lookup.
pub open spec fn success_state() -> Seq<char> {
    "SUCCESS"@
}

/// The state string of a failed lookup.
pub open spec fn failed_state() -> Seq<char> {
    "FAILED"@
}

/// What normalizing one successfully resolved record yields.
pub open spec fn lookup_of_record(r: RecordV) -> LookupV {
    LookupV { kind: r.kind, name: r.name, value: r.value, state: success_state() }
}

/// The placeholder emitted for a subject whose resolution failed:
/// an empty kind, the subject echoed as both name and value.
pub open spec fn failed_lookup(subject: Seq<char>) -> LookupV {
    LookupV {
        kind: Seq::<char>::empty(),
        name: subject,
        value: subject,
        state: failed_state(),
    }
}

/// The views of a sequence of lookups.
pub open spec fn views_of(ls: Seq<Lookup>) -> Seq<LookupV> {
    ls.map_values(|l: Lookup| l@)
}

impl Lookup {
    /// Normalize one resolved record: copy its three fields and mark it successful.
    pub fn from(record: &RecordData) -> (r: Lookup)
        ensures
            r@ == lookup_of_record(record@),
    {
        Lookup {
            kind: record.kind.clone(),
            name: record.name.clone(),
            value: record.value.clone(),
            state: String::from_str("SUCCESS"),
        }
    }

    /// Build the placeholder for a subject whose resolution failed.
    pub fn failed(subject: String) -> (r: Lookup)
        ensures
            r@ == failed_lookup(subject@),
    {
        Lookup {
            state: String::from_str("FAILED"),
            kind: String::new(),
            name: subject.clone(),
            value: subject,
        }
    }
}

} // verus!
