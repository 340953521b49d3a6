//! Application events and their stored form.
//!
//! A stored log entry carries a flat list of named text fields.  An event is
//! the ordered triple (subject, act, object).  Encoding writes one field per
//! component; decoding reads each component by field name and falls back to
//! the empty string when a field is absent, so a malformed stored entry
//! never aborts a batch.

use vstd::prelude::*;
use vstd::string::*;

use crate::text::str_eq;

verus! {

/// One named text field of a stored log entry.
pub struct Field {
    pub name: String,
    pub value: String,
}

/// Mathematical form of a `Field`.
pub struct FieldV {
    pub name: Seq<char>,
    pub value: Seq<char>,
}

impl View for Field {
    type V = FieldV;

    open spec fn view(&self) -> FieldV {
        FieldV { name: self.name@, value: self.value@ }
    }
}

/// An application event: who did what to which object.
pub struct Event {
    pub subject: String,
    pub act: String,
    pub object: String,
}

/// Mathematical form of an `Event`.
pub struct EventV {
    pub subject: Seq<char>,
    pub act: Seq<char>,
    pub object: Seq<char>,
}

impl View for Event {
    type V = EventV;

    open spec fn view(&self) -> EventV {
        EventV { subject: self.subject@, act: self.act@, object: self.object@ }
    }
}

/// The views of a sequence of fields.
pub open spec fn fields_view(s: Seq<Field>) -> Seq<FieldV> {
    s.map_values(|f: Field| f@)
}

/// The value of the first field named `name`, or the empty string when no
/// field carries that name.
pub open spec fn spec_field_value(s: Seq<FieldV>, name: Seq<char>) -> Seq<char>
    decreases s.len(),
{
    if s.len() == 0 {
        Seq::<char>::empty()
    } else if s[0].name == name {
        s[0].value
    } else {
        spec_field_value(s.drop_first(), name)
    }
}

/// The event read from a stored entry's fields, absent fields defaulting to
/// the empty string.
pub open spec fn spec_decode(s: Seq<FieldV>) -> EventV {
    EventV {
        subject: spec_field_value(s, "subject"@),
        act: spec_field_value(s, "act"@),
        object: spec_field_value(s, "object"@),
    }
}

/// The stored form of an event: one field per component.
pub open spec fn spec_fields_of(e: EventV) -> Seq<FieldV> {
    seq![
        FieldV { name: "subject"@, value: e.subject },
        FieldV { name: "act"@, value: e.act },
        FieldV { name: "object"@, value: e.object },
    ]
}

/// Skipping fields whose name does not match leaves the looked-up value
/// unchanged.
proof fn lemma_field_value_skip(s: Seq<FieldV>, name: Seq<char>, i: int)
    requires
        0 <= i <= s.len(),
        forall|j: int| 0 <= j < i ==> s[j].name != name,
    ensures
        spec_field_value(s, name) == spec_field_value(s.skip(i), name),
    decreases i,
{
    if i > 0 {
        assert(s.skip(i) =~= s.drop_first().skip(i - 1));
        lemma_field_value_skip(s.drop_first(), name, i - 1);
    } else {
        assert(s.skip(0) =~= s);
    }
}

/// The value of the first field named `name`, or the empty string.
pub fn field_value(fields: &Vec<Field>, name: &str) -> (r: String)
    ensures
        r@ == spec_field_value(fields_view(fields@), name@),
{
    let ghost fv = fields_view(fields@);
    let n = fields.len();
    let mut i: usize = 0;
    while i < n
        invariant
            n == fields@.len(),
            i <= n,
            fv == fields_view(fields@),
            forall|j: int| 0 <= j < i ==> fv[j].name != name@,
        decreases n - i,
    {
        if str_eq(fields[i].name.as_str(), name) {
            proof {
                lemma_field_value_skip(fv, name@, i as int);
                assert(fv.skip(i as int)[0] == fv[i as int]);
            }
            return fields[i].value.clone();
        }
        i = i + 1;
    }
    proof {
        lemma_field_value_skip(fv, name@, n as int);
        assert(fv.skip(n as int) =~= Seq::<FieldV>::empty());
    }
    String::new()
}

/// Decode a stored entry's fields into an event, defaulting absent fields.
pub fn event_from_fields(fields: &Vec<Field>) -> (e: Event)
    ensures
        e@ == spec_decode(fields_view(fields@)),
{
    Event {
        subject: field_value(fields, "subject"),
        act: field_value(fields, "act"),
        object: field_value(fields, "object"),
    }
}

/// Encode an event as stored fields.
pub fn event_fields(e: &Event) -> (fields: Vec<Field>)
    ensures
        fields_view(fields@) == spec_fields_of(e@),
{
    let mut fields: Vec<Field> = Vec::new();
    fields.push(Field { name: String::from_str("subject"), value: e.subject.clone() });
    fields.push(Field { name: String::from_str("act"), value: e.act.clone() });
    fields.push(Field { name: String::from_str("object"), value: e.object.clone() });
    proof {
        assert(fields_view(fields@) =~= spec_fields_of(e@));
    }
    fields
}

/// Round trip: decoding the stored form of an event yields the event.
/// Staged messages therefore reach the client unchanged.
pub proof fn lemma_encode_decode(e: EventV)
    ensures
        spec_decode(spec_fields_of(e)) == e,
{
    reveal_strlit("subject");
    reveal_strlit("act");
    reveal_strlit("object");
    reveal_with_fuel(spec_field_value, 4);
    assert("subject"@ != "act"@) by {
        assert("subject"@.len() != "act"@.len());
    }
    assert("subject"@ != "object"@) by {
        assert("subject"@.len() != "object"@.len());
    }
    assert("act"@ != "object"@) by {
        assert("act"@.len() != "object"@.len());
    }
    let s = spec_fields_of(e);
    assert(s.drop_first() =~= seq![
        FieldV { name: "act"@, value: e.act },
        FieldV { name: "object"@, value: e.object },
    ]);
    assert(s.drop_first().drop_first() =~= seq![FieldV { name: "object"@, value: e.object }]);
    assert(spec_field_value(s, "subject"@) == e.subject);
    assert(spec_field_value(s, "act"@) == e.act);
    assert(spec_field_value(s, "object"@) == e.object);
}

} // verus!
