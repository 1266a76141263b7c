//! Flat records: an identity and an ordered list of named string fields.

use vstd::prelude::*;

verus! {

/// One container's or one process's metrics, or a status snapshot.
pub struct Record {
    pub id: String,
    pub fields: Vec<(String, String)>,
}

pub ghost struct RecordView {
    pub id: Seq<char>,
    pub fields: Seq<(Seq<char>, Seq<char>)>,
}

pub open spec fn fields_view(f: Seq<(String, String)>) -> Seq<(Seq<char>, Seq<char>)> {
    f.map_values(|p: (String, String)| (p.0@, p.1@))
}

impl View for Record {
    type V = RecordView;

    open spec fn view(&self) -> RecordView {
        RecordView { id: self.id@, fields: fields_view(self.fields@) }
    }
}

pub open spec fn records_view(r: Seq<Record>) -> Seq<RecordView> {
    r.map_values(|x: Record| x@)
}

/// Appends the field `name` = `value`.
pub fn push_field(fields: &mut Vec<(String, String)>, name: String, value: String)
    ensures
        fields_view(final(fields)@) == fields_view(old(fields)@).push((name@, value@)),
{
    fields.push((name, value));
    assert(fields_view(fields@) =~= fields_view(old(fields)@).push((name@, value@)));
}

/// Appends `r` to `out`.
pub fn push_record(out: &mut Vec<Record>, r: Record)
    ensures
        records_view(final(out)@) == records_view(old(out)@).push(r@),
{
    let ghost rv = r@;
    out.push(r);
    assert(records_view(out@) =~= records_view(old(out)@).push(rv));
}

} // verus!
