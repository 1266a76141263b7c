//! Container statistics: the cells of one container's line become a record
//! whose sizes are byte counts and whose percentages lose their `%`.

use vstd::prelude::*;
use crate::record::{Record, RecordView, fields_view, push_field};
use crate::text::{matches_at, dec, dec_string, find_from, find_from_exec, slice_chars, string_from_chars};
use crate::units::{bytes_spec, quantity_of_chars};

verus! {

/// The cells of one container's line that the record is made from; `None`
/// where the line has no such cell.
pub struct DockerRow {
    pub id: Option<Vec<char>>,
    pub name: Option<Vec<char>>,
    pub cpu: Option<Vec<char>>,
    pub mem_usage: Option<Vec<char>>,
    pub mem_pct: Option<Vec<char>>,
    pub net_io: Option<Vec<char>>,
    pub block_io: Option<Vec<char>>,
    pub pids: Option<Vec<char>>,
}

pub ghost struct DockerRowView {
    pub id: Option<Seq<char>>,
    pub name: Option<Seq<char>>,
    pub cpu: Option<Seq<char>>,
    pub mem_usage: Option<Seq<char>>,
    pub mem_pct: Option<Seq<char>>,
    pub net_io: Option<Seq<char>>,
    pub block_io: Option<Seq<char>>,
    pub pids: Option<Seq<char>>,
}

pub open spec fn opt_chars(o: Option<Vec<char>>) -> Option<Seq<char>> {
    match o {
        Some(v) => Some(v@),
        None => None,
    }
}

impl View for DockerRow {
    type V = DockerRowView;

    open spec fn view(&self) -> DockerRowView {
        DockerRowView {
            id: opt_chars(self.id),
            name: opt_chars(self.name),
            cpu: opt_chars(self.cpu),
            mem_usage: opt_chars(self.mem_usage),
            mem_pct: opt_chars(self.mem_pct),
            net_io: opt_chars(self.net_io),
            block_io: opt_chars(self.block_io),
            pids: opt_chars(self.pids),
        }
    }
}

/// `s` without its trailing `%` signs.
pub open spec fn strip_pct(s: Seq<char>) -> Seq<char>
    decreases s.len(),
{
    if s.len() > 0 && s.last() == '%' {
        strip_pct(s.drop_last())
    } else {
        s
    }
}

pub open spec fn usage_sep() -> Seq<char> {
    seq![' ', '/', ' ']
}

/// The two sides of a `used / limit` cell, when it has exactly two.
pub open spec fn usage_parts(s: Seq<char>) -> Option<(Seq<char>, Seq<char>)> {
    let i = find_from(s, usage_sep(), 0);
    if i >= 0 && find_from(s, usage_sep(), i + 3) == -1 {
        Some((s.take(i), s.skip(i + 3)))
    } else {
        None
    }
}

pub open spec fn opt_field(name: Seq<char>, v: Option<Seq<char>>) -> Seq<(Seq<char>, Seq<char>)> {
    match v {
        Some(x) => seq![(name, x)],
        None => Seq::empty(),
    }
}

pub open spec fn pct_field(name: Seq<char>, v: Option<Seq<char>>) -> Seq<(Seq<char>, Seq<char>)> {
    match v {
        Some(x) => seq![(name, strip_pct(x))],
        None => Seq::empty(),
    }
}

pub open spec fn pair_fields(a: Seq<char>, b: Seq<char>, v: Option<Seq<char>>) -> Seq<
    (Seq<char>, Seq<char>),
> {
    match v {
        Some(x) => match usage_parts(x) {
            Some(p) => seq![(a, dec(bytes_spec(p.0) as nat)), (b, dec(bytes_spec(p.1) as nat))],
            None => Seq::empty(),
        },
        None => Seq::empty(),
    }
}

/// The fields of a container's record, in their fixed order.
pub open spec fn docker_fields(row: DockerRowView) -> Seq<(Seq<char>, Seq<char>)> {
    opt_field("NAME"@, row.name) + pct_field("CPU%"@, row.cpu) + pct_field("MEM%"@, row.mem_pct)
        + pair_fields("MEM_BYTES"@, "MEM_LIMIT_BYTES"@, row.mem_usage) + pair_fields(
        "NET_IN_BYTES"@,
        "NET_OUT_BYTES"@,
        row.net_io,
    ) + pair_fields("BLOCK_IN_BYTES"@, "BLOCK_OUT_BYTES"@, row.block_io) + opt_field(
        "PIDS"@,
        row.pids,
    )
}

/// The record of a row; none where the row names no container.
pub open spec fn docker_record(row: DockerRowView) -> Option<RecordView> {
    match row.id {
        Some(id) => Some(RecordView { id, fields: docker_fields(row) }),
        None => None,
    }
}

fn add_opt(fields: &mut Vec<(String, String)>, name: &str, v: &Option<Vec<char>>)
    ensures
        fields_view(final(fields)@) == fields_view(old(fields)@) + opt_field(name@, opt_chars(*v)),
{
    match v {
        Some(x) => {
            push_field(fields, name.to_owned(), string_from_chars(x.as_slice()));
            assert(fields_view(old(fields)@) + opt_field(name@, opt_chars(*v)) =~= fields_view(
                old(fields)@,
            ).push((name@, x@)));
        },
        None => {
            assert(fields_view(old(fields)@) + opt_field(name@, opt_chars(*v)) =~= fields_view(
                old(fields)@,
            ));
        },
    }
}

fn strip_pct_chars(v: &Vec<char>) -> (r: Vec<char>)
    ensures
        r@ == strip_pct(v@),
{
    let mut e = v.len();
    assert(v@.take(v@.len() as int) =~= v@);
    while e > 0 && v[e - 1] == '%'
        invariant
            e <= v@.len(),
            strip_pct(v@) == strip_pct(v@.take(e as int)),
        decreases e,
    {
        assert(v@.take(e as int).drop_last() =~= v@.take(e - 1));
        e = e - 1;
    }
    slice_chars(v, 0, e)
}

fn add_pct(fields: &mut Vec<(String, String)>, name: &str, v: &Option<Vec<char>>)
    ensures
        fields_view(final(fields)@) == fields_view(old(fields)@) + pct_field(name@, opt_chars(*v)),
{
    match v {
        Some(x) => {
            let s = strip_pct_chars(x);
            push_field(fields, name.to_owned(), string_from_chars(s.as_slice()));
            assert(fields_view(old(fields)@) + pct_field(name@, opt_chars(*v)) =~= fields_view(
                old(fields)@,
            ).push((name@, s@)));
        },
        None => {
            assert(fields_view(old(fields)@) + pct_field(name@, opt_chars(*v)) =~= fields_view(
                old(fields)@,
            ));
        },
    }
}

fn add_pair(fields: &mut Vec<(String, String)>, a: &str, b: &str, v: &Option<Vec<char>>)
    ensures
        fields_view(final(fields)@) == fields_view(old(fields)@) + pair_fields(
            a@,
            b@,
            opt_chars(*v),
        ),
{
    let sep = [' ', '/', ' '];
    match v {
        Some(x) => {
            assert(sep@ =~= usage_sep());
            match find_from_exec(x, &sep, 0) {
                Some(i) => {
                    proof {
                        crate::text::lemma_find_from(x@, usage_sep(), 0);
                        assert(usage_sep().len() == 3);
                        assert(matches_at(x@, usage_sep(), i as int));
                    }
                    let n = x.len();
                    assert(i + 3 <= n);
                    if find_from_exec(x, &sep, i + 3).is_none() {
                        let p = slice_chars(x, 0, i);
                        let q = slice_chars(x, i + 3, x.len());
                        assert(p@ =~= x@.take(i as int));
                        assert(q@ =~= x@.skip(i + 3));
                        let bp = quantity_of_chars(&p);
                        let bq = quantity_of_chars(&q);
                        push_field(fields, a.to_owned(), dec_string(bp));
                        push_field(fields, b.to_owned(), dec_string(bq));
                        assert(fields_view(old(fields)@) + pair_fields(a@, b@, opt_chars(*v))
                            =~= fields_view(old(fields)@).push((a@, dec(bp as nat))).push(
                            (b@, dec(bq as nat)),
                        ));
                    } else {
                        assert(fields_view(old(fields)@) + pair_fields(a@, b@, opt_chars(*v))
                            =~= fields_view(old(fields)@));
                    }
                },
                None => {
                    assert(fields_view(old(fields)@) + pair_fields(a@, b@, opt_chars(*v))
                        =~= fields_view(old(fields)@));
                },
            }
        },
        None => {
            assert(fields_view(old(fields)@) + pair_fields(a@, b@, opt_chars(*v)) =~= fields_view(
                old(fields)@,
            ));
        },
    }
}

/// Builds a container's record from the cells of its line; `None` where
/// the line names no container.
pub fn create_docker_record(row: &DockerRow) -> (r: Option<Record>)
    ensures
        match r {
            Some(rec) => docker_record(row@) == Some(rec@),
            None => docker_record(row@).is_none(),
        },
{
    match &row.id {
        None => None,
        Some(id) => {
            let mut fields: Vec<(String, String)> = Vec::new();
            assert(fields_view(fields@) =~= Seq::empty());
            add_opt(&mut fields, "NAME", &row.name);
            add_pct(&mut fields, "CPU%", &row.cpu);
            add_pct(&mut fields, "MEM%", &row.mem_pct);
            add_pair(&mut fields, "MEM_BYTES", "MEM_LIMIT_BYTES", &row.mem_usage);
            add_pair(&mut fields, "NET_IN_BYTES", "NET_OUT_BYTES", &row.net_io);
            add_pair(&mut fields, "BLOCK_IN_BYTES", "BLOCK_OUT_BYTES", &row.block_io);
            add_opt(&mut fields, "PIDS", &row.pids);
            assert(fields_view(fields@) =~= docker_fields(row@));
            Some(Record { id: string_from_chars(id.as_slice()), fields })
        },
    }
}

} // verus!
