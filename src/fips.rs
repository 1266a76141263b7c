//! The FIPS status probe: whether the kernel was booted to enforce FIPS
//! mode, and whether the crypto engine in use is the FIPS one.

use vstd::prelude::*;
use crate::collector::FIPS_PREFIX;
use crate::record::{Record, RecordView, fields_view, push_field};
use crate::sync::{OpView, StoreOp, key_of, marker_id, marker_op, ops_view};
use crate::text::{chars_of, contains, contains_exec};
use crate::units::ascii_lower;

verus! {

/// `s` in ASCII lower case.
pub open spec fn lower_seq(s: Seq<char>) -> Seq<char> {
    s.map_values(|c: char| ascii_lower(c))
}

/// FIPS is enforced where the kernel command line carries either flag.
pub open spec fn fips_enforced(cmdline: Seq<char>) -> bool {
    contains(cmdline, "sonic_fips=1"@) || contains(cmdline, "fips=1"@)
}

/// FIPS is enabled where the engine listing ran and names the SymCrypt
/// engine, in any case; a listing that could not be had counts as no.
pub open spec fn fips_enabled(engines: Option<Seq<char>>) -> bool {
    match engines {
        Some(o) => contains(lower_seq(o), "symcryp"@),
        None => false,
    }
}

pub open spec fn bool_text(b: bool) -> Seq<char> {
    if b {
        "true"@
    } else {
        "false"@
    }
}

pub open spec fn opt_str(o: Option<&str>) -> Option<Seq<char>> {
    match o {
        Some(s) => Some(s@),
        None => None,
    }
}

/// The FIPS status record.
pub open spec fn fips_view(cmdline: Seq<char>, engines: Option<Seq<char>>, timestamp: Seq<char>) -> RecordView {
    RecordView {
        id: "state"@,
        fields: seq![
            ("timestamp"@, timestamp),
            ("enforced"@, bool_text(fips_enforced(cmdline))),
            ("enabled"@, bool_text(fips_enabled(engines))),
        ],
    }
}

fn lower_chars(s: &str) -> (r: Vec<char>)
    ensures
        r@ == lower_seq(s@),
{
    let v = chars_of(s);
    let mut r: Vec<char> = Vec::new();
    let mut i: usize = 0;
    while i < v.len()
        invariant
            i <= v@.len(),
            v@ == s@,
            r@ == lower_seq(v@.take(i as int)),
        decreases v@.len() - i,
    {
        let c = v[i];
        let l = if 'A' <= c && c <= 'Z' { ((c as u8) + 32) as char } else { c };
        r.push(l);
        assert(r@ =~= lower_seq(v@.take(i + 1)));
        i = i + 1;
    }
    assert(v@.take(v@.len() as int) =~= v@);
    r
}

fn bool_string(b: bool) -> (r: String)
    ensures
        r@ == bool_text(b),
{
    if b {
        "true".to_owned()
    } else {
        "false".to_owned()
    }
}

/// Decides the two FIPS flags from the kernel command line and the engine
/// listing (`None` where the listing command failed).
pub fn fips_status(cmdline: &str, engines: Option<&str>) -> (r: (bool, bool))
    ensures
        r.0 == fips_enforced(cmdline@),
        r.1 == fips_enabled(opt_str(engines)),
{
    let line = chars_of(cmdline);
    let enforced = contains_exec(&line, "sonic_fips=1") || contains_exec(&line, "fips=1");
    let enabled = match engines {
        Some(o) => {
            let low = lower_chars(o);
            contains_exec(&low, "symcryp")
        },
        None => false,
    };
    (enforced, enabled)
}

/// The FIPS status record, stamped with `timestamp`.
pub fn fips_record(cmdline: &str, engines: Option<&str>, timestamp: &str) -> (r: Record)
    ensures
        r@ == fips_view(cmdline@, opt_str(engines), timestamp@),
{
    let (enforced, enabled) = fips_status(cmdline, engines);
    let mut fields: Vec<(String, String)> = Vec::new();
    push_field(&mut fields, "timestamp".to_owned(), timestamp.to_owned());
    push_field(&mut fields, "enforced".to_owned(), bool_string(enforced));
    push_field(&mut fields, "enabled".to_owned(), bool_string(enabled));
    assert(fields_view(fields@) =~= fips_view(cmdline@, opt_str(engines), timestamp@).fields);
    Record { id: "state".to_owned(), fields }
}

/// Plans the writes of one FIPS cycle: the status record, overwritten in
/// place, then the update time `now`.
pub fn update_fipsstats_ops(cmdline: &str, engines: Option<&str>, timestamp: &str, now: &str) -> (r:
    Vec<StoreOp>)
    ensures
        ops_view(r@) == seq![
            OpView::SetFields(
                key_of(FIPS_PREFIX@, "state"@),
                fips_view(cmdline@, opt_str(engines), timestamp@).fields,
            ),
            OpView::SetFields(key_of(FIPS_PREFIX@, marker_id()), seq![("lastupdate"@, now@)]),
        ],
{
    let rec = fips_record(cmdline, engines, timestamp);
    let mut ops: Vec<StoreOp> = Vec::new();
    let mut key = chars_of(FIPS_PREFIX);
    let mut idv = chars_of(rec.id.as_str());
    key.append(&mut idv);
    ops.push(StoreOp::SetFields(crate::text::string_from_chars(key.as_slice()), rec.fields));
    ops.push(marker_op(FIPS_PREFIX, now));
    assert(ops_view(ops@) =~= seq![
        OpView::SetFields(
            key_of(FIPS_PREFIX@, "state"@),
            fips_view(cmdline@, opt_str(engines), timestamp@).fields,
        ),
        OpView::SetFields(key_of(FIPS_PREFIX@, marker_id()), seq![("lastupdate"@, now@)]),
    ]);
    ops
}

} // verus!
