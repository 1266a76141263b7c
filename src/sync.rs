//! Keeping a key-value store in step with the latest records of a namespace.
//!
//! The library does not talk to the store: it plans the operations, which
//! the caller performs in order. `apply_ops` says what they do to a store
//! that holds hashes of string fields under string keys.

use vstd::prelude::*;
use crate::record::{Record, RecordView, fields_view, records_view};
use crate::text::{chars_of, string_from_chars};

verus! {

/// One write to the store.
pub enum StoreOp {
    /// Deletes every key that starts with the given prefix.
    DeletePrefix(String),
    /// Deletes one key.
    Delete(String),
    /// Sets the given fields of the hash under a key, keeping its other fields.
    SetFields(String, Vec<(String, String)>),
}

pub ghost enum OpView {
    DeletePrefix(Seq<char>),
    Delete(Seq<char>),
    SetFields(Seq<char>, Seq<(Seq<char>, Seq<char>)>),
}

impl View for StoreOp {
    type V = OpView;

    open spec fn view(&self) -> OpView {
        match self {
            StoreOp::DeletePrefix(p) => OpView::DeletePrefix(p@),
            StoreOp::Delete(k) => OpView::Delete(k@),
            StoreOp::SetFields(k, f) => OpView::SetFields(k@, fields_view(f@)),
        }
    }
}

pub open spec fn ops_view(ops: Seq<StoreOp>) -> Seq<OpView> {
    ops.map_values(|o: StoreOp| o@)
}

/// What the store holds: a hash of fields under each key.
pub type StoreView = Map<Seq<char>, Map<Seq<char>, Seq<char>>>;

pub open spec fn starts_with(k: Seq<char>, p: Seq<char>) -> bool {
    p.len() <= k.len() && k.take(p.len() as int) == p
}

/// `m` with the fields of `fs` set, later ones winning.
pub open spec fn set_all(m: Map<Seq<char>, Seq<char>>, fs: Seq<(Seq<char>, Seq<char>)>) -> Map<
    Seq<char>,
    Seq<char>,
>
    decreases fs.len(),
{
    if fs.len() == 0 {
        m
    } else {
        set_all(m, fs.drop_last()).insert(fs.last().0, fs.last().1)
    }
}

/// The hash under `k`, empty where there is none.
pub open spec fn hash_at(st: StoreView, k: Seq<char>) -> Map<Seq<char>, Seq<char>> {
    if st.contains_key(k) {
        st[k]
    } else {
        Map::empty()
    }
}

pub open spec fn apply_op(st: StoreView, op: OpView) -> StoreView {
    match op {
        OpView::DeletePrefix(p) => st.restrict(st.dom().filter(|k: Seq<char>| !starts_with(k, p))),
        OpView::Delete(k) => st.remove(k),
        OpView::SetFields(k, fs) => st.insert(k, set_all(hash_at(st, k), fs)),
    }
}

/// The store after the operations, performed in order.
pub open spec fn apply_ops(st: StoreView, ops: Seq<OpView>) -> StoreView
    decreases ops.len(),
{
    if ops.len() == 0 {
        st
    } else {
        apply_op(apply_ops(st, ops.drop_last()), ops.last())
    }
}

/// The key of a record with identity `id` in the namespace `prefix`.
pub open spec fn key_of(prefix: Seq<char>, id: Seq<char>) -> Seq<char> {
    prefix + id
}

pub open spec fn ids_of(rs: Seq<RecordView>) -> Set<Seq<char>> {
    Set::new(|id: Seq<char>| exists|i: int| 0 <= i < rs.len() && rs[i].id == id)
}

/// One field-set per record, in order.
pub open spec fn write_ops(prefix: Seq<char>, rs: Seq<RecordView>) -> Seq<OpView> {
    rs.map_values(|r: RecordView| OpView::SetFields(key_of(prefix, r.id), r.fields))
}

/// Full replace: delete the namespace, then write every record.
pub open spec fn full_replace_ops(prefix: Seq<char>, rs: Seq<RecordView>) -> Seq<OpView> {
    seq![OpView::DeletePrefix(prefix)] + write_ops(prefix, rs)
}

/// Deletes of the identities of `prev` that are not in `live`, in order.
pub open spec fn delete_ops(prefix: Seq<char>, prev: Seq<Seq<char>>, live: Set<Seq<char>>) -> Seq<
    OpView,
>
    decreases prev.len(),
{
    if prev.len() == 0 {
        Seq::empty()
    } else {
        delete_ops(prefix, prev.drop_last(), live) + if live.contains(prev.last()) {
            Seq::empty()
        } else {
            seq![OpView::Delete(key_of(prefix, prev.last()))]
        }
    }
}

/// Diff-based replace: write every record, then delete the identities of
/// `previous` that are gone.
pub open spec fn diff_replace_ops(prefix: Seq<char>, previous: Seq<Seq<char>>, rs: Seq<RecordView>) -> Seq<
    OpView,
> {
    write_ops(prefix, rs) + delete_ops(prefix, previous, ids_of(rs))
}

pub open spec fn strings_view(v: Seq<String>) -> Seq<Seq<char>> {
    v.map_values(|x: String| x@)
}

/// The identity under which a namespace keeps its update time.
pub open spec fn marker_id() -> Seq<char> {
    "LastUpdateTime"@
}

fn key_string(prefix: &str, id: &String) -> (r: String)
    ensures
        r@ == key_of(prefix@, id@),
{
    let mut v = chars_of(prefix);
    let mut w = chars_of(id.as_str());
    v.append(&mut w);
    string_from_chars(v.as_slice())
}

fn copy_fields(f: &Vec<(String, String)>) -> (r: Vec<(String, String)>)
    ensures
        fields_view(r@) == fields_view(f@),
{
    let mut r: Vec<(String, String)> = Vec::new();
    let mut i: usize = 0;
    while i < f.len()
        invariant
            i <= f@.len(),
            fields_view(r@) == fields_view(f@.take(i as int)),
        decreases f@.len() - i,
    {
        let a = f[i].0.clone();
        let b = f[i].1.clone();
        assert(a@ == f@[i as int].0@ && b@ == f@[i as int].1@);
        let ghost before = r@;
        r.push((a, b));
        assert(fields_view(r@) =~= fields_view(before).push((f@[i as int].0@, f@[i as int].1@)));
        assert(fields_view(f@.take(i + 1)) =~= fields_view(f@.take(i as int)).push(
            (f@[i as int].0@, f@[i as int].1@),
        ));
        i = i + 1;
    }
    assert(f@.take(f@.len() as int) =~= f@);
    r
}

/// Appends one field-set per record to `ops`.
fn push_writes(ops: &mut Vec<StoreOp>, prefix: &str, records: &Vec<Record>)
    ensures
        ops_view(final(ops)@) == ops_view(old(ops)@) + write_ops(prefix@, records_view(records@)),
{
    let ghost rs = records_view(records@);
    let mut i: usize = 0;
    while i < records.len()
        invariant
            i <= records@.len(),
            rs == records_view(records@),
            ops_view(ops@) == ops_view(old(ops)@) + write_ops(prefix@, rs.take(i as int)),
        decreases records@.len() - i,
    {
        let key = key_string(prefix, &records[i].id);
        let fields = copy_fields(&records[i].fields);
        let ghost before = ops_view(ops@);
        ops.push(StoreOp::SetFields(key, fields));
        assert(ops_view(ops@) =~= before.push(OpView::SetFields(key_of(prefix@, rs[i as int].id), rs[i as int].fields)));
        assert(write_ops(prefix@, rs.take(i + 1)) =~= write_ops(prefix@, rs.take(i as int)).push(
            OpView::SetFields(key_of(prefix@, rs[i as int].id), rs[i as int].fields),
        ));
        i = i + 1;
    }
    assert(rs.take(records@.len() as int) =~= rs);
}

/// Plans a full replace of the namespace `prefix` by `records`.
pub fn plan_full_replace(prefix: &str, records: &Vec<Record>) -> (r: Vec<StoreOp>)
    ensures
        ops_view(r@) == full_replace_ops(prefix@, records_view(records@)),
{
    let mut ops: Vec<StoreOp> = Vec::new();
    ops.push(StoreOp::DeletePrefix(prefix.to_owned()));
    push_writes(&mut ops, prefix, records);
    ops
}

fn has_id(records: &Vec<Record>, id: &String) -> (r: bool)
    ensures
        r == ids_of(records_view(records@)).contains(id@),
{
    let ghost rs = records_view(records@);
    let mut i: usize = 0;
    while i < records.len()
        invariant
            i <= records@.len(),
            rs == records_view(records@),
            forall|j: int| 0 <= j < i ==> rs[j].id != id@,
        decreases records@.len() - i,
    {
        if records[i].id == *id {
            assert(rs[i as int].id == id@);
            return true;
        }
        i = i + 1;
    }
    false
}

/// Plans a diff-based replace of the namespace `prefix`: `previous` holds
/// the identities that the store has there now.
pub fn plan_diff_replace(prefix: &str, previous: &Vec<String>, records: &Vec<Record>) -> (r: Vec<
    StoreOp,
>)
    ensures
        ops_view(r@) == diff_replace_ops(prefix@, strings_view(previous@), records_view(records@)),
{
    let ghost live = ids_of(records_view(records@));
    let ghost pv = strings_view(previous@);
    let mut ops: Vec<StoreOp> = Vec::new();
    assert(ops_view(ops@) =~= Seq::empty());
    push_writes(&mut ops, prefix, records);
    let ghost base = ops_view(ops@);
    let mut i: usize = 0;
    assert(pv.take(0) =~= Seq::<Seq<char>>::empty());
    assert(base + delete_ops(prefix@, pv.take(0), live) =~= base);
    while i < previous.len()
        invariant
            i <= previous@.len(),
            pv == strings_view(previous@),
            live == ids_of(records_view(records@)),
            base == write_ops(prefix@, records_view(records@)),
            ops_view(ops@) == base + delete_ops(prefix@, pv.take(i as int), live),
        decreases previous@.len() - i,
    {
        assert(pv.take(i + 1).drop_last() =~= pv.take(i as int));
        assert(pv.take(i + 1).last() == previous@[i as int]@);
        let ghost before = ops_view(ops@);
        if !has_id(records, &previous[i]) {
            let key = key_string(prefix, &previous[i]);
            ops.push(StoreOp::Delete(key));
            assert(ops_view(ops@) =~= before + seq![OpView::Delete(key_of(prefix@, previous@[i as int]@))]);
        } else {
            assert(before + Seq::<OpView>::empty() =~= before);
        }
        i = i + 1;
    }
    assert(pv.take(previous@.len() as int) =~= pv);
    ops
}

/// The write that records when the namespace `prefix` was last updated.
pub fn marker_op(prefix: &str, now: &str) -> (r: StoreOp)
    ensures
        r@ == OpView::SetFields(key_of(prefix@, marker_id()), seq![("lastupdate"@, now@)]),
{
    let key = key_string(prefix, &"LastUpdateTime".to_owned());
    let mut fields: Vec<(String, String)> = Vec::new();
    fields.push(("lastupdate".to_owned(), now.to_owned()));
    assert(fields_view(fields@) =~= seq![("lastupdate"@, now@)]);
    StoreOp::SetFields(key, fields)
}

proof fn lemma_apply_concat(st: StoreView, a: Seq<OpView>, b: Seq<OpView>)
    ensures
        apply_ops(st, a + b) == apply_ops(apply_ops(st, a), b),
    decreases b.len(),
{
    if b.len() == 0 {
        assert(a + b =~= a);
    } else {
        lemma_apply_concat(st, a, b.drop_last());
        assert((a + b).drop_last() =~= a + b.drop_last());
        assert((a + b).last() == b.last());
    }
}

proof fn lemma_key_cancel(p: Seq<char>, a: Seq<char>, b: Seq<char>)
    ensures
        (key_of(p, a) == key_of(p, b)) == (a == b),
{
    if key_of(p, a) == key_of(p, b) {
        assert(a =~= key_of(p, a).skip(p.len() as int));
        assert(b =~= key_of(p, b).skip(p.len() as int));
    }
}

proof fn lemma_writes_keys(st: StoreView, p: Seq<char>, rs: Seq<RecordView>)
    ensures
        forall|k: Seq<char>|
            #![trigger apply_ops(st, write_ops(p, rs)).contains_key(k)]
            apply_ops(st, write_ops(p, rs)).contains_key(k) <==> (st.contains_key(k) || exists|
                i: int,
            | 0 <= i < rs.len() && k == key_of(p, rs[i].id)),
    decreases rs.len(),
{
    if rs.len() > 0 {
        lemma_writes_keys(st, p, rs.drop_last());
        assert(write_ops(p, rs).drop_last() =~= write_ops(p, rs.drop_last()));
        let prior = apply_ops(st, write_ops(p, rs.drop_last()));
        assert forall|k: Seq<char>|
            apply_ops(st, write_ops(p, rs)).contains_key(k) <==> (st.contains_key(k) || exists|
                i: int,
            | 0 <= i < rs.len() && k == key_of(p, rs[i].id)) by {
            if exists|i: int| 0 <= i < rs.len() && k == key_of(p, rs[i].id) {
                let i = choose|i: int| 0 <= i < rs.len() && k == key_of(p, rs[i].id);
                if i < rs.len() - 1 {
                    assert(rs.drop_last()[i] == rs[i]);
                }
            }
            if exists|i: int| 0 <= i < rs.drop_last().len() && k == key_of(p, rs.drop_last()[i].id) {
                let i = choose|i: int| 0 <= i < rs.drop_last().len() && k == key_of(p, rs.drop_last()[i].id);
                assert(rs[i] == rs.drop_last()[i]);
            }
        }
    }
}

proof fn lemma_deletes_keys(st: StoreView, p: Seq<char>, prev: Seq<Seq<char>>, live: Set<Seq<char>>)
    ensures
        forall|k: Seq<char>|
            #![trigger apply_ops(st, delete_ops(p, prev, live)).contains_key(k)]
            apply_ops(st, delete_ops(p, prev, live)).contains_key(k) <==> (st.contains_key(k)
                && !exists|i: int|
                0 <= i < prev.len() && !live.contains(prev[i]) && k == key_of(p, prev[i])),
    decreases prev.len(),
{
    if prev.len() > 0 {
        lemma_deletes_keys(st, p, prev.drop_last(), live);
        let front = delete_ops(p, prev.drop_last(), live);
        let tail = if live.contains(prev.last()) {
            Seq::<OpView>::empty()
        } else {
            seq![OpView::Delete(key_of(p, prev.last()))]
        };
        lemma_apply_concat(st, front, tail);
        assert(delete_ops(p, prev, live) == front + tail);
        let mid = apply_ops(st, front);
        if !live.contains(prev.last()) {
            assert(tail.drop_last() =~= Seq::<OpView>::empty());
            assert(apply_ops(mid, tail.drop_last()) == mid);
            assert(tail.last() == OpView::Delete(key_of(p, prev.last())));
            assert(apply_ops(mid, tail) == apply_op(mid, tail.last()));
            assert(apply_ops(mid, tail) == mid.remove(key_of(p, prev.last())));
        } else {
            assert(apply_ops(mid, tail) == mid);
        }
        assert forall|k: Seq<char>|
            apply_ops(st, delete_ops(p, prev, live)).contains_key(k) <==> (st.contains_key(k)
                && !exists|i: int|
                0 <= i < prev.len() && !live.contains(prev[i]) && k == key_of(p, prev[i])) by {
            if exists|i: int| 0 <= i < prev.len() && !live.contains(prev[i]) && k == key_of(p, prev[i]) {
                let i = choose|i: int| 0 <= i < prev.len() && !live.contains(prev[i]) && k == key_of(p, prev[i]);
                if i < prev.len() - 1 {
                    assert(prev.drop_last()[i] == prev[i]);
                }
            }
            if exists|i: int|
                0 <= i < prev.drop_last().len() && !live.contains(prev.drop_last()[i]) && k == key_of(
                    p,
                    prev.drop_last()[i],
                ) {
                let i = choose|i: int|
                    0 <= i < prev.drop_last().len() && !live.contains(prev.drop_last()[i]) && k
                        == key_of(p, prev.drop_last()[i]);
                assert(prev[i] == prev.drop_last()[i]);
            }
        }
    }
}

/// After a full replace, the namespace holds exactly the new generation:
/// a record's key is in the store if and only if some new record has its
/// identity, whatever the store held before.
pub proof fn lemma_full_replace_generation(st: StoreView, prefix: Seq<char>, rs: Seq<RecordView>)
    ensures
        forall|id: Seq<char>|
            apply_ops(st, full_replace_ops(prefix, rs)).contains_key(key_of(prefix, id))
                <==> ids_of(rs).contains(id),
{
    let first = seq![OpView::DeletePrefix(prefix)];
    lemma_apply_concat(st, first, write_ops(prefix, rs));
    assert(first.drop_last() =~= Seq::<OpView>::empty());
    let wiped = apply_ops(st, first);
    lemma_writes_keys(wiped, prefix, rs);
    assert forall|id: Seq<char>|
        apply_ops(st, full_replace_ops(prefix, rs)).contains_key(key_of(prefix, id))
            <==> ids_of(rs).contains(id) by {
        let k = key_of(prefix, id);
        assert(k.take(prefix.len() as int) =~= prefix);
        assert(!wiped.contains_key(k));
        if ids_of(rs).contains(id) {
            let i = choose|i: int| 0 <= i < rs.len() && rs[i].id == id;
            assert(k == key_of(prefix, rs[i].id));
        }
        if exists|i: int| 0 <= i < rs.len() && k == key_of(prefix, rs[i].id) {
            let i = choose|i: int| 0 <= i < rs.len() && k == key_of(prefix, rs[i].id);
            lemma_key_cancel(prefix, id, rs[i].id);
        }
    }
}

/// After a diff-based replace from a store whose namespace held exactly the
/// identities of `previous`, it holds exactly those of the new records,
/// however the two generations overlap. The update-time key is not an
/// identity and is left out of both sides.
pub proof fn lemma_diff_replace_generation(
    st: StoreView,
    prefix: Seq<char>,
    previous: Seq<Seq<char>>,
    rs: Seq<RecordView>,
)
    requires
        forall|id: Seq<char>|
            id != marker_id() ==> (st.contains_key(key_of(prefix, id)) <==> previous.contains(id)),
    ensures
        forall|id: Seq<char>|
            id != marker_id() ==> (apply_ops(st, diff_replace_ops(prefix, previous, rs)).contains_key(
                key_of(prefix, id),
            ) <==> ids_of(rs).contains(id)),
{
    let live = ids_of(rs);
    let written = apply_ops(st, write_ops(prefix, rs));
    lemma_apply_concat(st, write_ops(prefix, rs), delete_ops(prefix, previous, live));
    lemma_writes_keys(st, prefix, rs);
    lemma_deletes_keys(written, prefix, previous, live);
    assert forall|id: Seq<char>| id != marker_id() implies (apply_ops(
        st,
        diff_replace_ops(prefix, previous, rs),
    ).contains_key(key_of(prefix, id)) <==> ids_of(rs).contains(id)) by {
        let k = key_of(prefix, id);
        if live.contains(id) {
            let i = choose|i: int| 0 <= i < rs.len() && rs[i].id == id;
            assert(written.contains_key(k));
            if exists|j: int| 0 <= j < previous.len() && !live.contains(previous[j]) && k == key_of(
                prefix,
                previous[j],
            ) {
                let j = choose|j: int|
                    0 <= j < previous.len() && !live.contains(previous[j]) && k == key_of(
                        prefix,
                        previous[j],
                    );
                lemma_key_cancel(prefix, id, previous[j]);
            }
        } else {
            if exists|i: int| 0 <= i < rs.len() && k == key_of(prefix, rs[i].id) {
                let i = choose|i: int| 0 <= i < rs.len() && k == key_of(prefix, rs[i].id);
                lemma_key_cancel(prefix, id, rs[i].id);
            }
            if st.contains_key(k) {
                assert(previous.contains(id));
                let j = choose|j: int| 0 <= j < previous.len() && previous[j] == id;
                assert(!live.contains(previous[j]) && k == key_of(prefix, previous[j]));
            }
        }
    }
}

/// The identities of `rs` are pairwise distinct.
pub open spec fn distinct_ids(rs: Seq<RecordView>) -> bool {
    forall|a: int, b: int| 0 <= a < rs.len() && 0 <= b < rs.len() && a != b ==> rs[a].id != rs[b].id
}

proof fn lemma_writes_frame(st: StoreView, p: Seq<char>, rs: Seq<RecordView>, k: Seq<char>)
    requires
        forall|i: int| 0 <= i < rs.len() ==> k != key_of(p, rs[i].id),
    ensures
        hash_at(apply_ops(st, write_ops(p, rs)), k) == hash_at(st, k),
        apply_ops(st, write_ops(p, rs)).contains_key(k) == st.contains_key(k),
    decreases rs.len(),
{
    if rs.len() > 0 {
        assert(write_ops(p, rs).drop_last() =~= write_ops(p, rs.drop_last()));
        lemma_writes_frame(st, p, rs.drop_last(), k);
        assert(k != key_of(p, rs[rs.len() - 1].id));
    }
}

proof fn lemma_writes_values(st: StoreView, p: Seq<char>, rs: Seq<RecordView>)
    requires
        distinct_ids(rs),
    ensures
        forall|i: int|
            0 <= i < rs.len() ==> #[trigger] hash_at(apply_ops(st, write_ops(p, rs)), key_of(p, rs[i].id))
                == set_all(hash_at(st, key_of(p, rs[i].id)), rs[i].fields),
    decreases rs.len(),
{
    if rs.len() > 0 {
        let front = rs.drop_last();
        let last = rs[rs.len() - 1];
        assert(write_ops(p, rs).drop_last() =~= write_ops(p, front));
        lemma_writes_values(st, p, front);
        assert forall|i: int| 0 <= i < front.len() implies key_of(p, last.id) != key_of(p, front[i].id) by {
            lemma_key_cancel(p, last.id, front[i].id);
        }
        lemma_writes_frame(st, p, front, key_of(p, last.id));
        let prior = apply_ops(st, write_ops(p, front));
        let klast = key_of(p, last.id);
        assert(write_ops(p, rs).last() == OpView::SetFields(klast, last.fields));
        let post = apply_ops(st, write_ops(p, rs));
        assert(post == prior.insert(klast, set_all(hash_at(prior, klast), last.fields)));
        assert forall|i: int| 0 <= i < rs.len() implies #[trigger] hash_at(
            apply_ops(st, write_ops(p, rs)),
            key_of(p, rs[i].id),
        ) == set_all(hash_at(st, key_of(p, rs[i].id)), rs[i].fields) by {
            if i < rs.len() - 1 {
                assert(rs[i] == front[i]);
                lemma_key_cancel(p, last.id, rs[i].id);
                assert(hash_at(prior, key_of(p, front[i].id)) == set_all(
                    hash_at(st, key_of(p, front[i].id)),
                    front[i].fields,
                ));
            }
        }
    }
}

/// After a full replace by records of distinct identities, each record's
/// hash holds exactly that record's fields: nothing of the previous
/// generation survives in it.
pub proof fn lemma_full_replace_records(st: StoreView, prefix: Seq<char>, rs: Seq<RecordView>)
    requires
        distinct_ids(rs),
    ensures
        forall|i: int|
            0 <= i < rs.len() ==> #[trigger] hash_at(
                apply_ops(st, full_replace_ops(prefix, rs)),
                key_of(prefix, rs[i].id),
            ) == set_all(Map::empty(), rs[i].fields),
{
    let first = seq![OpView::DeletePrefix(prefix)];
    lemma_apply_concat(st, first, write_ops(prefix, rs));
    assert(first.drop_last() =~= Seq::<OpView>::empty());
    let wiped = apply_ops(st, first);
    lemma_writes_values(wiped, prefix, rs);
    assert forall|i: int| 0 <= i < rs.len() implies #[trigger] hash_at(
        apply_ops(st, full_replace_ops(prefix, rs)),
        key_of(prefix, rs[i].id),
    ) == set_all(Map::empty(), rs[i].fields) by {
        let k = key_of(prefix, rs[i].id);
        assert(k.take(prefix.len() as int) =~= prefix);
        assert(!wiped.contains_key(k));
    }
}

/// After a diff-based replace by records of distinct identities, each
/// record's hash holds every field of the record with its new value; a
/// field the record lacks keeps what it held.
pub proof fn lemma_diff_replace_records(
    st: StoreView,
    prefix: Seq<char>,
    previous: Seq<Seq<char>>,
    rs: Seq<RecordView>,
)
    requires
        distinct_ids(rs),
    ensures
        forall|i: int|
            0 <= i < rs.len() ==> #[trigger] hash_at(
                apply_ops(st, diff_replace_ops(prefix, previous, rs)),
                key_of(prefix, rs[i].id),
            ) == set_all(hash_at(st, key_of(prefix, rs[i].id)), rs[i].fields),
{
    let live = ids_of(rs);
    let written = apply_ops(st, write_ops(prefix, rs));
    lemma_apply_concat(st, write_ops(prefix, rs), delete_ops(prefix, previous, live));
    lemma_writes_values(st, prefix, rs);
    assert forall|i: int| 0 <= i < rs.len() implies #[trigger] hash_at(
        apply_ops(st, diff_replace_ops(prefix, previous, rs)),
        key_of(prefix, rs[i].id),
    ) == set_all(hash_at(st, key_of(prefix, rs[i].id)), rs[i].fields) by {
        let k = key_of(prefix, rs[i].id);
        assert(live.contains(rs[i].id));
        assert forall|j: int| 0 <= j < previous.len() && !live.contains(previous[j]) implies k
            != key_of(prefix, previous[j]) by {
            lemma_key_cancel(prefix, rs[i].id, previous[j]);
        }
        lemma_deletes_frame(written, prefix, previous, live, k);
    }
}

proof fn lemma_deletes_frame(
    st: StoreView,
    p: Seq<char>,
    prev: Seq<Seq<char>>,
    live: Set<Seq<char>>,
    k: Seq<char>,
)
    requires
        forall|j: int| 0 <= j < prev.len() && !live.contains(prev[j]) ==> k != key_of(p, prev[j]),
    ensures
        hash_at(apply_ops(st, delete_ops(p, prev, live)), k) == hash_at(st, k),
    decreases prev.len(),
{
    if prev.len() > 0 {
        let front = delete_ops(p, prev.drop_last(), live);
        let tail = if live.contains(prev.last()) {
            Seq::<OpView>::empty()
        } else {
            seq![OpView::Delete(key_of(p, prev.last()))]
        };
        lemma_apply_concat(st, front, tail);
        assert(delete_ops(p, prev, live) == front + tail);
        assert forall|j: int|
            0 <= j < prev.drop_last().len() && !live.contains(prev.drop_last()[j]) implies k
            != key_of(p, prev.drop_last()[j]) by {
            assert(prev.drop_last()[j] == prev[j]);
        }
        lemma_deletes_frame(st, p, prev.drop_last(), live, k);
        let mid = apply_ops(st, front);
        if !live.contains(prev.last()) {
            assert(tail.drop_last() =~= Seq::<OpView>::empty());
            assert(apply_ops(mid, tail.drop_last()) == mid);
            assert(apply_ops(mid, tail) == apply_op(mid, tail.last()));
        } else {
            assert(apply_ops(mid, tail) == mid);
        }
    }
}

/// The identity that `k` names in the namespace `prefix`, if it names one:
/// the update-time key names none.
pub open spec fn id_in(prefix: Seq<char>, k: Seq<char>) -> Option<Seq<char>> {
    if starts_with(k, prefix) && k.skip(prefix.len() as int) != marker_id() {
        Some(k.skip(prefix.len() as int))
    } else {
        None
    }
}

/// The identities that the keys `keys` name in the namespace `prefix`.
pub open spec fn seed_ids(prefix: Seq<char>, keys: Seq<Seq<char>>) -> Seq<Seq<char>>
    decreases keys.len(),
{
    if keys.len() == 0 {
        Seq::empty()
    } else {
        seed_ids(prefix, keys.drop_last()) + match id_in(prefix, keys.last()) {
            Some(id) => seq![id],
            None => Seq::empty(),
        }
    }
}

/// The identities that the store keys `keys` name in the namespace `prefix`,
/// for a synchroniser to start from.
pub fn ids_under_prefix(prefix: &str, keys: &Vec<String>) -> (r: Vec<String>)
    ensures
        strings_view(r@) == seed_ids(prefix@, strings_view(keys@)),
{
    let p = chars_of(prefix);
    let marker = chars_of("LastUpdateTime");
    let ghost kv = strings_view(keys@);
    let mut out: Vec<String> = Vec::new();
    let mut i: usize = 0;
    assert(kv.take(0) =~= Seq::<Seq<char>>::empty());
    assert(strings_view(out@) =~= Seq::<Seq<char>>::empty());
    while i < keys.len()
        invariant
            i <= keys@.len(),
            p@ == prefix@,
            marker@ == marker_id(),
            kv == strings_view(keys@),
            strings_view(out@) == seed_ids(prefix@, kv.take(i as int)),
        decreases keys@.len() - i,
    {
        assert(kv.take(i + 1).drop_last() =~= kv.take(i as int));
        assert(kv.take(i + 1).last() == keys@[i as int]@);
        let k = chars_of(keys[i].as_str());
        let ghost before = strings_view(out@);
        let mut is_prefixed = p.len() <= k.len();
        let mut j: usize = 0;
        while is_prefixed && j < p.len()
            invariant
                j <= p@.len(),
                is_prefixed ==> p@.len() <= k@.len() && forall|t: int| 0 <= t < j ==> k@[t] == p@[t],
                !is_prefixed ==> !starts_with(k@, p@),
            decreases p@.len() - j,
        {
            if k[j] != p[j] {
                is_prefixed = false;
                assert(k@.take(p@.len() as int)[j as int] != p@[j as int]);
            }
            j = j + 1;
        }
        if is_prefixed {
            assert(k@.take(p@.len() as int) =~= p@);
            let rest = crate::text::slice_chars(&k, p.len(), k.len());
            assert(rest@ =~= k@.skip(p@.len() as int));
            if !crate::text::chars_eq(&rest, &marker) {
                out.push(string_from_chars(rest.as_slice()));
                assert(strings_view(out@) =~= before + seq![rest@]);
            } else {
                assert(before + Seq::<Seq<char>>::empty() =~= before);
            }
        } else {
            assert(before + Seq::<Seq<char>>::empty() =~= before);
        }
        i = i + 1;
    }
    assert(kv.take(keys@.len() as int) =~= kv);
    out
}

proof fn lemma_seed_member(prefix: Seq<char>, keys: Seq<Seq<char>>, id: Seq<char>)
    ensures
        seed_ids(prefix, keys).contains(id) <==> exists|i: int|
            0 <= i < keys.len() && id_in(prefix, keys[i]) == Some(id),
    decreases keys.len(),
{
    if keys.len() > 0 {
        let front = keys.drop_last();
        lemma_seed_member(prefix, front, id);
        let tail = match id_in(prefix, keys.last()) {
            Some(x) => seq![x],
            None => Seq::<Seq<char>>::empty(),
        };
        let all = seed_ids(prefix, front) + tail;
        if all.contains(id) {
            let w = choose|w: int| 0 <= w < all.len() && all[w] == id;
            if w < seed_ids(prefix, front).len() {
                assert(seed_ids(prefix, front).contains(id));
                let i = choose|i: int| 0 <= i < front.len() && id_in(prefix, front[i]) == Some(id);
                assert(keys[i] == front[i]);
            } else {
                assert(id_in(prefix, keys[keys.len() - 1]) == Some(id));
            }
        }
        if exists|i: int| 0 <= i < keys.len() && id_in(prefix, keys[i]) == Some(id) {
            let i = choose|i: int| 0 <= i < keys.len() && id_in(prefix, keys[i]) == Some(id);
            if i < keys.len() - 1 {
                assert(front[i] == keys[i]);
                assert(seed_ids(prefix, front).contains(id));
                let w = choose|w: int| 0 <= w < seed_ids(prefix, front).len() && seed_ids(prefix, front)[w] == id;
                assert(all[w] == id);
            } else {
                assert(all[all.len() - 1] == id);
            }
        }
    }
}

/// A synchroniser seeded from the store's keys under a namespace starts in
/// step with the store: the namespace holds exactly the seeded identities.
pub proof fn lemma_seed_matches_store(st: StoreView, prefix: Seq<char>, keys: Seq<Seq<char>>)
    requires
        forall|k: Seq<char>| starts_with(k, prefix) ==> (st.contains_key(k) <==> keys.contains(k)),
    ensures
        forall|id: Seq<char>|
            id != marker_id() ==> (st.contains_key(key_of(prefix, id)) <==> seed_ids(
                prefix,
                keys,
            ).contains(id)),
{
    assert forall|id: Seq<char>| id != marker_id() implies (st.contains_key(key_of(prefix, id))
        <==> seed_ids(prefix, keys).contains(id)) by {
        let k = key_of(prefix, id);
        assert(k.take(prefix.len() as int) =~= prefix);
        assert(k.skip(prefix.len() as int) =~= id);
        lemma_seed_member(prefix, keys, id);
        if keys.contains(k) {
            let i = choose|i: int| 0 <= i < keys.len() && keys[i] == k;
            assert(id_in(prefix, keys[i]) == Some(id));
        }
        if exists|i: int| 0 <= i < keys.len() && id_in(prefix, keys[i]) == Some(id) {
            let i = choose|i: int| 0 <= i < keys.len() && id_in(prefix, keys[i]) == Some(id);
            assert(keys[i] =~= keys[i].take(prefix.len() as int) + keys[i].skip(prefix.len() as int));
            assert(keys[i] == k);
        }
    }
}

} // verus!
