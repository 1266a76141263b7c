//! One sampling cycle per namespace: what is written to the store for the
//! container, process and FIPS samples.

use vstd::prelude::*;
use crate::record::{Record, RecordView, records_view};
use crate::sync::{
    OpView, StoreOp, StoreView, apply_ops, diff_replace_ops, full_replace_ops, ids_of,
    key_of, marker_id, marker_op, ops_view, plan_diff_replace, plan_full_replace, strings_view,
    lemma_diff_replace_generation, lemma_full_replace_generation,
};
use crate::table::{parse_docker_stats, parse_table};

verus! {

/// Namespace of the container records, keyed by container id.
pub const DOCKER_PREFIX: &'static str = "DOCKER_STATS|";

/// Namespace of the process records, keyed by pid.
pub const PROCESS_PREFIX: &'static str = "PROCESS_STATS|";

/// Namespace of the single FIPS status record.
pub const FIPS_PREFIX: &'static str = "FIPS_STATS|";

/// The writes of one cycle of a namespace that is replaced whole: none where
/// no record was collected, which leaves the last snapshot in place; else
/// the full replace, then the update time.
pub open spec fn replace_cycle_ops(prefix: Seq<char>, rs: Seq<RecordView>, now: Seq<char>) -> Seq<
    OpView,
> {
    if rs.len() == 0 {
        Seq::empty()
    } else {
        full_replace_ops(prefix, rs).push(
            OpView::SetFields(key_of(prefix, marker_id()), seq![("lastupdate"@, now)]),
        )
    }
}

/// Plans the writes for a set of container records collected at `now`.
pub fn docker_cycle_ops(records: &Vec<Record>, now: &str) -> (r: Vec<StoreOp>)
    ensures
        ops_view(r@) == replace_cycle_ops(DOCKER_PREFIX@, records_view(records@), now@),
{
    if records.len() == 0 {
        let r: Vec<StoreOp> = Vec::new();
        assert(ops_view(r@) =~= Seq::empty());
        return r;
    }
    let mut ops = plan_full_replace(DOCKER_PREFIX, records);
    let ghost before = ops_view(ops@);
    ops.push(marker_op(DOCKER_PREFIX, now));
    assert(ops_view(ops@) =~= before.push(ops@.last()@));
    ops
}

/// Plans the writes for one run of the container statistics command, given
/// its table output: an output without records writes nothing.
pub fn update_dockerstats_ops(output: &str, now: &str) -> (r: Vec<StoreOp>)
    ensures
        ops_view(r@) == replace_cycle_ops(DOCKER_PREFIX@, parse_table(output@), now@),
        parse_table(output@).len() == 0 ==> r@.len() == 0,
{
    let records = parse_docker_stats(output);
    let r = docker_cycle_ops(&records, now);
    assert(ops_view(r@).len() == r@.len());
    r
}

/// A cycle that writes records then the update time leaves the namespace
/// holding exactly the new identities; a cycle without records leaves the
/// store as it was.
pub proof fn lemma_replace_cycle(st: StoreView, prefix: Seq<char>, rs: Seq<RecordView>, now: Seq<char>)
    ensures
        rs.len() == 0 ==> apply_ops(st, replace_cycle_ops(prefix, rs, now)) == st,
        rs.len() > 0 ==> forall|id: Seq<char>|
            id != marker_id() ==> (apply_ops(st, replace_cycle_ops(prefix, rs, now)).contains_key(
                key_of(prefix, id),
            ) <==> ids_of(rs).contains(id)),
{
    if rs.len() > 0 {
        let ops = replace_cycle_ops(prefix, rs, now);
        assert(ops.drop_last() =~= full_replace_ops(prefix, rs));
        lemma_full_replace_generation(st, prefix, rs);
        assert forall|id: Seq<char>| id != marker_id() implies (apply_ops(st, ops).contains_key(
            key_of(prefix, id),
        ) <==> ids_of(rs).contains(id)) by {
            lemma_key_ne(prefix, id, marker_id());
        }
    }
}

proof fn lemma_key_ne(p: Seq<char>, a: Seq<char>, b: Seq<char>)
    requires
        a != b,
    ensures
        key_of(p, a) != key_of(p, b),
{
    if key_of(p, a) == key_of(p, b) {
        assert(a =~= key_of(p, a).skip(p.len() as int));
        assert(b =~= key_of(p, b).skip(p.len() as int));
    }
}

/// The identities of a generation of records, in order.
pub open spec fn record_ids(rs: Seq<RecordView>) -> Seq<Seq<char>> {
    rs.map_values(|r: RecordView| r.id)
}

/// Diff-based synchronisation of one namespace: remembers the identities it
/// last wrote, so that each cycle deletes only those that are gone.
pub struct Synchronizer {
    prefix: String,
    known: Vec<String>,
}

impl Synchronizer {
    pub closed spec fn prefix_view(&self) -> Seq<char> {
        self.prefix@
    }

    /// The identities that the namespace is taken to hold.
    pub closed spec fn known_ids(&self) -> Seq<Seq<char>> {
        strings_view(self.known@)
    }

    /// A synchroniser for `prefix`, starting from the identities `seed` that
    /// the store holds there (empty for a fresh store).
    pub fn new(prefix: &str, seed: Vec<String>) -> (r: Self)
        ensures
            r.prefix_view() == prefix@,
            r.known_ids() == strings_view(seed@),
    {
        Synchronizer { prefix: prefix.to_owned(), known: seed }
    }

    /// Plans the writes of one cycle whose records are `records`: each is
    /// written, the identities that are gone are deleted, then the update
    /// time is set. The new identities are remembered for the next cycle.
    pub fn cycle(&mut self, records: &Vec<Record>, now: &str) -> (r: Vec<StoreOp>)
        ensures
            ops_view(r@) == diff_replace_ops(
                old(self).prefix_view(),
                old(self).known_ids(),
                records_view(records@),
            ).push(
                OpView::SetFields(
                    key_of(old(self).prefix_view(), marker_id()),
                    seq![("lastupdate"@, now@)],
                ),
            ),
            final(self).prefix_view() == old(self).prefix_view(),
            final(self).known_ids() == record_ids(records_view(records@)),
    {
        let mut ops = plan_diff_replace(self.prefix.as_str(), &self.known, records);
        let ghost before = ops_view(ops@);
        ops.push(marker_op(self.prefix.as_str(), now));
        assert(ops_view(ops@) =~= before.push(ops@.last()@));
        let mut ids: Vec<String> = Vec::new();
        let mut i: usize = 0;
        while i < records.len()
            invariant
                i <= records@.len(),
                strings_view(ids@) == record_ids(records_view(records@)).take(i as int),
            decreases records@.len() - i,
        {
            let id = records[i].id.clone();
            let ghost prior = ids@;
            ids.push(id);
            assert(strings_view(ids@) =~= strings_view(prior).push(records@[i as int].id@));
            assert(record_ids(records_view(records@)).take(i + 1) =~= record_ids(
                records_view(records@),
            ).take(i as int).push(records@[i as int].id@));
            i = i + 1;
        }
        assert(record_ids(records_view(records@)).take(records@.len() as int) =~= record_ids(
            records_view(records@),
        ));
        self.known = ids;
        ops
    }
}

/// Each cycle of a synchroniser keeps the store in step with it: where the
/// namespace held exactly the identities the synchroniser remembers, after
/// the cycle's writes it holds exactly the new ones, which are what it
/// remembers next. The update-time key is not an identity.
pub proof fn lemma_cycle_generation(
    st: StoreView,
    prefix: Seq<char>,
    previous: Seq<Seq<char>>,
    rs: Seq<RecordView>,
    now: Seq<char>,
)
    requires
        forall|id: Seq<char>|
            id != marker_id() ==> (st.contains_key(key_of(prefix, id)) <==> previous.contains(id)),
    ensures
        forall|id: Seq<char>|
            id != marker_id() ==> (apply_ops(
                st,
                diff_replace_ops(prefix, previous, rs).push(
                    OpView::SetFields(key_of(prefix, marker_id()), seq![("lastupdate"@, now)]),
                ),
            ).contains_key(key_of(prefix, id)) <==> record_ids(rs).contains(id)),
{
    let ops = diff_replace_ops(prefix, previous, rs).push(
        OpView::SetFields(key_of(prefix, marker_id()), seq![("lastupdate"@, now)]),
    );
    assert(ops.drop_last() =~= diff_replace_ops(prefix, previous, rs));
    lemma_diff_replace_generation(st, prefix, previous, rs);
    assert forall|id: Seq<char>| id != marker_id() implies (apply_ops(st, ops).contains_key(
        key_of(prefix, id),
    ) <==> record_ids(rs).contains(id)) by {
        lemma_key_ne(prefix, id, marker_id());
        if ids_of(rs).contains(id) {
            let i = choose|i: int| 0 <= i < rs.len() && rs[i].id == id;
            assert(record_ids(rs)[i] == id);
        }
        if record_ids(rs).contains(id) {
            let i = choose|i: int| 0 <= i < record_ids(rs).len() && record_ids(rs)[i] == id;
            assert(rs[i].id == id);
        }
    }
}

} // verus!
