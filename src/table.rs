//! The table form of container statistics: a header line, then one line per
//! container, with cells separated by runs of three or more spaces.

use vstd::prelude::*;
use crate::docker::{DockerRow, DockerRowView, create_docker_record, docker_record, opt_chars};
use crate::record::{Record, RecordView, push_record, records_view};
use crate::text::{chars_of, lines, matches_at, matches_at_exec, slice_chars, split_lines};

verus! {

pub open spec fn three_spaces() -> Seq<char> {
    seq![' ', ' ', ' ']
}

/// The cells of `s[start..]`, scanning from `i`: three or more spaces in a
/// row separate two cells; `skipping` is set while inside such a run.
pub open spec fn columns_from(s: Seq<char>, start: int, i: int, skipping: bool) -> Seq<Seq<char>>
    decreases s.len() - i, (if skipping { 1int } else { 0int }),
{
    if skipping {
        if 0 <= i < s.len() && s[i] == ' ' {
            columns_from(s, start, i + 1, true)
        } else {
            columns_from(s, i, i, false)
        }
    } else if i >= s.len() {
        seq![s.subrange(start, s.len() as int)]
    } else if matches_at(s, three_spaces(), i) {
        seq![s.subrange(start, i)] + columns_from(s, i + 3, i + 3, true)
    } else {
        columns_from(s, start, i + 1, false)
    }
}

/// The cells of one line.
pub open spec fn columns(s: Seq<char>) -> Seq<Seq<char>> {
    columns_from(s, 0, 0, false)
}

/// Splits a line into cells as `columns` says.
pub fn split_columns(v: &Vec<char>) -> (r: Vec<Vec<char>>)
    ensures
        r@.map_values(|c: Vec<char>| c@) == columns(v@),
{
    let sep = [' ', ' ', ' '];
    assert(sep@ =~= three_spaces());
    let mut r: Vec<Vec<char>> = Vec::new();
    let mut start: usize = 0;
    let mut i: usize = 0;
    let mut skipping = false;
    while i < v.len()
        invariant
            start <= i <= v@.len(),
            sep@ == three_spaces(),
            r@.map_values(|c: Vec<char>| c@) + columns_from(v@, start as int, i as int, skipping)
                == columns(v@),
        decreases v@.len() - i, (if skipping { 1int } else { 0int }),
    {
        if skipping {
            if v[i] == ' ' {
                i = i + 1;
            } else {
                start = i;
                skipping = false;
            }
        } else if matches_at_exec(v, &sep, i) {
            let cell = slice_chars(v, start, i);
            let ghost before = r@.map_values(|c: Vec<char>| c@);
            r.push(cell);
            assert(r@.map_values(|c: Vec<char>| c@) =~= before.push(cell@));
            assert(before.push(cell@) + columns_from(v@, i + 3, i + 3, true) =~= before + (seq![
                cell@,
            ] + columns_from(v@, i + 3, i + 3, true)));
            i = i + 3;
            start = i;
            skipping = true;
        } else {
            i = i + 1;
        }
    }
    if skipping {
        assert(columns_from(v@, start as int, i as int, true) == columns_from(v@, i as int, i as int, false));
        start = i;
    }
    assert(columns_from(v@, start as int, i as int, false) == seq![v@.subrange(start as int, v@.len() as int)]);
    let cell = slice_chars(v, start, v.len());
    let ghost before = r@.map_values(|c: Vec<char>| c@);
    r.push(cell);
    assert(r@.map_values(|c: Vec<char>| c@) =~= before + seq![cell@]);
    r
}

/// The first position at or after `j` where `keys` holds `name`, or -1.
pub open spec fn index_of(keys: Seq<Seq<char>>, name: Seq<char>, j: int) -> int
    decreases keys.len() - j,
{
    if j < 0 || j >= keys.len() {
        -1
    } else if keys[j] == name {
        j
    } else {
        index_of(keys, name, j + 1)
    }
}

/// The cell under the column headed `name`, if there is one.
pub open spec fn cell(keys: Seq<Seq<char>>, vals: Seq<Seq<char>>, name: Seq<char>) -> Option<
    Seq<char>,
> {
    let j = index_of(keys, name, 0);
    if 0 <= j < vals.len() {
        Some(vals[j])
    } else {
        None
    }
}

pub open spec fn table_row(keys: Seq<Seq<char>>, vals: Seq<Seq<char>>) -> DockerRowView {
    DockerRowView {
        id: cell(keys, vals, "CONTAINER ID"@),
        name: cell(keys, vals, "NAME"@),
        cpu: cell(keys, vals, "CPU %"@),
        mem_usage: cell(keys, vals, "MEM USAGE / LIMIT"@),
        mem_pct: cell(keys, vals, "MEM %"@),
        net_io: cell(keys, vals, "NET I/O"@),
        block_io: cell(keys, vals, "BLOCK I/O"@),
        pids: cell(keys, vals, "PIDS"@),
    }
}

/// The record of one data line: none where the line has fewer cells than
/// the header or names no container.
pub open spec fn line_record(keys: Seq<Seq<char>>, line: Seq<char>) -> Seq<RecordView> {
    let vals = columns(line);
    if vals.len() >= keys.len() {
        match docker_record(table_row(keys, vals)) {
            Some(r) => seq![r],
            None => Seq::empty(),
        }
    } else {
        Seq::empty()
    }
}

pub open spec fn table_records(keys: Seq<Seq<char>>, ls: Seq<Seq<char>>) -> Seq<RecordView>
    decreases ls.len(),
{
    if ls.len() == 0 {
        Seq::empty()
    } else {
        table_records(keys, ls.drop_last()) + line_record(keys, ls.last())
    }
}

/// The records of a whole table; none where it has no data line.
pub open spec fn parse_table(s: Seq<char>) -> Seq<RecordView> {
    let ls = lines(s);
    if ls.len() < 2 {
        Seq::empty()
    } else {
        table_records(columns(ls[0]), ls.skip(1))
    }
}

fn cell_exec(keys: &Vec<Vec<char>>, vals: &Vec<Vec<char>>, name: &str) -> (r: Option<Vec<char>>)
    ensures
        opt_chars(r) == cell(keys@.map_values(|c: Vec<char>| c@), vals@.map_values(|c: Vec<char>| c@), name@),
{
    let ghost ks = keys@.map_values(|c: Vec<char>| c@);
    let target = chars_of(name);
    let mut j: usize = 0;
    while j < keys.len()
        invariant
            j <= keys@.len(),
            ks == keys@.map_values(|c: Vec<char>| c@),
            target@ == name@,
            index_of(ks, name@, 0) == index_of(ks, name@, j as int),
        decreases keys@.len() - j,
    {
        if crate::text::chars_eq(&keys[j], &target) {
            if j < vals.len() {
                return Some(slice_chars(&vals[j], 0, vals[j].len()));
            } else {
                return None;
            }
        }
        j = j + 1;
    }
    None
}

fn row_of(keys: &Vec<Vec<char>>, vals: &Vec<Vec<char>>) -> (r: DockerRow)
    ensures
        r@ == table_row(keys@.map_values(|c: Vec<char>| c@), vals@.map_values(|c: Vec<char>| c@)),
{
    DockerRow {
        id: cell_exec(keys, vals, "CONTAINER ID"),
        name: cell_exec(keys, vals, "NAME"),
        cpu: cell_exec(keys, vals, "CPU %"),
        mem_usage: cell_exec(keys, vals, "MEM USAGE / LIMIT"),
        mem_pct: cell_exec(keys, vals, "MEM %"),
        net_io: cell_exec(keys, vals, "NET I/O"),
        block_io: cell_exec(keys, vals, "BLOCK I/O"),
        pids: cell_exec(keys, vals, "PIDS"),
    }
}

/// Parses the table form of container statistics into one record per
/// container line, keyed by the `CONTAINER ID` cell. A line with fewer cells
/// than the header is dropped; a table without a data line gives none.
pub fn parse_docker_stats(output: &str) -> (r: Vec<Record>)
    ensures
        records_view(r@) == parse_table(output@),
{
    let text = chars_of(output);
    let ls = split_lines(&text);
    let ghost lv = ls@.map_values(|l: Vec<char>| l@);
    let mut out: Vec<Record> = Vec::new();
    if ls.len() < 2 {
        assert(records_view(out@) =~= Seq::empty());
        return out;
    }
    let keys = split_columns(&ls[0]);
    let ghost kv = keys@.map_values(|c: Vec<char>| c@);
    let mut k: usize = 1;
    assert(lv.skip(1).take(0) =~= Seq::<Seq<char>>::empty());
    assert(records_view(out@) =~= Seq::empty());
    while k < ls.len()
        invariant
            1 <= k <= ls@.len(),
            lv == ls@.map_values(|l: Vec<char>| l@),
            lv == lines(output@),
            kv == keys@.map_values(|c: Vec<char>| c@),
            kv == columns(lv[0]),
            records_view(out@) == table_records(kv, lv.skip(1).take(k - 1)),
        decreases ls@.len() - k,
    {
        let vals = split_columns(&ls[k]);
        let ghost before = records_view(out@);
        assert(lv.skip(1).take(k as int).drop_last() =~= lv.skip(1).take(k - 1));
        assert(lv.skip(1).take(k as int).last() == lv[k as int]);
        if vals.len() >= keys.len() {
            let row = row_of(&keys, &vals);
            match create_docker_record(&row) {
                Some(rec) => {
                    push_record(&mut out, rec);
                },
                None => {
                    assert(before + Seq::<RecordView>::empty() =~= before);
                },
            }
        } else {
            assert(before + Seq::<RecordView>::empty() =~= before);
        }
        k = k + 1;
    }
    assert(lv.skip(1).take(ls.len() - 1) =~= lv.skip(1));
    out
}

} // verus!
