//! Process sampling: the busiest processes of a process-table snapshot, each
//! turned into a record.

use vstd::prelude::*;
use crate::clock::{month_day_of, month_day_text};
use crate::record::{Record, RecordView, fields_view, push_field};
use crate::text::{dec, dec_string, join_strings, join_words, push_dec, string_from_chars};

verus! {

/// Most processes kept per sample.
pub const TOP_PROCESSES: usize = 1024;

/// What the process table says of a process's state.
pub enum ProcStatus {
    /// Running, sleeping, stopped or otherwise alive.
    Live,
    Zombie,
    /// The state could not be read.
    Unknown,
}

/// One process of a process-table snapshot, as plain values.
pub struct ProcessSample {
    pub pid: u32,
    pub status: ProcStatus,
    /// CPU usage in hundredths of a percent; `None` where the reading was
    /// not a number.
    pub cpu_centi: Option<u64>,
    /// Resident memory in bytes.
    pub memory: u64,
    /// Start time in seconds since the Unix epoch.
    pub start_time: u64,
    pub uid: Option<u32>,
    pub parent: Option<u32>,
    /// Major and minor number of the controlling terminal; `None` where it
    /// could not be read.
    pub tty: Option<(u32, u32)>,
    /// CPU time used so far, user and system, in milliseconds.
    pub cpu_time_ms: u64,
    pub cmd: Vec<String>,
}

pub open spec fn eligible(p: ProcessSample) -> bool {
    p.status is Live
}

/// The ranking key: the CPU reading, with a missing one counting as zero.
pub open spec fn cpu_key(p: ProcessSample) -> nat {
    match p.cpu_centi {
        Some(c) => c as nat,
        None => 0,
    }
}

pub open spec fn count_eligible(s: Seq<ProcessSample>) -> nat
    decreases s.len(),
{
    if s.len() == 0 {
        0
    } else {
        count_eligible(s.drop_last()) + if eligible(s.last()) {
            1nat
        } else {
            0nat
        }
    }
}

pub open spec fn min_nat(a: nat, b: nat) -> nat {
    if a <= b {
        a
    } else {
        b
    }
}

/// `r` lists, busiest first, `limit` of the eligible processes of `s` (all of
/// them where there are fewer), and no process left out is busier than one
/// taken. Ties are broken either way.
pub open spec fn is_top_selection(s: Seq<ProcessSample>, limit: nat, r: Seq<usize>) -> bool {
    &&& r.len() == min_nat(limit, count_eligible(s))
    &&& forall|a: int| 0 <= a < r.len() ==> r[a] < s.len() && eligible(s[r[a] as int])
    &&& forall|a: int, b: int| 0 <= a < r.len() && 0 <= b < r.len() && a != b ==> r[a] != r[b]
    &&& forall|a: int, b: int|
        0 <= a < b < r.len() ==> cpu_key(s[r[a] as int]) >= cpu_key(s[r[b] as int])
    &&& forall|j: int, a: int|
        0 <= j < s.len() && eligible(s[j]) && !r.contains(j as usize) && 0 <= a < r.len()
            ==> cpu_key(s[j]) <= cpu_key(s[r[a] as int])
}

fn key_of(p: &ProcessSample) -> (r: u64)
    ensures
        r as nat == cpu_key(*p),
{
    match p.cpu_centi {
        Some(c) => c,
        None => 0,
    }
}

#[verifier::rlimit(60)]
/// Picks the `limit` busiest live processes, busiest first; zombies and
/// processes of unknown state are left out.
pub fn select_top(samples: &Vec<ProcessSample>, limit: usize) -> (r: Vec<usize>)
    ensures
        is_top_selection(samples@, limit as nat, r@),
{
    let ghost s = samples@;
    let mut top: Vec<usize> = Vec::new();
    let mut k: usize = 0;
    while k < samples.len()
        invariant
            s == samples@,
            k <= s.len(),
            top@.len() == min_nat(limit as nat, count_eligible(s.take(k as int))),
            top@.len() < limit ==> forall|j: int|
                0 <= j < k && eligible(s[j]) ==> top@.contains(j as usize),
            forall|a: int| 0 <= a < top@.len() ==> top@[a] < k && eligible(s[top@[a] as int]),
            forall|a: int, b: int|
                0 <= a < top@.len() && 0 <= b < top@.len() && a != b ==> top@[a] != top@[b],
            forall|a: int, b: int|
                0 <= a < b < top@.len() ==> cpu_key(s[top@[a] as int]) >= cpu_key(
                    s[top@[b] as int],
                ),
            forall|j: int, a: int|
                0 <= j < k && eligible(s[j]) && !top@.contains(j as usize) && 0 <= a
                    < top@.len() ==> cpu_key(s[j]) <= cpu_key(s[top@[a] as int]),
        decreases s.len() - k,
    {
        assert(s.take(k + 1).drop_last() =~= s.take(k as int));
        let is_live = match samples[k].status {
            ProcStatus::Live => true,
            _ => false,
        };
        if is_live {
            let key = key_of(&samples[k]);
            let mut p: usize = 0;
            while p < top.len() && key_of(&samples[top[p]]) >= key
                invariant
                    p <= top@.len(),
                    s == samples@,
                    k < s.len(),
                    key == cpu_key(s[k as int]),
                    forall|a: int| 0 <= a < top@.len() ==> top@[a] < k,
                    forall|a: int| 0 <= a < p ==> cpu_key(s[top@[a] as int]) >= key,
                decreases top@.len() - p,
            {
                p = p + 1;
            }
            if p < limit {
                let ghost old_top = top@;
                top.insert(p, k);
                assert(forall|a: int| 0 <= a < old_top.len() ==> old_top[a] != k);
                assert(forall|a: int|
                    0 <= a < top@.len() ==> (a < p ==> top@[a] == old_top[a]) && (a == p
                        ==> top@[a] == k) && (a > p ==> top@[a] == old_top[a - 1]));
                if top.len() > limit {
                    let ghost before_pop = top@;
                    let e = top.pop();
                    assert forall|j: int, a: int|
                        0 <= j <= k && eligible(s[j]) && !top@.contains(j as usize) && 0 <= a
                            < top@.len() implies cpu_key(s[j]) <= cpu_key(s[top@[a] as int]) by {
                        if j == before_pop[before_pop.len() - 1] as int {
                        } else if j == k {
                            assert(top@[p as int] == k);
                        } else {
                            if old_top.contains(j as usize) {
                                let w = choose|w: int| 0 <= w < old_top.len() && old_top[w] == j as usize;
                                if w < p {
                                    assert(top@[w] == j as usize);
                                } else {
                                    if w + 1 < top@.len() {
                                        assert(top@[w + 1] == j as usize);
                                    } else {
                                        assert(before_pop[before_pop.len() - 1] == j as usize);
                                    }
                                }
                            }
                            assert(!old_top.contains(j as usize));
                            assert(cpu_key(s[j]) <= cpu_key(s[old_top[old_top.len() - 1] as int]));
                        }
                    }
                } else {
                    assert forall|j: int|
                        0 <= j <= k && eligible(s[j]) implies top@.contains(j as usize) by {
                        if j < k {
                            let w = choose|w: int| 0 <= w < old_top.len() && old_top[w] == j as usize;
                            if w < p {
                                assert(top@[w] == j as usize);
                            } else {
                                assert(top@[w + 1] == j as usize);
                            }
                        } else {
                            assert(top@[p as int] == k);
                        }
                    }
                }
            } else {
                assert(!top@.contains(k));
            }
        }
        k = k + 1;
    }
    assert(s.take(s.len() as int) =~= s);
    top
}

/// Two decimal digits of `n`, with a leading zero.
pub open spec fn two_digits(n: nat) -> Seq<char> {
    seq![(((n / 10) % 10) + '0' as nat) as char, ((n % 10) + '0' as nat) as char]
}

/// `c` hundredths, written with two decimals.
pub open spec fn fixed2(c: nat) -> Seq<char> {
    dec(c / 100) + seq!['.'] + two_digits(c % 100)
}

/// `t` tenths, written with one decimal.
pub open spec fn fixed1(t: nat) -> Seq<char> {
    dec(t / 10) + seq!['.', ((t % 10) + '0' as nat) as char]
}

/// A process's share of the host's memory in tenths of a percent, rounded
/// to the nearest; 0 where the total is unknown.
pub open spec fn mem_tenths(mem: nat, total: nat) -> nat {
    if total == 0 {
        0
    } else {
        (2000 * mem + total) / (2 * total)
    }
}

/// Accumulated CPU time as `H:MM:SS`, or `M:SS` under an hour.
pub open spec fn cpu_time_text(ms: nat) -> Seq<char> {
    let secs = ms / 1000;
    let h = secs / 3600;
    let m = (secs % 3600) / 60;
    if h > 0 {
        dec(h) + seq![':'] + two_digits(m) + seq![':'] + two_digits(secs % 60)
    } else {
        dec(m) + seq![':'] + two_digits(secs % 60)
    }
}

/// The controlling terminal's name: `pts/<minor>`, or `?` where there is
/// none or it could not be read.
pub open spec fn tty_text(t: Option<(u32, u32)>) -> Seq<char> {
    match t {
        Some(d) => if d.0 == 0 && d.1 == 0 {
            seq!['?']
        } else {
            seq!['p', 't', 's', '/'] + dec(d.1 as nat)
        },
        None => seq!['?'],
    }
}

pub open spec fn opt_dec(o: Option<u32>) -> Seq<char> {
    match o {
        Some(v) => dec(v as nat),
        None => Seq::empty(),
    }
}

/// The fields of a process's record.
pub open spec fn process_fields(p: ProcessSample, total: nat, stime: Seq<char>) -> Seq<
    (Seq<char>, Seq<char>),
> {
    seq![
        ("PID"@, dec(p.pid as nat)),
        ("UID"@, opt_dec(p.uid)),
        ("PPID"@, opt_dec(p.parent)),
        ("CPU(%)"@, fixed2(cpu_key(p))),
        ("MEM(%)"@, fixed1(mem_tenths(p.memory as nat, total))),
        ("STIME"@, stime),
        ("TT"@, tty_text(p.tty)),
        ("TIME"@, cpu_time_text(p.cpu_time_ms as nat)),
        ("CMD"@, join_words(p.cmd@.map_values(|w: String| w@))),
    ]
}

pub open spec fn process_view(p: ProcessSample, total: nat, stime: Seq<char>) -> RecordView {
    RecordView { id: dec(p.pid as nat), fields: process_fields(p, total, stime) }
}

fn push_two_digits(out: &mut Vec<char>, n: u64)
    ensures
        final(out)@ == old(out)@ + two_digits(n as nat),
{
    out.push((((n / 10) % 10) as u8 + 48) as char);
    out.push(((n % 10) as u8 + 48) as char);
    assert(final(out)@ =~= old(out)@ + two_digits(n as nat));
}

fn fixed2_string(c: u64) -> (r: String)
    ensures
        r@ == fixed2(c as nat),
{
    let mut v: Vec<char> = Vec::new();
    push_dec(&mut v, (c / 100) as u128);
    v.push('.');
    push_two_digits(&mut v, c % 100);
    assert(v@ =~= fixed2(c as nat));
    string_from_chars(v.as_slice())
}

fn mem_string(mem: u64, total: u64) -> (r: String)
    ensures
        r@ == fixed1(mem_tenths(mem as nat, total as nat)),
{
    let t: u128 = if total == 0 {
        0
    } else {
        (2000 * (mem as u128) + (total as u128)) / (2 * (total as u128))
    };
    let mut v: Vec<char> = Vec::new();
    push_dec(&mut v, t / 10);
    v.push('.');
    v.push(((t % 10) as u8 + 48) as char);
    assert(v@ =~= fixed1(mem_tenths(mem as nat, total as nat)));
    string_from_chars(v.as_slice())
}

fn cpu_time_string(ms: u64) -> (r: String)
    ensures
        r@ == cpu_time_text(ms as nat),
{
    let secs = ms / 1000;
    let h = secs / 3600;
    let m = (secs % 3600) / 60;
    let mut v: Vec<char> = Vec::new();
    if h > 0 {
        push_dec(&mut v, h as u128);
        v.push(':');
        push_two_digits(&mut v, m);
        v.push(':');
        push_two_digits(&mut v, secs % 60);
    } else {
        push_dec(&mut v, m as u128);
        v.push(':');
        push_two_digits(&mut v, secs % 60);
    }
    assert(v@ =~= cpu_time_text(ms as nat));
    string_from_chars(v.as_slice())
}

/// The name of a controlling terminal given by its device numbers.
pub fn get_terminal_name(tty: Option<(u32, u32)>) -> (r: String)
    ensures
        r@ == tty_text(tty),
{
    let mut v: Vec<char> = Vec::new();
    match tty {
        Some(d) => {
            if d.0 == 0 && d.1 == 0 {
                v.push('?');
            } else {
                v.push('p');
                v.push('t');
                v.push('s');
                v.push('/');
                push_dec(&mut v, d.1 as u128);
            }
        },
        None => {
            v.push('?');
        },
    }
    assert(v@ =~= tty_text(tty));
    string_from_chars(v.as_slice())
}

fn opt_dec_string(o: Option<u32>) -> (r: String)
    ensures
        r@ == opt_dec(o),
{
    match o {
        Some(v) => dec_string(v as u64),
        None => String::new(),
    }
}

/// The record of one process, given the text of its start day.
pub fn process_record(p: &ProcessSample, total_memory: u64, stime: &str) -> (r: Record)
    ensures
        r@ == process_view(*p, total_memory as nat, stime@),
{
    let mut fields: Vec<(String, String)> = Vec::new();
    push_field(&mut fields, "PID".to_owned(), dec_string(p.pid as u64));
    push_field(&mut fields, "UID".to_owned(), opt_dec_string(p.uid));
    push_field(&mut fields, "PPID".to_owned(), opt_dec_string(p.parent));
    push_field(&mut fields, "CPU(%)".to_owned(), fixed2_string(key_of(p)));
    push_field(&mut fields, "MEM(%)".to_owned(), mem_string(p.memory, total_memory));
    push_field(&mut fields, "STIME".to_owned(), stime.to_owned());
    push_field(&mut fields, "TT".to_owned(), get_terminal_name(p.tty));
    push_field(&mut fields, "TIME".to_owned(), cpu_time_string(p.cpu_time_ms));
    let cmd = join_strings(&p.cmd);
    push_field(&mut fields, "CMD".to_owned(), string_from_chars(cmd.as_slice()));
    assert(fields_view(fields@) =~= process_fields(*p, total_memory as nat, stime@));
    Record { id: dec_string(p.pid as u64), fields }
}

/// The start day's text of a process: chrono's, or empty where chrono
/// cannot represent the time.
pub open spec fn stime_ok(p: ProcessSample, t: Seq<char>) -> bool {
    t == month_day_text(p.start_time as int) || t.len() == 0
}

fn start_day(p: &ProcessSample) -> (r: String)
    ensures
        stime_ok(*p, r@),
{
    if p.start_time <= i64::MAX as u64 {
        match month_day_of(p.start_time as i64) {
            Some(t) => t,
            None => String::new(),
        }
    } else {
        String::new()
    }
}

/// `rv` is the record of `p`, with whichever start-day text chrono gave.
pub open spec fn is_process_record(rv: RecordView, p: ProcessSample, total: nat) -> bool {
    exists|t: Seq<char>| stime_ok(p, t) && rv == process_view(p, total, t)
}

/// The records of the busiest live processes of a snapshot, busiest first.
pub fn sample_processes(samples: &Vec<ProcessSample>, total_memory: u64) -> (r: Vec<Record>)
    ensures
        exists|sel: Seq<usize>|
            {
                &&& is_top_selection(samples@, TOP_PROCESSES as nat, sel)
                &&& sel.len() == r@.len()
                &&& forall|i: int|
                    0 <= i < sel.len() ==> is_process_record(
                        #[trigger] r@[i]@,
                        samples@[sel[i] as int],
                        total_memory as nat,
                    )
            },
{
    let sel = select_top(samples, TOP_PROCESSES);
    let mut out: Vec<Record> = Vec::new();
    let mut i: usize = 0;
    while i < sel.len()
        invariant
            i <= sel@.len(),
            out@.len() == i,
            is_top_selection(samples@, TOP_PROCESSES as nat, sel@),
            forall|j: int|
                0 <= j < i ==> is_process_record(
                    #[trigger] out@[j]@,
                    samples@[sel@[j] as int],
                    total_memory as nat,
                ),
        decreases sel@.len() - i,
    {
        let p = &samples[sel[i]];
        let stime = start_day(p);
        let rec = process_record(p, total_memory, stime.as_str());
        let ghost old_out = out@;
        out.push(rec);
        assert(forall|j: int| 0 <= j < i ==> out@[j] == old_out[j]);
        assert(is_process_record(out@[i as int]@, samples@[sel@[i as int] as int], total_memory as nat));
        i = i + 1;
    }
    assert(is_top_selection(samples@, TOP_PROCESSES as nat, sel@) && sel@.len() == out@.len());
    out
}

} // verus!
