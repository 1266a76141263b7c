//! The JSON-lines form of container statistics: one flat JSON object of
//! string members per line, such as
//! `{"ID":"9d5f","Name":"db","CPUPerc":"1.5%","MemUsage":"1MiB / 2GiB",...}`.
//! A line that is not such an object is skipped, as is a container whose
//! name is missing, empty or the placeholder shown for one that exited
//! while being sampled.

use vstd::prelude::*;
use crate::docker::{DockerRow, DockerRowView, create_docker_record, docker_record, opt_chars};
use crate::record::{Record, RecordView, push_record, records_view};
use crate::text::{chars_eq, chars_of, lines, split_lines};

verus! {

pub open spec fn is_json_ws(c: char) -> bool {
    c == ' ' || c == '\t' || c == '\n' || c == '\r'
}

/// The first position at or after `i` that is not JSON white space.
pub open spec fn skip_ws(s: Seq<char>, i: int) -> int
    decreases s.len() - i,
{
    if 0 <= i < s.len() && is_json_ws(s[i]) {
        skip_ws(s, i + 1)
    } else {
        i
    }
}

pub open spec fn hex_val(c: char) -> Option<nat> {
    if '0' <= c && c <= '9' {
        Some((c as int - '0' as int) as nat)
    } else if 'a' <= c && c <= 'f' {
        Some((c as int - 'a' as int + 10) as nat)
    } else if 'A' <= c && c <= 'F' {
        Some((c as int - 'A' as int + 10) as nat)
    } else {
        None
    }
}

/// The code unit written by the four hex digits at `i`.
pub open spec fn hex4(s: Seq<char>, i: int) -> Option<nat> {
    if 0 <= i && i + 4 <= s.len() && hex_val(s[i]) is Some && hex_val(s[i + 1]) is Some && hex_val(
        s[i + 2],
    ) is Some && hex_val(s[i + 3]) is Some {
        Some(
            hex_val(s[i])->0 * 4096 + hex_val(s[i + 1])->0 * 256 + hex_val(s[i + 2])->0 * 16
                + hex_val(s[i + 3])->0,
        )
    } else {
        None
    }
}

/// The character that `\e` stands for, for the one-letter escapes.
pub open spec fn simple_escape(e: char) -> Option<char> {
    if e == '"' {
        Some('"')
    } else if e == '\\' {
        Some('\\')
    } else if e == '/' {
        Some('/')
    } else if e == 'b' {
        Some('\u{8}')
    } else if e == 'f' {
        Some('\u{c}')
    } else if e == 'n' {
        Some('\n')
    } else if e == 'r' {
        Some('\r')
    } else if e == 't' {
        Some('\t')
    } else {
        None
    }
}

/// The character of `\u` escapes at `i` (a surrogate pair takes two), and
/// where they end; none for a lone surrogate.
pub open spec fn unicode_escape(s: Seq<char>, i: int) -> Option<(char, int)> {
    match hex4(s, i + 2) {
        None => None,
        Some(u) => if 0xD800 <= u < 0xDC00 {
            if i + 12 <= s.len() && s[i + 6] == '\\' && s[i + 7] == 'u' && hex4(s, i + 8) is Some
                && 0xDC00 <= hex4(s, i + 8)->0 < 0xE000 {
                Some(
                    (
                        (0x10000 + (u - 0xD800) * 0x400 + (hex4(s, i + 8)->0 - 0xDC00)) as char,
                        i + 12,
                    ),
                )
            } else {
                None
            }
        } else if 0xDC00 <= u < 0xE000 {
            None
        } else {
            Some((u as char, i + 6))
        },
    }
}

/// One character of string content at `i` and where the next starts; none
/// for a bad escape or an unescaped control character.
pub open spec fn string_unit(s: Seq<char>, i: int) -> Option<(char, int)> {
    if i < 0 || i >= s.len() {
        None
    } else if s[i] == '\\' {
        if i + 1 >= s.len() {
            None
        } else if s[i + 1] == 'u' {
            unicode_escape(s, i)
        } else {
            match simple_escape(s[i + 1]) {
                Some(c) => Some((c, i + 2)),
                None => None,
            }
        }
    } else if (s[i] as u32) < 0x20 {
        None
    } else {
        Some((s[i], i + 1))
    }
}

/// The content of a string from `i` up to its closing quote, and the
/// position after that quote.
pub open spec fn string_body(s: Seq<char>, i: int) -> Option<(Seq<char>, int)>
    decreases s.len() - i,
{
    if i < 0 || i >= s.len() {
        None
    } else if s[i] == '"' {
        Some((Seq::empty(), i + 1))
    } else {
        match string_unit(s, i) {
            None => None,
            Some(u) => if u.1 > i {
                match string_body(s, u.1) {
                    Some(rest) => Some((seq![u.0] + rest.0, rest.1)),
                    None => None,
                }
            } else {
                None
            },
        }
    }
}

/// A JSON string that starts at `i`.
pub open spec fn json_string(s: Seq<char>, i: int) -> Option<(Seq<char>, int)> {
    if 0 <= i < s.len() && s[i] == '"' {
        string_body(s, i + 1)
    } else {
        None
    }
}

/// A `"key": "value"` member at `i`, and the position after it and the
/// white space that follows.
pub open spec fn member(s: Seq<char>, i: int) -> Option<((Seq<char>, Seq<char>), int)> {
    match json_string(s, i) {
        None => None,
        Some(k) => {
            let j = skip_ws(s, k.1);
            if 0 <= j < s.len() && s[j] == ':' {
                match json_string(s, skip_ws(s, j + 1)) {
                    None => None,
                    Some(v) => Some(((k.0, v.0), skip_ws(s, v.1))),
                }
            } else {
                None
            }
        },
    }
}

/// The members from `i` through the closing brace, and the position after it.
pub open spec fn members(s: Seq<char>, i: int) -> Option<(Seq<(Seq<char>, Seq<char>)>, int)>
    decreases s.len() - i,
{
    match member(s, i) {
        None => None,
        Some(m) => {
            let j = m.1;
            if 0 <= j < s.len() && s[j] == '}' {
                Some((seq![m.0], j + 1))
            } else if 0 <= j < s.len() && s[j] == ',' && i < skip_ws(s, j + 1) <= s.len() {
                match members(s, skip_ws(s, j + 1)) {
                    Some(rest) => Some((seq![m.0] + rest.0, rest.1)),
                    None => None,
                }
            } else {
                None
            }
        },
    }
}

/// The members of the flat JSON object that `s` holds, with nothing but
/// white space around it.
pub open spec fn json_object(s: Seq<char>) -> Option<Seq<(Seq<char>, Seq<char>)>> {
    let i = skip_ws(s, 0);
    if 0 <= i < s.len() && s[i] == '{' {
        let j = skip_ws(s, i + 1);
        let body = if 0 <= j < s.len() && s[j] == '}' {
            Some((Seq::<(Seq<char>, Seq<char>)>::empty(), j + 1))
        } else {
            members(s, j)
        };
        match body {
            Some(b) => if skip_ws(s, b.1) == s.len() {
                Some(b.0)
            } else {
                None
            },
            None => None,
        }
    } else {
        None
    }
}

/// Relies on `char::from_u32`: the character with that scalar value; none
/// for a surrogate or a value past U+10FFFF.
#[verifier::external_body]
fn char_from_u32(u: u32) -> (r: Option<char>)
    ensures
        (u < 0xD800 || (0xE000 <= u && u <= 0x10FFFF)) ==> r == Some(u as char),
        !(u < 0xD800 || (0xE000 <= u && u <= 0x10FFFF)) ==> r is None,
{
    char::from_u32(u)
}

fn skip_ws_exec(v: &Vec<char>, i: usize) -> (r: usize)
    requires
        i <= v@.len(),
    ensures
        r as int == skip_ws(v@, i as int),
        i <= r <= v@.len(),
{
    let mut k = i;
    while k < v.len() && (v[k] == ' ' || v[k] == '\t' || v[k] == '\n' || v[k] == '\r')
        invariant
            i <= k <= v@.len(),
            skip_ws(v@, i as int) == skip_ws(v@, k as int),
        decreases v@.len() - k,
    {
        k = k + 1;
    }
    k
}

fn hex_exec(c: char) -> (r: Option<u32>)
    ensures
        match r {
            Some(x) => hex_val(c) == Some(x as nat),
            None => hex_val(c) is None,
        },
{
    if '0' <= c && c <= '9' {
        Some(c as u32 - '0' as u32)
    } else if 'a' <= c && c <= 'f' {
        Some(c as u32 - 'a' as u32 + 10)
    } else if 'A' <= c && c <= 'F' {
        Some(c as u32 - 'A' as u32 + 10)
    } else {
        None
    }
}

fn hex4_exec(v: &Vec<char>, i: usize) -> (r: Option<u32>)
    ensures
        match r {
            Some(x) => hex4(v@, i as int) == Some(x as nat) && x < 0x10000,
            None => hex4(v@, i as int) is None,
        },
{
    if i > v.len() || v.len() - i < 4 {
        return None;
    }
    let a = hex_exec(v[i]);
    let b = hex_exec(v[i + 1]);
    let c = hex_exec(v[i + 2]);
    let d = hex_exec(v[i + 3]);
    match (a, b, c, d) {
        (Some(a), Some(b), Some(c), Some(d)) => {
            assert(a < 16 && b < 16 && c < 16 && d < 16);
            Some(a * 4096 + b * 256 + c * 16 + d)
        },
        _ => None,
    }
}

fn simple_escape_exec(e: char) -> (r: Option<char>)
    ensures
        r == simple_escape(e),
{
    if e == '"' {
        Some('"')
    } else if e == '\\' {
        Some('\\')
    } else if e == '/' {
        Some('/')
    } else if e == 'b' {
        Some('\u{8}')
    } else if e == 'f' {
        Some('\u{c}')
    } else if e == 'n' {
        Some('\n')
    } else if e == 'r' {
        Some('\r')
    } else if e == 't' {
        Some('\t')
    } else {
        None
    }
}

fn unicode_escape_exec(v: &Vec<char>, i: usize) -> (r: Option<(char, usize)>)
    requires
        i + 1 < v@.len(),
    ensures
        match r {
            Some(p) => unicode_escape(v@, i as int) == Some((p.0, p.1 as int)),
            None => unicode_escape(v@, i as int) is None,
        },
{
    let n = v.len();
    let u = match hex4_exec(v, i + 2) {
        None => return None,
        Some(u) => u,
    };
    if 0xD800 <= u && u < 0xDC00 {
        if v.len() - i >= 12 && v[i + 6] == '\\' && v[i + 7] == 'u' {
            match hex4_exec(v, i + 8) {
                Some(l) => {
                    if 0xDC00 <= l && l < 0xE000 {
                        let cp = 0x10000 + (u - 0xD800) * 0x400 + (l - 0xDC00);
                        assert(cp <= 0x10FFFF) by (nonlinear_arith)
                            requires
                                cp == 0x10000 + (u - 0xD800) * 0x400 + (l - 0xDC00),
                                0xD800 <= u < 0xDC00,
                                0xDC00 <= l < 0xE000,
                        ;
                        assert(cp >= 0x10000) by (nonlinear_arith)
                            requires
                                cp == 0x10000 + (u - 0xD800) * 0x400 + (l - 0xDC00),
                                0xD800 <= u,
                                0xDC00 <= l,
                        ;
                        match char_from_u32(cp) {
                            Some(c) => Some((c, i + 12)),
                            None => None,
                        }
                    } else {
                        None
                    }
                },
                None => None,
            }
        } else {
            None
        }
    } else if 0xDC00 <= u && u < 0xE000 {
        None
    } else {
        match char_from_u32(u) {
            Some(c) => Some((c, i + 6)),
            None => None,
        }
    }
}

fn string_unit_exec(v: &Vec<char>, i: usize) -> (r: Option<(char, usize)>)
    ensures
        match r {
            Some(p) => string_unit(v@, i as int) == Some((p.0, p.1 as int)),
            None => string_unit(v@, i as int) is None,
        },
{
    if i >= v.len() {
        None
    } else if v[i] == '\\' {
        if i + 1 >= v.len() {
            None
        } else if v[i + 1] == 'u' {
            unicode_escape_exec(v, i)
        } else {
            match simple_escape_exec(v[i + 1]) {
                Some(c) => Some((c, i + 2)),
                None => None,
            }
        }
    } else if (v[i] as u32) < 0x20 {
        None
    } else {
        Some((v[i], i + 1))
    }
}

pub open spec fn prefixed(acc: Seq<char>, r: Option<(Seq<char>, int)>) -> Option<(Seq<char>, int)> {
    match r {
        Some(p) => Some((acc + p.0, p.1)),
        None => None,
    }
}

fn string_body_exec(v: &Vec<char>, i: usize) -> (r: Option<(Vec<char>, usize)>)
    ensures
        match r {
            Some(p) => string_body(v@, i as int) == Some((p.0@, p.1 as int)) && p.1 <= v@.len(),
            None => string_body(v@, i as int) is None,
        },
{
    let mut acc: Vec<char> = Vec::new();
    let mut k = i;
    assert(prefixed(acc@, string_body(v@, k as int)) =~= string_body(v@, i as int)) by {
        match string_body(v@, i as int) {
            Some(p) => assert(acc@ + p.0 =~= p.0),
            None => {},
        }
    }
    while k < v.len()
        invariant
            i <= k,
            string_body(v@, i as int) == prefixed(acc@, string_body(v@, k as int)),
        decreases v@.len() - k,
    {
        if v[k] == '"' {
            assert(acc@ + Seq::<char>::empty() =~= acc@);
            return Some((acc, k + 1));
        }
        match string_unit_exec(v, k) {
            None => return None,
            Some((c, j)) => {
                if j <= k {
                    return None;
                }
                let ghost old_acc = acc@;
                acc.push(c);
                proof {
                    match string_body(v@, j as int) {
                        Some(p) => {
                            assert(old_acc + (seq![c] + p.0) =~= acc@ + p.0);
                        },
                        None => {},
                    }
                }
                k = j;
            },
        }
    }
    None
}

fn json_string_exec(v: &Vec<char>, i: usize) -> (r: Option<(Vec<char>, usize)>)
    ensures
        match r {
            Some(p) => json_string(v@, i as int) == Some((p.0@, p.1 as int)) && p.1 <= v@.len(),
            None => json_string(v@, i as int) is None,
        },
{
    if i < v.len() && v[i] == '"' {
        string_body_exec(v, i + 1)
    } else {
        None
    }
}

fn member_exec(v: &Vec<char>, i: usize) -> (r: Option<((Vec<char>, Vec<char>), usize)>)
    ensures
        match r {
            Some(p) => member(v@, i as int) == Some(((p.0.0@, p.0.1@), p.1 as int)) && p.1 <= v@.len(),
            None => member(v@, i as int) is None,
        },
{
    match json_string_exec(v, i) {
        None => None,
        Some((key, after_key)) => {
            let j = skip_ws_exec(v, after_key);
            if j < v.len() && v[j] == ':' {
                let k = skip_ws_exec(v, j + 1);
                match json_string_exec(v, k) {
                    None => None,
                    Some((val, after_val)) => {
                        let e = skip_ws_exec(v, after_val);
                        Some(((key, val), e))
                    },
                }
            } else {
                None
            }
        },
    }
}

pub open spec fn pairs_view(ms: Seq<(Vec<char>, Vec<char>)>) -> Seq<(Seq<char>, Seq<char>)> {
    ms.map_values(|m: (Vec<char>, Vec<char>)| (m.0@, m.1@))
}

pub open spec fn prefixed_members(
    acc: Seq<(Seq<char>, Seq<char>)>,
    r: Option<(Seq<(Seq<char>, Seq<char>)>, int)>,
) -> Option<(Seq<(Seq<char>, Seq<char>)>, int)> {
    match r {
        Some(p) => Some((acc + p.0, p.1)),
        None => None,
    }
}

fn members_exec(v: &Vec<char>, i: usize) -> (r: Option<(Vec<(Vec<char>, Vec<char>)>, usize)>)
    requires
        i <= v@.len(),
    ensures
        match r {
            Some(p) => members(v@, i as int) == Some((pairs_view(p.0@), p.1 as int)) && p.1 <= v@.len(),
            None => members(v@, i as int) is None,
        },
{
    let mut acc: Vec<(Vec<char>, Vec<char>)> = Vec::new();
    let mut k = i;
    assert(prefixed_members(pairs_view(acc@), members(v@, k as int)) =~= members(v@, i as int)) by {
        match members(v@, i as int) {
            Some(p) => assert(pairs_view(acc@) + p.0 =~= p.0),
            None => {},
        }
    }
    loop
        invariant
            i <= k <= v@.len(),
            members(v@, i as int) == prefixed_members(pairs_view(acc@), members(v@, k as int)),
        decreases v@.len() - k,
    {
        match member_exec(v, k) {
            None => return None,
            Some((m, j)) => {
                let ghost mv = (m.0@, m.1@);
                let ghost old_acc = pairs_view(acc@);
                acc.push(m);
                assert(pairs_view(acc@) =~= old_acc.push(mv));
                if j < v.len() && v[j] == '}' {
                    assert(old_acc + seq![mv] =~= pairs_view(acc@));
                    return Some((acc, j + 1));
                } else if j < v.len() && v[j] == ',' {
                    let n = skip_ws_exec(v, j + 1);
                    if n <= k {
                        return None;
                    }
                    proof {
                        match members(v@, n as int) {
                            Some(p) => {
                                assert(old_acc + (seq![mv] + p.0) =~= pairs_view(acc@) + p.0);
                            },
                            None => {},
                        }
                    }
                    k = n;
                } else {
                    return None;
                }
            },
        }
    }
}

/// Parses one line as a flat JSON object of string members.
pub fn parse_json_object(line: &Vec<char>) -> (r: Option<Vec<(Vec<char>, Vec<char>)>>)
    ensures
        match r {
            Some(ms) => json_object(line@) == Some(pairs_view(ms@)),
            None => json_object(line@) is None,
        },
{
    let i = skip_ws_exec(line, 0);
    if i < line.len() && line[i] == '{' {
        let j = skip_ws_exec(line, i + 1);
        let body = if j < line.len() && line[j] == '}' {
            let empty: Vec<(Vec<char>, Vec<char>)> = Vec::new();
            assert(pairs_view(empty@) =~= Seq::<(Seq<char>, Seq<char>)>::empty());
            Some((empty, j + 1))
        } else {
            members_exec(line, j)
        };
        match body {
            Some((ms, e)) => {
                if skip_ws_exec(line, e) == line.len() {
                    Some(ms)
                } else {
                    None
                }
            },
            None => None,
        }
    } else {
        None
    }
}

/// The value of the first member named `key` at or after `j`.
pub open spec fn lookup(ms: Seq<(Seq<char>, Seq<char>)>, key: Seq<char>, j: int) -> Option<Seq<char>>
    decreases ms.len() - j,
{
    if j < 0 || j >= ms.len() {
        None
    } else if ms[j].0 == key {
        Some(ms[j].1)
    } else {
        lookup(ms, key, j + 1)
    }
}

pub open spec fn json_row(ms: Seq<(Seq<char>, Seq<char>)>) -> DockerRowView {
    DockerRowView {
        id: lookup(ms, "ID"@, 0),
        name: lookup(ms, "Name"@, 0),
        cpu: lookup(ms, "CPUPerc"@, 0),
        mem_usage: lookup(ms, "MemUsage"@, 0),
        mem_pct: lookup(ms, "MemPerc"@, 0),
        net_io: lookup(ms, "NetIO"@, 0),
        block_io: lookup(ms, "BlockIO"@, 0),
        pids: lookup(ms, "PIDs"@, 0),
    }
}

/// A name that stands for no live container: missing, empty, or the
/// placeholder `--` (also seen as `\u{2014}-`).
pub open spec fn is_placeholder(name: Option<Seq<char>>) -> bool {
    match name {
        None => true,
        Some(n) => n.len() == 0 || n == "--"@ || n == "\u{2014}-"@,
    }
}

/// The record of one line: none where the line is not a flat JSON object,
/// names a placeholder container, or names no container id.
pub open spec fn json_line_record(line: Seq<char>) -> Seq<RecordView> {
    match json_object(line) {
        None => Seq::empty(),
        Some(ms) => if is_placeholder(json_row(ms).name) {
            Seq::empty()
        } else {
            match docker_record(json_row(ms)) {
                Some(r) => seq![r],
                None => Seq::empty(),
            }
        },
    }
}

pub open spec fn json_records(ls: Seq<Seq<char>>) -> Seq<RecordView>
    decreases ls.len(),
{
    if ls.len() == 0 {
        Seq::empty()
    } else {
        json_records(ls.drop_last()) + json_line_record(ls.last())
    }
}

/// The records of a JSON-lines listing, in order.
pub open spec fn parse_json_lines(s: Seq<char>) -> Seq<RecordView> {
    json_records(lines(s))
}

fn lookup_exec(ms: &Vec<(Vec<char>, Vec<char>)>, key: &str) -> (r: Option<Vec<char>>)
    ensures
        opt_chars(r) == lookup(pairs_view(ms@), key@, 0),
{
    let target = chars_of(key);
    let ghost pv = pairs_view(ms@);
    let mut j: usize = 0;
    while j < ms.len()
        invariant
            j <= ms@.len(),
            target@ == key@,
            pv == pairs_view(ms@),
            lookup(pv, key@, 0) == lookup(pv, key@, j as int),
        decreases ms@.len() - j,
    {
        if chars_eq(&ms[j].0, &target) {
            return Some(crate::text::slice_chars(&ms[j].1, 0, ms[j].1.len()));
        }
        j = j + 1;
    }
    None
}

fn json_row_exec(ms: &Vec<(Vec<char>, Vec<char>)>) -> (r: DockerRow)
    ensures
        r@ == json_row(pairs_view(ms@)),
{
    DockerRow {
        id: lookup_exec(ms, "ID"),
        name: lookup_exec(ms, "Name"),
        cpu: lookup_exec(ms, "CPUPerc"),
        mem_usage: lookup_exec(ms, "MemUsage"),
        mem_pct: lookup_exec(ms, "MemPerc"),
        net_io: lookup_exec(ms, "NetIO"),
        block_io: lookup_exec(ms, "BlockIO"),
        pids: lookup_exec(ms, "PIDs"),
    }
}

fn placeholder_exec(name: &Option<Vec<char>>) -> (r: bool)
    ensures
        r == is_placeholder(opt_chars(*name)),
{
    match name {
        None => true,
        Some(n) => {
            let dashes = chars_of("--");
            let long = chars_of("\u{2014}-");
            n.len() == 0 || chars_eq(n, &dashes) || chars_eq(n, &long)
        },
    }
}

/// Parses the JSON-lines form of container statistics: one record per line
/// that holds a flat JSON object naming a live container. Other lines are
/// skipped and do not stop the parse.
pub fn parse_docker_json_lines(output: &str) -> (r: Vec<Record>)
    ensures
        records_view(r@) == parse_json_lines(output@),
{
    let text = chars_of(output);
    let ls = split_lines(&text);
    let ghost lv = ls@.map_values(|l: Vec<char>| l@);
    let mut out: Vec<Record> = Vec::new();
    let mut k: usize = 0;
    assert(lv.take(0) =~= Seq::<Seq<char>>::empty());
    assert(records_view(out@) =~= Seq::empty());
    while k < ls.len()
        invariant
            k <= ls@.len(),
            lv == ls@.map_values(|l: Vec<char>| l@),
            lv == lines(output@),
            records_view(out@) == json_records(lv.take(k as int)),
        decreases ls@.len() - k,
    {
        assert(lv.take(k + 1).drop_last() =~= lv.take(k as int));
        assert(lv.take(k + 1).last() == lv[k as int]);
        let ghost before = records_view(out@);
        match parse_json_object(&ls[k]) {
            None => {
                assert(before + Seq::<RecordView>::empty() =~= before);
            },
            Some(ms) => {
                let row = json_row_exec(&ms);
                if placeholder_exec(&row.name) {
                    assert(before + Seq::<RecordView>::empty() =~= before);
                } else {
                    match create_docker_record(&row) {
                        Some(rec) => {
                            push_record(&mut out, rec);
                        },
                        None => {
                            assert(before + Seq::<RecordView>::empty() =~= before);
                        },
                    }
                }
            },
        }
        k = k + 1;
    }
    assert(lv.take(ls@.len() as int) =~= lv);
    out
}

} // verus!
