//! Snapshot parser: a total, best-effort mapping from the raw bytes of the
//! diagnostic commands' combined output to a structured metrics snapshot.
//! A missing or malformed metric line leaves that metric at its zero
//! default; the snapshot as a whole is always produced.
//!
//! Fractional quantities (CPU percentage, load averages) are held in
//! thousandths, so `3.2` percent is `3200`.

use vstd::prelude::*;
use crate::numerals::{
    spec_parse_milli, spec_parse_u64, parse_milli, parse_u64,
};
use crate::textscan::{
    byte_views, bytes_eq, contains_sub, find_sub, first_match, has_prefix, has_sub, lines_of,
    split_bytes, split_lines, split_on, starts_with, tokens_of, trim, trim_of, ws_tokens,
};
use vstd::slice::slice_to_vec;

verus! {

// ---------------------------------------------------------------------------
// The marker strings the parser recognises, as byte sequences.
// ---------------------------------------------------------------------------
/// `"%Cpu(s)"`: marks the process-summary CPU line.
pub open spec fn cpu_marker() -> Seq<u8> {
    seq![37u8, 67, 112, 117, 40, 115, 41]
}

/// `"us,"`: the token after the user-mode CPU percentage.
pub open spec fn us_marker() -> Seq<u8> {
    seq![117u8, 115, 44]
}

/// `"sy,"`: the token after the system-mode CPU percentage.
pub open spec fn sy_marker() -> Seq<u8> {
    seq![115u8, 121, 44]
}

/// `"Mem:"`: prefix of the memory summary line.
pub open spec fn mem_prefix() -> Seq<u8> {
    seq![77u8, 101, 109, 58]
}

/// `"Swap:"`: prefix of the swap summary line.
pub open spec fn swap_prefix() -> Seq<u8> {
    seq![83u8, 119, 97, 112, 58]
}

/// `"load average:"`: marks the uptime line.
pub open spec fn load_marker() -> Seq<u8> {
    seq![108u8, 111, 97, 100, 32, 97, 118, 101, 114, 97, 103, 101, 58]
}

fn cpu_marker_bytes() -> (v: Vec<u8>)
    ensures
        v@ == cpu_marker(),
{
    let mut v: Vec<u8> = Vec::new();
    v.push(37);
    v.push(67);
    v.push(112);
    v.push(117);
    v.push(40);
    v.push(115);
    v.push(41);
    proof {
        assert(v@ =~= cpu_marker());
    }
    v
}

fn us_marker_bytes() -> (v: Vec<u8>)
    ensures
        v@ == us_marker(),
{
    let mut v: Vec<u8> = Vec::new();
    v.push(117);
    v.push(115);
    v.push(44);
    proof {
        assert(v@ =~= us_marker());
    }
    v
}

fn sy_marker_bytes() -> (v: Vec<u8>)
    ensures
        v@ == sy_marker(),
{
    let mut v: Vec<u8> = Vec::new();
    v.push(115);
    v.push(121);
    v.push(44);
    proof {
        assert(v@ =~= sy_marker());
    }
    v
}

fn mem_prefix_bytes() -> (v: Vec<u8>)
    ensures
        v@ == mem_prefix(),
{
    let mut v: Vec<u8> = Vec::new();
    v.push(77);
    v.push(101);
    v.push(109);
    v.push(58);
    proof {
        assert(v@ =~= mem_prefix());
    }
    v
}

fn swap_prefix_bytes() -> (v: Vec<u8>)
    ensures
        v@ == swap_prefix(),
{
    let mut v: Vec<u8> = Vec::new();
    v.push(83);
    v.push(119);
    v.push(97);
    v.push(112);
    v.push(58);
    proof {
        assert(v@ =~= swap_prefix());
    }
    v
}

fn load_marker_bytes() -> (v: Vec<u8>)
    ensures
        v@ == load_marker(),
{
    let mut v: Vec<u8> = Vec::new();
    v.push(108);
    v.push(111);
    v.push(97);
    v.push(100);
    v.push(32);
    v.push(97);
    v.push(118);
    v.push(101);
    v.push(114);
    v.push(97);
    v.push(103);
    v.push(101);
    v.push(58);
    proof {
        assert(v@ =~= load_marker());
    }
    v
}

// ---------------------------------------------------------------------------
// Data model
// ---------------------------------------------------------------------------
/// One mounted filesystem, as read from a disk-usage line.
pub struct DiskEntry {
    /// Mount point (the line's sixth whitespace-delimited token).
    pub mount: Vec<u8>,
    /// Total size in bytes.
    pub total_bytes: u64,
    /// Used bytes.
    pub used_bytes: u64,
}

/// The mathematical content of a sequence of disk entries.
pub open spec fn disk_views(es: Seq<DiskEntry>) -> Seq<(Seq<u8>, u64, u64)> {
    es.map_values(|e: DiskEntry| (e.mount@, e.total_bytes, e.used_bytes))
}

pub proof fn lemma_disk_views_push(es: Seq<DiskEntry>, e: DiskEntry)
    ensures
        disk_views(es.push(e)) == disk_views(es).push((e.mount@, e.total_bytes, e.used_bytes)),
{
    assert(disk_views(es.push(e)) =~= disk_views(es).push(
        (e.mount@, e.total_bytes, e.used_bytes),
    ));
}

/// One fully parsed set of metrics. Every numeric field is zero when its
/// source line was missing or malformed; the parser never fails outright.
pub struct MetricsSnapshot {
    /// User plus system CPU percentage, in thousandths of a percent.
    pub cpu_usage_milli: u64,
    /// Total memory in bytes.
    pub memory_total_bytes: u64,
    /// Used memory in bytes.
    pub memory_used_bytes: u64,
    /// Total swap in bytes.
    pub swap_total_bytes: u64,
    /// Used swap in bytes.
    pub swap_used_bytes: u64,
    /// 1/5/15-minute load averages, each in thousandths.
    pub load_average_milli: (u64, u64, u64),
    /// The raw uptime line, verbatim; empty when none was found.
    pub uptime_line: Vec<u8>,
    /// One entry per disk-usage line, in input order.
    pub disk_entries: Vec<DiskEntry>,
}

// ---------------------------------------------------------------------------
// What each metric family extracts, as functions of the input lines.
// ---------------------------------------------------------------------------
/// The first line whose bytes contain `m`, scanning in order.
pub open spec fn first_line_with(ls: Seq<Seq<u8>>, m: Seq<u8>) -> Option<Seq<u8>>
    decreases ls.len(),
{
    if ls.len() == 0 {
        None
    } else {
        match first_line_with(ls.drop_last(), m) {
            Some(l) => Some(l),
            None => if has_sub(ls.last(), m) {
                Some(ls.last())
            } else {
                None
            },
        }
    }
}

/// Once a prefix of the lines yields a first match, further lines do not
/// change it.
pub proof fn lemma_first_line_with_extend(ls: Seq<Seq<u8>>, m: Seq<u8>, k: int)
    requires
        0 <= k <= ls.len(),
        first_line_with(ls.take(k), m) is Some,
    ensures
        first_line_with(ls, m) == first_line_with(ls.take(k), m),
    decreases ls.len() - k,
{
    if k < ls.len() {
        assert(ls.take(k + 1).drop_last() =~= ls.take(k));
        assert(first_line_with(ls.take(k + 1), m) == first_line_with(ls.take(k), m));
        lemma_first_line_with_extend(ls, m, k + 1);
    } else {
        assert(ls.take(k) =~= ls);
    }
}

/// Index of the first token equal to `m`, if any.
pub open spec fn first_index_of(toks: Seq<Seq<u8>>, m: Seq<u8>) -> Option<int>
    decreases toks.len(),
{
    if toks.len() == 0 {
        None
    } else {
        match first_index_of(toks.drop_last(), m) {
            Some(i) => Some(i),
            None => if toks.last() == m {
                Some(toks.len() - 1)
            } else {
                None
            },
        }
    }
}

pub proof fn lemma_first_index_of_extend(toks: Seq<Seq<u8>>, m: Seq<u8>, k: int)
    requires
        0 <= k <= toks.len(),
        first_index_of(toks.take(k), m) is Some,
    ensures
        first_index_of(toks, m) == first_index_of(toks.take(k), m),
    decreases toks.len() - k,
{
    if k < toks.len() {
        assert(toks.take(k + 1).drop_last() =~= toks.take(k));
        assert(first_index_of(toks.take(k + 1), m) == first_index_of(toks.take(k), m));
        lemma_first_index_of_extend(toks, m, k + 1);
    } else {
        assert(toks.take(k) =~= toks);
    }
}

/// The numeral value (in thousandths) of `t`, or zero when it is not a
/// numeral that fits.
pub open spec fn milli_or_zero(t: Seq<u8>) -> u64 {
    match spec_parse_milli(t) {
        Some(v) => v,
        None => 0,
    }
}

/// The numeral value of `t`, or zero when it is not a numeral that fits.
pub open spec fn u64_or_zero(t: Seq<u8>) -> u64 {
    match spec_parse_u64(t) {
        Some(v) => v,
        None => 0,
    }
}

/// Addition capped at the largest representable value.
pub open spec fn sat_add(a: u64, b: u64) -> u64 {
    if a + b > u64::MAX {
        u64::MAX
    } else {
        (a + b) as u64
    }
}

/// The contribution one CPU marker token makes: the value of the token
/// immediately before the first occurrence of `m`, or zero when `m` is
/// missing, first, or preceded by a non-numeral.
pub open spec fn marker_contrib(toks: Seq<Seq<u8>>, m: Seq<u8>) -> u64 {
    match first_index_of(toks, m) {
        Some(i) => if i > 0 {
            milli_or_zero(toks[i - 1])
        } else {
            0
        },
        None => 0,
    }
}

/// CPU usage read from one process-summary line: the user-mode and
/// system-mode percentages (the tokens before `us,` and `sy,`) added with
/// saturation.
pub open spec fn cpu_milli_of_line(l: Seq<u8>) -> u64 {
    sat_add(marker_contrib(ws_tokens(l), us_marker()), marker_contrib(ws_tokens(l), sy_marker()))
}

pub open spec fn cpu_milli_of_lines(ls: Seq<Seq<u8>>) -> u64 {
    match first_line_with(ls, cpu_marker()) {
        Some(l) => cpu_milli_of_line(l),
        None => 0,
    }
}

/// CPU usage in thousandths of a percent extracted from the raw output.
pub open spec fn spec_cpu_milli(raw: Seq<u8>) -> u64 {
    cpu_milli_of_lines(split_lines(raw))
}

/// The (total, used) pair from the last line that starts with `pfx` and
/// has at least three tokens; the second and third tokens are the values.
pub open spec fn last_pair_with(ls: Seq<Seq<u8>>, pfx: Seq<u8>) -> Option<(u64, u64)>
    decreases ls.len(),
{
    if ls.len() == 0 {
        None
    } else {
        let l = ls.last();
        if starts_with(l, pfx) && ws_tokens(l).len() >= 3 {
            Some((u64_or_zero(ws_tokens(l)[1]), u64_or_zero(ws_tokens(l)[2])))
        } else {
            last_pair_with(ls.drop_last(), pfx)
        }
    }
}

pub open spec fn pair_or_zero(o: Option<(u64, u64)>) -> (u64, u64) {
    match o {
        Some(p) => p,
        None => (0u64, 0u64),
    }
}

/// (total, used) memory in bytes extracted from the raw output.
pub open spec fn spec_memory(raw: Seq<u8>) -> (u64, u64) {
    pair_or_zero(last_pair_with(split_lines(raw), mem_prefix()))
}

/// (total, used) swap in bytes extracted from the raw output.
pub open spec fn spec_swap(raw: Seq<u8>) -> (u64, u64) {
    pair_or_zero(last_pair_with(split_lines(raw), swap_prefix()))
}

/// The values (in thousandths) of the comma-separated pieces that parse as
/// numerals after trimming, in order; pieces that do not parse are skipped.
pub open spec fn parsed_loads(segs: Seq<Seq<u8>>) -> Seq<u64>
    decreases segs.len(),
{
    if segs.len() == 0 {
        Seq::empty()
    } else {
        let rest = parsed_loads(segs.drop_last());
        match spec_parse_milli(trim_of(segs.last())) {
            Some(v) => rest.push(v),
            None => rest,
        }
    }
}

/// The load values carried by an uptime line: everything after the first
/// `load average:` marker, split on commas, trimmed and parsed.
pub open spec fn load_vals_of_line(l: Seq<u8>) -> Seq<u64> {
    let tail = l.skip(first_match(l, load_marker()) + load_marker().len() as int);
    parsed_loads(split_on(tail, 44))
}

/// The 1/5/15-minute load averages, in thousandths; all zero unless at
/// least three pieces parse.
pub open spec fn load_triple_of_lines(ls: Seq<Seq<u8>>) -> (u64, u64, u64) {
    match first_line_with(ls, load_marker()) {
        Some(l) => {
            let vals = load_vals_of_line(l);
            if vals.len() >= 3 {
                (vals[0], vals[1], vals[2])
            } else {
                (0u64, 0u64, 0u64)
            }
        },
        None => (0u64, 0u64, 0u64),
    }
}

pub open spec fn spec_load_triple(raw: Seq<u8>) -> (u64, u64, u64) {
    load_triple_of_lines(split_lines(raw))
}

/// The raw uptime line, or empty when none contains the marker.
pub open spec fn uptime_of_lines(ls: Seq<Seq<u8>>) -> Seq<u8> {
    match first_line_with(ls, load_marker()) {
        Some(l) => l,
        None => Seq::empty(),
    }
}

pub open spec fn spec_uptime_line(raw: Seq<u8>) -> Seq<u8> {
    uptime_of_lines(split_lines(raw))
}

/// One (mount, total, used) row per line that begins with the filesystem
/// root marker `/` and has at least six tokens, in input order.
pub open spec fn disk_rows(ls: Seq<Seq<u8>>) -> Seq<(Seq<u8>, u64, u64)>
    decreases ls.len(),
{
    if ls.len() == 0 {
        Seq::empty()
    } else {
        let rest = disk_rows(ls.drop_last());
        let l = ls.last();
        if l.len() > 0 && l[0] == 47 && ws_tokens(l).len() >= 6 {
            rest.push((ws_tokens(l)[5], u64_or_zero(ws_tokens(l)[1]), u64_or_zero(ws_tokens(l)[2])))
        } else {
            rest
        }
    }
}

/// The disk rows extracted from the raw output.
pub open spec fn spec_disk_rows(raw: Seq<u8>) -> Seq<(Seq<u8>, u64, u64)> {
    disk_rows(split_lines(raw))
}


/// The snapshot `s` holds exactly what the parser extracts from `raw`.
pub open spec fn snapshot_matches(s: MetricsSnapshot, raw: Seq<u8>) -> bool {
    &&& s.cpu_usage_milli == spec_cpu_milli(raw)
    &&& s.memory_total_bytes == spec_memory(raw).0
    &&& s.memory_used_bytes == spec_memory(raw).1
    &&& s.swap_total_bytes == spec_swap(raw).0
    &&& s.swap_used_bytes == spec_swap(raw).1
    &&& s.load_average_milli == spec_load_triple(raw)
    &&& s.uptime_line@ == spec_uptime_line(raw)
    &&& disk_views(s.disk_entries@) == spec_disk_rows(raw)
}

/// The all-zero snapshot the dashboard starts from.
pub open spec fn is_zero_snapshot(s: MetricsSnapshot) -> bool {
    &&& s.cpu_usage_milli == 0
    &&& s.memory_total_bytes == 0
    &&& s.memory_used_bytes == 0
    &&& s.swap_total_bytes == 0
    &&& s.swap_used_bytes == 0
    &&& s.load_average_milli == (0u64, 0u64, 0u64)
    &&& s.uptime_line@ == Seq::<u8>::empty()
    &&& s.disk_entries@ == Seq::<DiskEntry>::empty()
}

impl Default for MetricsSnapshot {
    /// The zeroed snapshot: every metric at its zero default.
    fn default() -> (s: MetricsSnapshot)
        ensures
            is_zero_snapshot(s),
    {
        MetricsSnapshot {
            cpu_usage_milli: 0,
            memory_total_bytes: 0,
            memory_used_bytes: 0,
            swap_total_bytes: 0,
            swap_used_bytes: 0,
            load_average_milli: (0, 0, 0),
            uptime_line: Vec::new(),
            disk_entries: Vec::new(),
        }
    }
}

// ---------------------------------------------------------------------------
// The parser
// ---------------------------------------------------------------------------
proof fn lemma_first_line_with_has(ls: Seq<Seq<u8>>, m: Seq<u8>)
    ensures
        match first_line_with(ls, m) {
            Some(l) => has_sub(l, m),
            None => true,
        },
    decreases ls.len(),
{
    if ls.len() > 0 {
        lemma_first_line_with_has(ls.drop_last(), m);
    }
}

/// Find the first line whose bytes contain `m`.
fn find_line_with(lines: &Vec<Vec<u8>>, m: &[u8]) -> (r: Option<usize>)
    ensures
        match r {
            Some(i) => i < lines@.len() && first_line_with(byte_views(lines@), m@) == Some(
                lines@[i as int]@,
            ),
            None => first_line_with(byte_views(lines@), m@) is None,
        },
{
    let ghost ls = byte_views(lines@);
    let n = lines.len();
    let mut i: usize = 0;
    proof {
        assert(ls.take(0) =~= Seq::<Seq<u8>>::empty());
    }
    while i < n
        invariant
            0 <= i <= n,
            n == lines@.len(),
            ls == byte_views(lines@),
            first_line_with(ls.take(i as int), m@) is None,
        decreases n - i,
    {
        let hit = contains_sub(lines[i].as_slice(), m);
        proof {
            assert(ls.take(i + 1).drop_last() =~= ls.take(i as int));
            assert(ls.take(i + 1).last() == ls[i as int]);
            assert(ls[i as int] == lines@[i as int]@);
        }
        if hit {
            proof {
                assert(first_line_with(ls.take(i + 1), m@) == Some(lines@[i as int]@));
                lemma_first_line_with_extend(ls, m@, i + 1);
            }
            return Some(i);
        }
        proof {
            assert(first_line_with(ls.take(i + 1), m@) is None);
        }
        i = i + 1;
    }
    proof {
        assert(ls.take(i as int) =~= ls);
    }
    None
}

/// Find the first token equal to `m`.
fn find_token(toks: &Vec<Vec<u8>>, m: &[u8]) -> (r: Option<usize>)
    ensures
        match r {
            Some(i) => i < toks@.len() && first_index_of(byte_views(toks@), m@) == Some(i as int),
            None => first_index_of(byte_views(toks@), m@) is None,
        },
{
    let ghost ts = byte_views(toks@);
    let n = toks.len();
    let mut i: usize = 0;
    proof {
        assert(ts.take(0) =~= Seq::<Seq<u8>>::empty());
    }
    while i < n
        invariant
            0 <= i <= n,
            n == toks@.len(),
            ts == byte_views(toks@),
            first_index_of(ts.take(i as int), m@) is None,
        decreases n - i,
    {
        let hit = bytes_eq(toks[i].as_slice(), m);
        proof {
            assert(ts.take(i + 1).drop_last() =~= ts.take(i as int));
            assert(ts.take(i + 1).last() == ts[i as int]);
            assert(ts[i as int] == toks@[i as int]@);
        }
        if hit {
            proof {
                assert(first_index_of(ts.take(i + 1), m@) == Some(i as int));
                lemma_first_index_of_extend(ts, m@, i + 1);
            }
            return Some(i);
        }
        proof {
            assert(first_index_of(ts.take(i + 1), m@) is None);
        }
        i = i + 1;
    }
    proof {
        assert(ts.take(i as int) =~= ts);
    }
    None
}

/// The value of the token immediately before the first occurrence of `m`.
fn marker_contrib_of(toks: &Vec<Vec<u8>>, m: &[u8]) -> (r: u64)
    ensures
        r == marker_contrib(byte_views(toks@), m@),
{
    match find_token(toks, m) {
        Some(i) => {
            if i > 0 {
                proof {
                    assert(byte_views(toks@)[i - 1] == toks@[i - 1]@);
                }
                match parse_milli(toks[i - 1].as_slice()) {
                    Some(v) => v,
                    None => 0,
                }
            } else {
                0
            }
        },
        None => 0,
    }
}

/// CPU usage in thousandths of a percent, from the first process-summary
/// line among `lines`.
fn cpu_from_lines(lines: &Vec<Vec<u8>>) -> (r: u64)
    ensures
        r == cpu_milli_of_lines(byte_views(lines@)),
{
    let cm = cpu_marker_bytes();
    match find_line_with(lines, cm.as_slice()) {
        Some(i) => {
            let toks = tokens_of(lines[i].as_slice());
            let usm = us_marker_bytes();
            let us = marker_contrib_of(&toks, usm.as_slice());
            let sym = sy_marker_bytes();
            let sy = marker_contrib_of(&toks, sym.as_slice());
            if us > u64::MAX - sy {
                u64::MAX
            } else {
                us + sy
            }
        },
        None => 0,
    }
}

/// The (total, used) pair from the last line starting with `pfx`, or
/// zeros.
fn last_pair_of(lines: &Vec<Vec<u8>>, pfx: &[u8]) -> (r: (u64, u64))
    ensures
        r == pair_or_zero(last_pair_with(byte_views(lines@), pfx@)),
{
    let ghost ls = byte_views(lines@);
    let n = lines.len();
    let mut cur: (u64, u64) = (0, 0);
    let ghost mut curo: Option<(u64, u64)> = None;
    proof {
        assert(ls.take(0) =~= Seq::<Seq<u8>>::empty());
    }
    let mut i: usize = 0;
    while i < n
        invariant
            0 <= i <= n,
            n == lines@.len(),
            ls == byte_views(lines@),
            curo == last_pair_with(ls.take(i as int), pfx@),
            cur == pair_or_zero(curo),
        decreases n - i,
    {
        proof {
            assert(ls.take(i + 1).drop_last() =~= ls.take(i as int));
            assert(ls.take(i + 1).last() == ls[i as int]);
            assert(ls[i as int] == lines@[i as int]@);
        }
        let starts = has_prefix(lines[i].as_slice(), pfx);
        if starts {
            let toks = tokens_of(lines[i].as_slice());
            if toks.len() >= 3 {
                proof {
                    assert(byte_views(toks@).len() == toks@.len());
                    assert(byte_views(toks@)[1] == toks@[1]@);
                    assert(byte_views(toks@)[2] == toks@[2]@);
                }
                let a = match parse_u64(toks[1].as_slice()) {
                    Some(v) => v,
                    None => 0,
                };
                let b = match parse_u64(toks[2].as_slice()) {
                    Some(v) => v,
                    None => 0,
                };
                cur = (a, b);
                proof {
                    curo = Some((a, b));
                }
            } else {
                proof {
                    assert(byte_views(toks@).len() == toks@.len());
                }
            }
        }
        i = i + 1;
    }
    proof {
        assert(ls.take(i as int) =~= ls);
    }
    cur
}

/// The load-average triple and the verbatim uptime line, from the first
/// line among `lines` carrying the load marker.
fn load_from_lines(lines: &Vec<Vec<u8>>) -> (r: ((u64, u64, u64), Vec<u8>))
    ensures
        r.0 == load_triple_of_lines(byte_views(lines@)),
        r.1@ == uptime_of_lines(byte_views(lines@)),
{
    let lm = load_marker_bytes();
    match find_line_with(lines, lm.as_slice()) {
        Some(i) => {
            let line = &lines[i];
            let uptime = slice_to_vec(line.as_slice());
            let pos = match find_sub(line.as_slice(), lm.as_slice()) {
                Some(p) => p,
                None => {
                    proof {
                        lemma_first_line_with_has(byte_views(lines@), lm@);
                    }
                    vstd::pervasive::unreached()
                },
            };
            let llen = line.len();
            proof {
                assert(pos + lm@.len() <= llen);
            }
            let tail = &line.as_slice()[pos + lm.len()..llen];
            proof {
                assert(tail@ =~= line@.skip(
                    first_match(line@, load_marker()) + load_marker().len() as int,
                ));
            }
            let segs = split_bytes(tail, 44);
            let ghost ss = byte_views(segs@);
            let m = segs.len();
            let mut vals: Vec<u64> = Vec::new();
            proof {
                assert(ss.take(0) =~= Seq::<Seq<u8>>::empty());
                assert(vals@ =~= parsed_loads(ss.take(0)));
            }
            let mut k: usize = 0;
            while k < m
                invariant
                    0 <= k <= m,
                    m == segs@.len(),
                    ss == byte_views(segs@),
                    vals@ == parsed_loads(ss.take(k as int)),
                decreases m - k,
            {
                proof {
                    assert(ss.take(k + 1).drop_last() =~= ss.take(k as int));
                    assert(ss.take(k + 1).last() == ss[k as int]);
                    assert(ss[k as int] == segs@[k as int]@);
                }
                let tr = trim(segs[k].as_slice());
                match parse_milli(tr.as_slice()) {
                    Some(v) => {
                        vals.push(v);
                    },
                    None => {},
                }
                k = k + 1;
            }
            proof {
                assert(ss.take(k as int) =~= ss);
                assert(vals@ == load_vals_of_line(line@));
            }
            let triple: (u64, u64, u64) = if vals.len() >= 3 {
                (vals[0], vals[1], vals[2])
            } else {
                (0, 0, 0)
            };
            (triple, uptime)
        },
        None => {
            let v: Vec<u8> = Vec::new();
            proof {
                assert(v@ =~= Seq::<u8>::empty());
            }
            ((0, 0, 0), v)
        },
    }
}

/// The disk entries among `lines`, in input order.
fn disk_from_lines(lines: &Vec<Vec<u8>>) -> (r: Vec<DiskEntry>)
    ensures
        disk_views(r@) == disk_rows(byte_views(lines@)),
{
    let ghost ls = byte_views(lines@);
    let n = lines.len();
    let mut out: Vec<DiskEntry> = Vec::new();
    proof {
        assert(ls.take(0) =~= Seq::<Seq<u8>>::empty());
        assert(disk_views(out@) =~= Seq::<(Seq<u8>, u64, u64)>::empty());
    }
    let mut i: usize = 0;
    while i < n
        invariant
            0 <= i <= n,
            n == lines@.len(),
            ls == byte_views(lines@),
            disk_views(out@) == disk_rows(ls.take(i as int)),
        decreases n - i,
    {
        proof {
            assert(ls.take(i + 1).drop_last() =~= ls.take(i as int));
            assert(ls.take(i + 1).last() == ls[i as int]);
            assert(ls[i as int] == lines@[i as int]@);
        }
        let line = &lines[i];
        if line.len() > 0 && line[0] == 47 {
            let toks = tokens_of(line.as_slice());
            if toks.len() >= 6 {
                proof {
                    assert(byte_views(toks@).len() == toks@.len());
                    assert(byte_views(toks@)[1] == toks@[1]@);
                    assert(byte_views(toks@)[2] == toks@[2]@);
                    assert(byte_views(toks@)[5] == toks@[5]@);
                }
                let total = match parse_u64(toks[1].as_slice()) {
                    Some(v) => v,
                    None => 0,
                };
                let used = match parse_u64(toks[2].as_slice()) {
                    Some(v) => v,
                    None => 0,
                };
                let mount = slice_to_vec(toks[5].as_slice());
                let e = DiskEntry { mount, total_bytes: total, used_bytes: used };
                proof {
                    lemma_disk_views_push(out@, e);
                }
                out.push(e);
            } else {
                proof {
                    assert(byte_views(toks@).len() == toks@.len());
                }
            }
        }
        i = i + 1;
    }
    proof {
        assert(ls.take(i as int) =~= ls);
    }
    out
}

/// Parse the combined output of the diagnostic commands into a snapshot.
///
/// Total over arbitrary bytes: a metric whose line is missing or
/// malformed is left at zero (or empty), and the snapshot is always
/// produced.
pub fn parse(raw: &[u8]) -> (s: MetricsSnapshot)
    ensures
        snapshot_matches(s, raw@),
{
    let lines = lines_of(raw);
    let cpu = cpu_from_lines(&lines);
    let mp = mem_prefix_bytes();
    let mem = last_pair_of(&lines, mp.as_slice());
    let sp = swap_prefix_bytes();
    let swap = last_pair_of(&lines, sp.as_slice());
    let (load, uptime) = load_from_lines(&lines);
    let disks = disk_from_lines(&lines);
    MetricsSnapshot {
        cpu_usage_milli: cpu,
        memory_total_bytes: mem.0,
        memory_used_bytes: mem.1,
        swap_total_bytes: swap.0,
        swap_used_bytes: swap.1,
        load_average_milli: load,
        uptime_line: uptime,
        disk_entries: disks,
    }
}

} // verus!
