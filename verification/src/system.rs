//! Parsers for the procfs and sysfs files that the system collector samples.

use vstd::prelude::*;

use crate::keyed::{entries_view, TextMap};
use crate::paths::{file_name, path_file_name};
use crate::model::{definitions_view, metric_text, push_definition, MetricDefinition, MetricText};
use crate::text::{
    concat2, concat3, decimal_string, decimal_text, all_ascii_digits, all_ascii_digits_in, collect_some, find_char, first_index, last_index,
    lemma_collect_some_step, parse_i64, parse_usize, parsed_i64, parsed_usize, parsed_values,
    parse_u64_radix, rfind_char, starts_with, starts_with_chars, values_of_words, wrapping_sum_of, wrap_sum,
    copy_span, find_run, first_occurrence, is_ascii_digit, string_of, trim, trim_span, line_spans, lines, parse_u64, parsed_u64, spans_of, to_chars, word_spans, words,
};

verus! {

/// `str::trim_end_matches(':')`.
pub open spec fn trim_end_colons(s: Seq<char>) -> Seq<char>
    decreases s.len(),
{
    if s.len() > 0 && s.last() == ':' {
        trim_end_colons(s.drop_last())
    } else {
        s
    }
}

/// One `/proc/meminfo` line: its first word without trailing colons, and its
/// second word read as KiB and turned into bytes (the multiplication wraps
/// as the release build does).
pub open spec fn meminfo_line(line: Seq<char>) -> Option<(Seq<char>, u64)> {
    let w = words(line);
    if w.len() >= 2 {
        match parsed_u64(w[1], 10) {
            Some(kib) => Some(
                (trim_end_colons(w[0]), ((kib as nat * 1024) % 0x1_0000_0000_0000_0000) as u64),
            ),
            None => None,
        }
    } else {
        None
    }
}

/// The entries of the readable lines, in file order.
pub open spec fn meminfo_entries(ls: Seq<Seq<char>>) -> Seq<(Seq<char>, u64)>
    decreases ls.len(),
{
    if ls.len() == 0 {
        seq![]
    } else {
        let prev = meminfo_entries(ls.drop_last());
        match meminfo_line(ls.last()) {
            Some(e) => prev.push(e),
            None => prev,
        }
    }
}

fn meminfo_line_entry(line: &[char]) -> (r: Option<(String, u64)>)
    ensures
        match r {
            Some(e) => meminfo_line(line@) == Some((e.0@, e.1)),
            None => meminfo_line(line@) is None,
        },
{
    let w = word_spans(line);
    if w.len() < 2 {
        return None;
    }
    let (a, b) = w[0];
    let (c, d) = w[1];
    match parse_u64(&line[c..d]) {
        None => None,
        Some(kib) => {
            let mut end = b;
            assert(line@.subrange(a as int, b as int) == words(line@)[0]);
            while end > a && line[end - 1] == ':'
                invariant
                    a <= end <= b <= line@.len(),
                    trim_end_colons(words(line@)[0]) == trim_end_colons(
                        line@.subrange(a as int, end as int),
                    ),
                decreases end,
            {
                assert(line@.subrange(a as int, end as int).drop_last() =~= line@.subrange(
                    a as int,
                    end - 1,
                ));
                end = end - 1;
            }
            let key = string_of(copy_span(line, a, end).as_slice());
            Some((key, kib.wrapping_mul(1024)))
        },
    }
}

/// Parses `/proc/meminfo`: each line holding a name and a KiB count gives an
/// entry in bytes; lines without a readable count are skipped.
pub fn parse_meminfo(raw: &str) -> (r: TextMap<u64>)
    ensures
        r@ == meminfo_entries(lines(raw@)),
{
    let chars = to_chars(raw);
    let spans = line_spans(chars.as_slice());
    let ghost ls = lines(raw@);
    let mut entries: Vec<(String, u64)> = Vec::new();
    let mut i: usize = 0;
    assert(ls.take(0) =~= Seq::<Seq<char>>::empty());
    while i < spans.len()
        invariant
            chars@ == raw@,
            spans_of(chars@, spans@, ls),
            ls == lines(raw@),
            i <= spans@.len(),
            entries_view(entries@) == meminfo_entries(
                ls.take(i as int),
            ),
        decreases spans@.len() - i,
    {
        let (a, b) = spans[i];
        let line = &chars[a..b];
        assert(ls.take(i + 1).drop_last() =~= ls.take(i as int));
        assert(ls.take(i + 1).last() == line@);
        match meminfo_line_entry(line) {
            Some(e) => {
                entries.push(e);
            },
            None => {},
        }
        assert(entries_view(entries@) =~= meminfo_entries(
            ls.take(i + 1),
        ));
        i = i + 1;
    }
    assert(ls.take(spans@.len() as int) =~= ls);
    TextMap { entries }
}

/// One `/proc/<pid>/stat` record.
#[derive(Debug, Clone)]
pub struct ProcStat {
    pub pid: u32,
    pub name: String,
    pub cpu_ticks: u64,
    pub rss_pages: i64,
    pub cpu_core: Option<usize>,
}

/// The byte slicing of a stat record stays in bounds: when both parentheses
/// occur, the first `(` precedes the last `)`, which is followed by at least
/// one single-byte character.
pub open spec fn proc_stat_sliceable(raw: Seq<char>) -> bool {
    match (first_index(raw, '('), last_index(raw, ')')) {
        (Some(open), Some(close)) => open < close && close + 1 < raw.len() && (raw[close + 1] as u32)
            < 0x80,
        _ => true,
    }
}

pub open spec fn word_u64(ws: Seq<Seq<char>>, i: int) -> Option<u64> {
    if 0 <= i < ws.len() {
        parsed_u64(ws[i], 10)
    } else {
        None
    }
}

pub open spec fn word_i64(ws: Seq<Seq<char>>, i: int) -> Option<i64> {
    if 0 <= i < ws.len() {
        parsed_i64(ws[i])
    } else {
        None
    }
}

pub open spec fn word_usize(ws: Seq<Seq<char>>, i: int) -> Option<usize> {
    if 0 <= i < ws.len() {
        parsed_usize(ws[i])
    } else {
        None
    }
}

pub open spec fn saturating_add(a: u64, b: u64) -> u64 {
    if a + b > u64::MAX {
        u64::MAX
    } else {
        (a + b) as u64
    }
}

/// The record read from a stat line: the command name between the first `(`
/// and the last `)`, and from the fields after `") "` the user and system
/// ticks (fields 11 and 12), the resident pages (21) and the last CPU (36).
pub open spec fn proc_stat_of(pid: u32, raw: Seq<char>) -> Option<(u32, Seq<char>, u64, i64, Option<usize>)> {
    match (first_index(raw, '('), last_index(raw, ')')) {
        (Some(open), Some(close)) => {
            let fields = words(raw.subrange(close + 2, raw.len() as int));
            match (word_u64(fields, 11), word_u64(fields, 12), word_i64(fields, 21)) {
                (Some(utime), Some(stime), Some(rss)) => Some(
                    (
                        pid,
                        raw.subrange(open + 1, close),
                        saturating_add(utime, stime),
                        rss,
                        word_usize(fields, 36),
                    ),
                ),
                _ => None,
            }
        },
        _ => None,
    }
}

/// Whether `parse_proc_stat` can slice this record.
pub fn proc_stat_is_sliceable(raw: &str) -> (r: bool)
    ensures
        r == proc_stat_sliceable(raw@),
{
    let chars = to_chars(raw);
    let n = chars.len();
    match (find_char(chars.as_slice(), '('), rfind_char(chars.as_slice(), ')')) {
        (Some(open), Some(close)) => open < close && close < n && n - close > 1 && (chars[close + 1] as u32) < 0x80,
        _ => true,
    }
}

fn word_value_u64(s: &[char], spans: &[(usize, usize)], i: usize) -> (r: Option<u64>)
    requires
        spans_of(s@, spans@, words(s@)),
    ensures
        r == word_u64(words(s@), i as int),
{
    if i < spans.len() {
        let (a, b) = spans[i];
        parse_u64(&s[a..b])
    } else {
        None
    }
}

/// Parses one `/proc/<pid>/stat` record.
pub fn parse_proc_stat(pid: u32, raw: &str) -> (r: Option<ProcStat>)
    requires
        proc_stat_sliceable(raw@),
    ensures
        match r {
            Some(p) => proc_stat_of(pid, raw@) == Some(
                (p.pid, p.name@, p.cpu_ticks, p.rss_pages, p.cpu_core),
            ),
            None => proc_stat_of(pid, raw@) is None,
        },
{
    let chars = to_chars(raw);
    let open = match find_char(chars.as_slice(), '(') {
        Some(i) => i,
        None => return None,
    };
    let close = match rfind_char(chars.as_slice(), ')') {
        Some(i) => i,
        None => return None,
    };
    let name = string_of(&chars[open + 1..close]);
    let rest = &chars[close + 2..chars.len()];
    let spans = word_spans(rest);
    let utime = match word_value_u64(rest, spans.as_slice(), 11) {
        Some(v) => v,
        None => return None,
    };
    let stime = match word_value_u64(rest, spans.as_slice(), 12) {
        Some(v) => v,
        None => return None,
    };
    if spans.len() <= 21 {
        return None;
    }
    let (a, b) = spans[21];
    let rss_pages = match parse_i64(&rest[a..b]) {
        Some(v) => v,
        None => return None,
    };
    let cpu_core = if spans.len() > 36 {
        let (c, d) = spans[36];
        parse_usize(&rest[c..d])
    } else {
        None
    };
    Some(ProcStat { pid, name, cpu_ticks: utime.saturating_add(stime), rss_pages, cpu_core })
}

/// Total and idle jiffies from a `cpu` line's counters: idle is the sum of
/// the idle and iowait columns; sums wrap as in the release build.
pub open spec fn cpu_counters(v: Seq<u64>) -> Option<(u64, u64)> {
    if v.len() < 4 {
        None
    } else {
        let iowait: nat = if v.len() > 4 {
            v[4] as nat
        } else {
            0
        };
        Some((wrap_sum(v), ((v[3] + iowait) % 0x1_0000_0000_0000_0000) as u64))
    }
}

fn cpu_counters_of(v: &[u64]) -> (r: Option<(u64, u64)>)
    ensures
        r == cpu_counters(v@),
{
    if v.len() < 4 {
        return None;
    }
    let iowait: u64 = if v.len() > 4 {
        v[4]
    } else {
        0
    };
    Some((wrapping_sum_of(v), v[3].wrapping_add(iowait)))
}

/// The aggregate counters of the first line of `/proc/stat`.
pub open spec fn cpu_times_of(stat: Seq<char>) -> Option<(u64, u64)> {
    let ls = lines(stat);
    if ls.len() == 0 {
        None
    } else {
        let w = words(ls[0]);
        if w.len() == 0 {
            cpu_counters(seq![])
        } else {
            cpu_counters(parsed_values(w.drop_first()))
        }
    }
}

pub fn parse_cpu_times(stat: &str) -> (r: Option<(u64, u64)>)
    ensures
        r == cpu_times_of(stat@),
{
    let chars = to_chars(stat);
    let ls = line_spans(chars.as_slice());
    if ls.len() == 0 {
        return None;
    }
    let (a, b) = ls[0];
    let line = &chars[a..b];
    let spans = word_spans(line);
    if spans.len() == 0 {
        let empty: Vec<u64> = Vec::new();
        return cpu_counters_of(empty.as_slice());
    }
    let values = values_of_words(line, spans.as_slice(), 1);
    assert(words(line@).subrange(1, spans@.len() as int) =~= words(line@).drop_first());
    cpu_counters_of(values.as_slice())
}

/// A per-core `/proc/stat` line: named `cpu` followed by digits only.
pub open spec fn core_line(line: Seq<char>) -> Option<(u64, u64)> {
    let w = words(line);
    if w.len() == 0 {
        None
    } else if w[0] == "cpu"@ || !starts_with(w[0], "cpu"@) || !all_ascii_digits(w[0].subrange(3, w[0].len() as int)) {
        None
    } else {
        cpu_counters(parsed_values(w.drop_first()))
    }
}

fn core_line_counters(line: &[char]) -> (r: Option<(u64, u64)>)
    ensures
        r == core_line(line@),
{
    let spans = word_spans(line);
    if spans.len() == 0 {
        return None;
    }
    let (a, b) = spans[0];
    let name = &line[a..b];
    let cpu = to_chars("cpu");
    proof {
        reveal_strlit("cpu");
    }
    if crate::text::chars_eq(name, cpu.as_slice()) || !starts_with_chars(name, cpu.as_slice()) {
        return None;
    }
    if !all_ascii_digits_in(name, 3, name.len()) {
        return None;
    }
    let values = values_of_words(line, spans.as_slice(), 1);
    assert(words(line@).subrange(1, spans@.len() as int) =~= words(line@).drop_first());
    cpu_counters_of(values.as_slice())
}

/// Per-core counters, in the order the lines appear.
pub fn parse_cpu_core_times(stat: &str) -> (r: Vec<(u64, u64)>)
    ensures
        r@ == collect_some(lines(stat@), |l: Seq<char>| core_line(l)),
{
    let chars = to_chars(stat);
    let spans = line_spans(chars.as_slice());
    let ghost ls = lines(stat@);
    let mut out: Vec<(u64, u64)> = Vec::new();
    let mut i: usize = 0;
    assert(ls.take(0) =~= Seq::<Seq<char>>::empty());
    while i < spans.len()
        invariant
            chars@ == stat@,
            ls == lines(stat@),
            spans_of(chars@, spans@, ls),
            i <= spans@.len(),
            out@ == collect_some(ls.take(i as int), |l: Seq<char>| core_line(l)),
        decreases spans@.len() - i,
    {
        let (a, b) = spans[i];
        proof {
            lemma_collect_some_step(ls, i as int, |l: Seq<char>| core_line(l));
        }
        match core_line_counters(&chars[a..b]) {
            Some(v) => out.push(v),
            None => {},
        }
        i = i + 1;
    }
    assert(ls.take(spans@.len() as int) =~= ls);
    out
}

/// A `/proc/mounts` line: its mount point and the device mounted there.
pub open spec fn mount_line(line: Seq<char>) -> Option<(Seq<char>, Seq<char>)> {
    let w = words(line);
    if w.len() >= 2 {
        Some((w[1], w[0]))
    } else {
        None
    }
}

fn mount_entry(line: &[char]) -> (r: Option<(String, String)>)
    ensures
        match r {
            Some(e) => mount_line(line@) == Some((e.0@, e.1@)),
            None => mount_line(line@) is None,
        },
{
    let w = word_spans(line);
    if w.len() >= 2 {
        let (p, q) = w[1];
        let (c, d) = w[0];
        Some((string_of(&line[p..q]), string_of(&line[c..d])))
    } else {
        None
    }
}

/// The device mounted at each mount point (`/proc/mounts`).
pub fn parse_mounts(raw: &str) -> (r: TextMap<String>)
    ensures
        r@ == collect_some(lines(raw@), |l: Seq<char>| mount_line(l)),
{
    let chars = to_chars(raw);
    let spans = line_spans(chars.as_slice());
    let ghost ls = lines(raw@);
    let mut out: TextMap<String> = TextMap::new();
    let mut i: usize = 0;
    assert(ls.take(0) =~= Seq::<Seq<char>>::empty());
    while i < spans.len()
        invariant
            chars@ == raw@,
            ls == lines(raw@),
            spans_of(chars@, spans@, ls),
            i <= spans@.len(),
            out@ == collect_some(ls.take(i as int), |l: Seq<char>| mount_line(l)),
        decreases spans@.len() - i,
    {
        let (a, b) = spans[i];
        proof {
            lemma_collect_some_step(ls, i as int, |l: Seq<char>| mount_line(l));
        }
        match mount_entry(&chars[a..b]) {
            Some((k, v)) => out.insert(k, v),
            None => {},
        }
        i = i + 1;
    }
    assert(ls.take(spans@.len() as int) =~= ls);
    out
}

/// A number field that falls back to 0 when unreadable.
pub open spec fn u64_or_zero(w: Seq<char>) -> u64 {
    match parsed_u64(w, 10) {
        Some(v) => v,
        None => 0,
    }
}

fn u64_or_zero_of(s: &[char], a: usize, b: usize) -> (r: u64)
    requires
        a <= b <= s@.len(),
    ensures
        r == u64_or_zero(s@.subrange(a as int, b as int)),
{
    match parse_u64(&s[a..b]) {
        Some(v) => v,
        None => 0,
    }
}

/// A `/proc/net/dev` line: a non-loopback interface with its received and
/// transmitted byte counters.
pub open spec fn netdev_line(line: Seq<char>) -> Option<(Seq<char>, (u64, u64))> {
    match first_index(line, ':') {
        None => None,
        Some(colon) => {
            let name = trim(line.take(colon));
            let fields = words(line.subrange(colon + 1, line.len() as int));
            if name == "lo"@ || fields.len() < 16 {
                None
            } else {
                Some((name, (u64_or_zero(fields[0]), u64_or_zero(fields[8]))))
            }
        },
    }
}

fn netdev_entry(line: &[char]) -> (r: Option<(String, (u64, u64))>)
    ensures
        match r {
            Some(e) => netdev_line(line@) == Some((e.0@, e.1)),
            None => netdev_line(line@) is None,
        },
{
    let n = line.len();
    let colon = match find_char(line, ':') {
        Some(c) => c,
        None => return None,
    };
    let head = &line[0..colon];
    let (a, b) = trim_span(head);
    let name = &head[a..b];
    assert(line@.subrange(0, colon as int) =~= line@.take(colon as int));
    let lo = to_chars("lo");
    if crate::text::chars_eq(name, lo.as_slice()) {
        assert(name@ == trim(line@.take(colon as int)));
        assert(netdev_line(line@) is None);
        return None;
    }
    let data = &line[colon + 1..n];
    let fields = word_spans(data);
    if fields.len() < 16 {
        return None;
    }
    let (p, q) = fields[0];
    let (c, d) = fields[8];
    Some((string_of(name), (u64_or_zero_of(data, p, q), u64_or_zero_of(data, c, d))))
}

/// Per-interface byte counters (`/proc/net/dev`, after its two header lines).
pub fn parse_netdev(raw: &str) -> (r: TextMap<(u64, u64)>)
    ensures
        r@ == collect_some(
            if lines(raw@).len() >= 2 {
                lines(raw@).subrange(2, lines(raw@).len() as int)
            } else {
                Seq::<Seq<char>>::empty()
            },
            |l: Seq<char>| netdev_line(l),
        ),
{
    let chars = to_chars(raw);
    let spans = line_spans(chars.as_slice());
    let ghost all = lines(raw@);
    let ghost ls = if all.len() >= 2 {
        all.subrange(2, all.len() as int)
    } else {
        Seq::<Seq<char>>::empty()
    };
    let mut out: TextMap<(u64, u64)> = TextMap::new();
    if spans.len() < 2 {
        assert(out@ =~= collect_some(ls, |l: Seq<char>| netdev_line(l)));
        return out;
    }
    let mut i: usize = 2;
    assert(ls.take(0) =~= Seq::<Seq<char>>::empty());
    while i < spans.len()
        invariant
            chars@ == raw@,
            all == lines(raw@),
            all.len() >= 2,
            ls == all.subrange(2, all.len() as int),
            spans_of(chars@, spans@, all),
            2 <= i <= spans@.len(),
            out@ == collect_some(ls.take(i - 2), |l: Seq<char>| netdev_line(l)),
        decreases spans@.len() - i,
    {
        let (a, b) = spans[i];
        proof {
            lemma_collect_some_step(ls, i - 2, |l: Seq<char>| netdev_line(l));
        }
        assert(ls[i - 2] == chars@.subrange(a as int, b as int));
        match netdev_entry(&chars[a..b]) {
            Some((k, v)) => out.insert(k, v),
            None => {},
        }
        i = i + 1;
    }
    assert(ls.take(spans@.len() - 2) =~= ls);
    out
}

/// One `/proc/diskstats` line: a device with its sectors read and written.
#[derive(Debug, Clone)]
pub struct DiskSectors {
    pub name: String,
    pub sectors_read: u64,
    pub sectors_written: u64,
}

pub open spec fn diskstats_line(line: Seq<char>) -> Option<(Seq<char>, u64, u64)> {
    let w = words(line);
    if w.len() < 10 {
        None
    } else {
        Some((w[2], u64_or_zero(w[5]), u64_or_zero(w[9])))
    }
}

pub open spec fn disk_sectors_view(d: DiskSectors) -> (Seq<char>, u64, u64) {
    (d.name@, d.sectors_read, d.sectors_written)
}

fn diskstats_entry(line: &[char]) -> (r: Option<DiskSectors>)
    ensures
        match r {
            Some(d) => diskstats_line(line@) == Some(disk_sectors_view(d)),
            None => diskstats_line(line@) is None,
        },
{
    let w = word_spans(line);
    if w.len() < 10 {
        return None;
    }
    let (a, b) = w[2];
    let (c, d) = w[5];
    let (e, f) = w[9];
    Some(
        DiskSectors {
            name: string_of(&line[a..b]),
            sectors_read: u64_or_zero_of(line, c, d),
            sectors_written: u64_or_zero_of(line, e, f),
        },
    )
}

/// The sector counters of every device line of `/proc/diskstats`, in order.
pub fn parse_diskstats(raw: &str) -> (r: Vec<DiskSectors>)
    ensures
        r@.map_values(|d: DiskSectors| disk_sectors_view(d)) == collect_some(
            lines(raw@),
            |l: Seq<char>| diskstats_line(l),
        ),
{
    let chars = to_chars(raw);
    let spans = line_spans(chars.as_slice());
    let ghost ls = lines(raw@);
    let mut out: Vec<DiskSectors> = Vec::new();
    let mut i: usize = 0;
    assert(ls.take(0) =~= Seq::<Seq<char>>::empty());
    while i < spans.len()
        invariant
            chars@ == raw@,
            ls == lines(raw@),
            spans_of(chars@, spans@, ls),
            i <= spans@.len(),
            out@.map_values(|d: DiskSectors| disk_sectors_view(d)) == collect_some(
                ls.take(i as int),
                |l: Seq<char>| diskstats_line(l),
            ),
        decreases spans@.len() - i,
    {
        let (a, b) = spans[i];
        proof {
            lemma_collect_some_step(ls, i as int, |l: Seq<char>| diskstats_line(l));
        }
        let ghost before = out@;
        match diskstats_entry(&chars[a..b]) {
            Some(d) => {
                out.push(d);
                assert(out@.map_values(|d: DiskSectors| disk_sectors_view(d)) =~= before.map_values(
                    |d: DiskSectors| disk_sectors_view(d),
                ).push(disk_sectors_view(d)));
            },
            None => {},
        }
        i = i + 1;
    }
    assert(ls.take(spans@.len() as int) =~= ls);
    out
}

/// A device's logical sector size from its `hw_sector_size` file; 512 when the
/// file is unreadable or malformed.
pub open spec fn sector_size_of(text: Option<Seq<char>>) -> u64 {
    match text {
        Some(t) => match parsed_u64(trim(t), 10) {
            Some(v) => v,
            None => 512,
        },
        None => 512,
    }
}

pub fn sector_size(text: Option<&str>) -> (r: u64)
    ensures
        r == sector_size_of(
            match text {
                Some(t) => Some(t@),
                None => None,
            },
        ),
{
    match text {
        Some(t) => {
            let chars = to_chars(t);
            let (a, b) = trim_span(chars.as_slice());
            match parse_u64(&chars[a..b]) {
                Some(v) => v,
                None => 512,
            }
        },
        None => 512,
    }
}

/// Bytes read and written: the sector counters times the sector size
/// (wrapping as in the release build).
pub fn disk_bytes(sectors: &DiskSectors, sector_size: u64) -> (r: (u64, u64))
    ensures
        r.0 == ((sectors.sectors_read as nat * sector_size as nat) % 0x1_0000_0000_0000_0000) as u64,
        r.1 == ((sectors.sectors_written as nat * sector_size as nat) % 0x1_0000_0000_0000_0000) as u64,
{
    (sectors.sectors_read.wrapping_mul(sector_size), sectors.sectors_written.wrapping_mul(sector_size))
}

/// Repeated leading "0x" prefixes removed (`trim_start_matches("0x")`).
pub open spec fn strip_hex_prefixes(t: Seq<char>) -> Seq<char>
    decreases t.len(),
{
    if t.len() >= 2 && t[0] == '0' && t[1] == 'x' {
        strip_hex_prefixes(t.subrange(2, t.len() as int))
    } else {
        t
    }
}

pub open spec fn mla_marker() -> Seq<char> {
    "Total allocated size:"@
}

/// The allocated size reported by the MLA allocator: the first word of the
/// text between the first and the second "Total allocated size:" marker,
/// without "0x" prefixes, read as hexadecimal bytes.
pub open spec fn mla_allocated_bytes(raw: Seq<char>) -> Option<u64> {
    match first_occurrence(raw, mla_marker(), 0) {
        None => None,
        Some(i) => {
            let start = i + mla_marker().len();
            let end = match first_occurrence(raw, mla_marker(), start) {
                Some(j) => j,
                None => raw.len() as int,
            };
            let w = words(raw.subrange(start, end));
            let token = if w.len() > 0 {
                w[0]
            } else {
                Seq::<char>::empty()
            };
            parsed_u64(strip_hex_prefixes(token), 16)
        },
    }
}

pub fn parse_mla_allocated_bytes(raw: &str) -> (r: Option<u64>)
    ensures
        r == mla_allocated_bytes(raw@),
{
    let chars = to_chars(raw);
    let marker = to_chars("Total allocated size:");
    let n = chars.len();
    let i = match find_run(chars.as_slice(), marker.as_slice(), 0) {
        Some(i) => i,
        None => return None,
    };
    let start = i + marker.len();
    let end = match find_run(chars.as_slice(), marker.as_slice(), start) {
        Some(j) => j,
        None => n,
    };
    let piece = &chars[start..end];
    let w = word_spans(piece);
    let (mut a, b) = if w.len() > 0 {
        w[0]
    } else {
        (0, 0)
    };
    assert(piece@.subrange(0, 0) =~= Seq::<char>::empty());
    while b - a >= 2 && piece[a] == '0' && piece[a + 1] == 'x'
        invariant
            a <= b <= piece@.len(),
            strip_hex_prefixes(if w@.len() > 0 { words(piece@)[0] } else { Seq::<char>::empty() })
                == strip_hex_prefixes(piece@.subrange(a as int, b as int)),
        decreases b - a,
    {
        assert(piece@.subrange(a as int, b as int).subrange(2, b - a) =~= piece@.subrange(
            a + 2,
            b as int,
        ));
        a = a + 2;
    }
    parse_u64_radix(&piece[a..b], 16)
}

/// A partition name with its `p<digits>` suffix removed: the text before the
/// last `p` when only digits (possibly none) follow it.
pub open spec fn without_partition_suffix(name: Seq<char>) -> Seq<char> {
    match last_index(name, 'p') {
        Some(k) => if all_ascii_digits(name.subrange(k + 1, name.len() as int)) {
            name.take(k)
        } else {
            name
        },
        None => name,
    }
}

pub fn trim_partition_suffix(name: &str) -> (r: String)
    ensures
        r@ == without_partition_suffix(name@),
{
    let chars = to_chars(name);
    match rfind_char(chars.as_slice(), 'p') {
        Some(k) => if all_ascii_digits_in(chars.as_slice(), k + 1, chars.len()) {
            string_of(&chars[0..k])
        } else {
            string_of(chars.as_slice())
        },
        None => string_of(chars.as_slice()),
    }
}

/// Trailing ASCII digits removed.
pub open spec fn without_trailing_digits(s: Seq<char>) -> Seq<char>
    decreases s.len(),
{
    if s.len() > 0 && is_ascii_digit(s.last()) {
        without_trailing_digits(s.drop_last())
    } else {
        s
    }
}

/// The whole-disk device of a partition device path: NVMe and MMC names drop
/// their `p<N>` suffix, other names their trailing digits.
pub open spec fn block_parent_of(device_path: Seq<char>) -> Option<Seq<char>> {
    match path_file_name(device_path) {
        None => None,
        Some(name) => Some(
            if starts_with(name, "nvme"@) || starts_with(name, "mmcblk"@) {
                without_partition_suffix(name)
            } else {
                without_trailing_digits(name)
            },
        ),
    }
}

pub fn block_parent(device_path: &str) -> (r: Option<String>)
    ensures
        match r {
            Some(p) => block_parent_of(device_path@) == Some(p@),
            None => block_parent_of(device_path@) is None,
        },
{
    let name = match file_name(device_path) {
        Some(n) => n,
        None => return None,
    };
    let chars = to_chars(name.as_str());
    let nvme = to_chars("nvme");
    let mmc = to_chars("mmcblk");
    if starts_with_chars(chars.as_slice(), nvme.as_slice()) || starts_with_chars(
        chars.as_slice(),
        mmc.as_slice(),
    ) {
        return Some(trim_partition_suffix(name.as_str()));
    }
    let mut end = chars.len();
    assert(chars@.take(end as int) =~= chars@);
    while end > 0 && '0' <= chars[end - 1] && chars[end - 1] <= '9'
        invariant
            end <= chars@.len(),
            without_trailing_digits(chars@) == without_trailing_digits(chars@.take(end as int)),
        decreases end,
    {
        assert(chars@.take(end as int).drop_last() =~= chars@.take(end - 1));
        end = end - 1;
    }
    Some(string_of(&chars[0..end]))
}

/// Whether a diskstats device can stand in for a disk of the given kind:
/// an unpartitioned MMC device for "emmc", an unpartitioned NVMe device for
/// "nvme".
pub open spec fn fallback_candidate(prefix: Seq<char>, name: Seq<char>) -> bool {
    if prefix == "emmc"@ {
        starts_with(name, "mmcblk"@) && first_index(name, 'p') is None
    } else if prefix == "nvme"@ {
        starts_with(name, "nvme"@) && first_index(name, 'p') is None
    } else {
        false
    }
}

/// The first name at or after `from` that is a fallback candidate.
pub open spec fn first_candidate(prefix: Seq<char>, names: Seq<Seq<char>>, from: int) -> Option<
    Seq<char>,
>
    decreases names.len() - from,
{
    if from < 0 || from >= names.len() {
        None
    } else if fallback_candidate(prefix, names[from]) {
        Some(names[from])
    } else {
        first_candidate(prefix, names, from + 1)
    }
}

pub open spec fn names_view(names: Seq<String>) -> Seq<Seq<char>> {
    names.map_values(|n: String| n@)
}

fn is_fallback_candidate(prefix: &[char], name: &[char]) -> (r: bool)
    ensures
        r == fallback_candidate(prefix@, name@),
{
    let emmc = to_chars("emmc");
    let nvme = to_chars("nvme");
    let mmc = to_chars("mmcblk");
    if crate::text::chars_eq(prefix, emmc.as_slice()) {
        starts_with_chars(name, mmc.as_slice()) && find_char(name, 'p').is_none()
    } else if crate::text::chars_eq(prefix, nvme.as_slice()) {
        starts_with_chars(name, nvme.as_slice()) && find_char(name, 'p').is_none()
    } else {
        false
    }
}

/// The first device name (in the given order, which is the sorted order of
/// the diskstats map) that can stand in for a disk of kind `prefix`.
pub fn fallback_block_device(prefix: &str, names: &[String]) -> (r: Option<String>)
    ensures
        match r {
            Some(n) => first_candidate(prefix@, names_view(names@), 0) == Some(n@),
            None => first_candidate(prefix@, names_view(names@), 0) is None,
        },
{
    let p = to_chars(prefix);
    let mut i: usize = 0;
    while i < names.len()
        invariant
            i <= names@.len(),
            p@ == prefix@,
            first_candidate(prefix@, names_view(names@), 0) == first_candidate(
                prefix@,
                names_view(names@),
                i as int,
            ),
        decreases names@.len() - i,
    {
        let name = to_chars(names[i].as_str());
        if is_fallback_candidate(p.as_slice(), name.as_slice()) {
            return Some(names[i].clone());
        }
        i = i + 1;
    }
    None
}

/// Whether `names` holds `name`.
pub fn contains_name(names: &[String], name: &str) -> (r: bool)
    ensures
        r == names_view(names@).contains(name@),
{
    let target = to_chars(name);
    let mut i: usize = 0;
    while i < names.len()
        invariant
            i <= names@.len(),
            target@ == name@,
            forall|j: int| 0 <= j < i ==> names@[j]@ != name@,
        decreases names@.len() - i,
    {
        let candidate = to_chars(names[i].as_str());
        if crate::text::chars_eq(candidate.as_slice(), target.as_slice()) {
            assert(names_view(names@)[i as int] == name@);
            return true;
        }
        i = i + 1;
    }
    assert forall|j: int| 0 <= j < names_view(names@).len() implies names_view(names@)[j] != name@ by {}
    false
}

/// The block device whose counters measure the disk of kind `prefix`: the
/// parent of the device mounted at its mount point when diskstats knows it,
/// and otherwise the fallback candidate.
pub open spec fn disk_device_of(prefix: Seq<char>, mount_device: Option<Seq<char>>, names: Seq<Seq<char>>) -> Option<Seq<char>> {
    let parent = match mount_device {
        Some(d) => block_parent_of(d),
        None => None,
    };
    match parent {
        Some(p) => if names.contains(p) {
            Some(p)
        } else {
            first_candidate(prefix, names, 0)
        },
        None => first_candidate(prefix, names, 0),
    }
}

pub fn disk_device(prefix: &str, mount_device: Option<&str>, names: &[String]) -> (r: Option<String>)
    ensures
        match r {
            Some(d) => disk_device_of(
                prefix@,
                match mount_device {
                    Some(m) => Some(m@),
                    None => None,
                },
                names_view(names@),
            ) == Some(d@),
            None => disk_device_of(
                prefix@,
                match mount_device {
                    Some(m) => Some(m@),
                    None => None,
                },
                names_view(names@),
            ) is None,
        },
{
    let parent = match mount_device {
        Some(d) => block_parent(d),
        None => None,
    };
    match parent {
        Some(p) => if contains_name(names, p.as_str()) {
            Some(p)
        } else {
            fallback_block_device(prefix, names)
        },
        None => fallback_block_device(prefix, names),
    }
}

/// Busy and total jiffies between two counter snapshots (saturating), when
/// time has passed.
pub open spec fn cpu_delta_of(prev: (u64, u64), cur: (u64, u64)) -> Option<(u64, u64)> {
    let total = if cur.0 >= prev.0 {
        (cur.0 - prev.0) as u64
    } else {
        0u64
    };
    let idle = if cur.1 >= prev.1 {
        (cur.1 - prev.1) as u64
    } else {
        0u64
    };
    if total > 0 {
        Some((total, idle))
    } else {
        None
    }
}

/// The total and idle jiffy deltas of a CPU between two samples, or `None`
/// when the total did not advance (usage is then unknown).
pub fn cpu_delta(prev: (u64, u64), cur: (u64, u64)) -> (r: Option<(u64, u64)>)
    ensures
        r == cpu_delta_of(prev, cur),
{
    let total = cur.0.saturating_sub(prev.0);
    let idle = cur.1.saturating_sub(prev.1);
    if total > 0 {
        Some((total, idle))
    } else {
        None
    }
}

/// Usage is known whenever the total counter advanced: the delta is then the
/// total's advance with the idle counter's advance (none when the idle counter
/// went back), and it is unknown only when the total did not advance.
pub proof fn lemma_cpu_delta_known_when_time_passed(prev: (u64, u64), cur: (u64, u64))
    ensures
        cur.0 > prev.0 ==> cpu_delta_of(prev, cur) == Some(
            (
                (cur.0 - prev.0) as u64,
                if cur.1 >= prev.1 {
                    (cur.1 - prev.1) as u64
                } else {
                    0u64
                },
            ),
        ),
        cur.0 <= prev.0 ==> cpu_delta_of(prev, cur) is None,
{
}

/// The fixed system metrics: CPU, load, memory, MLA, EV74 CMA and network.
pub open spec fn base_system_metrics() -> Seq<MetricText> {
    seq![
        metric_text("cpu_usage_pct"@, "CPU usage"@, "CPU%"@, "CPU"@, "%"@, "Aggregate Linux CPU utilization."@, Some(80u32), Some(95u32)),
        metric_text("cpu_load_1"@, "CPU load 1m"@, "Load1"@, "CPU"@, "load"@, "Linux 1-minute load average."@, None, None),
        metric_text("cpu_load_1_pct"@, "CPU load 1m percentage"@, "Load%"@, "CPU"@, "%"@, "Linux 1-minute load average normalized by logical CPU core count."@, Some(80u32), Some(95u32)),
        metric_text("linux_mem_used_pct"@, "Linux memory used"@, "Mem%"@, "Memory"@, "%"@, "Linux memory usage based on MemTotal and MemAvailable."@, Some(80u32), Some(90u32)),
        metric_text("linux_mem_used_mb"@, "Linux memory used MB"@, "MemMB"@, "Memory"@, "MB"@, "Linux memory in active use."@, None, None),
        metric_text("mla_mem_allocated_mb"@, "MLA memory allocated"@, "MLAMB"@, "MLA"@, "MB"@, "MLA allocator total allocated size parsed from /dev/simaai-mem."@, None, None),
        metric_text("ev74_cma_total_mb"@, "EV74 CMA reserved"@, "CMATotal"@, "EV74"@, "MB"@, "Boot-time contiguous memory reservation reported by CmaTotal in /proc/meminfo."@, None, None),
        metric_text("ev74_cma_free_mb"@, "EV74 CMA free"@, "CMAFree"@, "EV74"@, "MB"@, "Currently free contiguous memory reported by CmaFree in /proc/meminfo."@, None, None),
        metric_text("ev74_cma_used_mb"@, "EV74 CMA used"@, "CMAUsed"@, "EV74"@, "MB"@, "CmaTotal minus CmaFree; a proxy for EV74 memory consumption when EV74 owns the CMA pool."@, None, None),
        metric_text("net_rx_mbps"@, "Network RX"@, "NetRX"@, "Network"@, "MB/s"@, "Aggregate non-loopback network receive rate."@, None, None),
        metric_text("net_tx_mbps"@, "Network TX"@, "NetTX"@, "Network"@, "MB/s"@, "Aggregate non-loopback network transmit rate."@, None, None)
    ]
}

/// The usage metric of CPU core `idx`.
pub open spec fn core_metric(idx: nat) -> MetricText {
    metric_text(
        "cpu_core_"@ + decimal_text(idx) + "_usage_pct"@,
        "CPU core "@ + decimal_text(idx) + " usage"@,
        "c"@ + decimal_text(idx),
        "CPU"@,
        "%"@,
        "Linux CPU core "@ + decimal_text(idx) + " utilization."@,
        Some(80u32),
        Some(95u32),
    )
}

/// The usage and throughput metrics of one disk.
pub open spec fn disk_metrics(prefix: Seq<char>, label: Seq<char>) -> Seq<MetricText> {
    seq![
        metric_text("disk_"@ + prefix + "_used_pct"@, label + " disk used"@, label + "%"@, "Disk"@, "%"@, label + " filesystem usage."@, Some(80u32), Some(90u32)),
        metric_text("disk_"@ + prefix + "_used_mb"@, label + " disk used MB"@, label + "MB"@, "Disk"@, "MB"@, label + " used space."@, None, None),
        metric_text("disk_"@ + prefix + "_read_mbps"@, label + " read"@, label + "R"@, "DiskIO"@, "MB/s"@, label + " block-device read rate."@, None, None),
        metric_text("disk_"@ + prefix + "_write_mbps"@, label + " write"@, label + "W"@, "DiskIO"@, "MB/s"@, label + " block-device write rate."@, None, None)
    ]
}

/// Every system metric for a board with `cores` CPU cores, with the NVMe
/// disk when it is mounted.
pub open spec fn system_metrics(cores: nat, nvme: bool) -> Seq<MetricText> {
    base_system_metrics() + Seq::new(cores, |i: int| core_metric(i as nat)) + disk_metrics(
        "emmc"@,
        "eMMC"@,
    ) + if nvme {
        disk_metrics("nvme"@, "NVMe"@)
    } else {
        seq![]
    }
}

/// The metrics of one disk, keyed `disk_<prefix>_...` and labelled with `label`.
pub fn disk_metric_definitions(prefix: &str, label: &str) -> (r: Vec<MetricDefinition>)
    ensures
        definitions_view(r@) == disk_metrics(prefix@, label@),
{
    let mut out: Vec<MetricDefinition> = Vec::new();
    let k1 = concat3("disk_", prefix, "_used_pct");
    let l1 = concat2(label, " disk used");
    let s1 = concat2(label, "%");
    let d1 = concat2(label, " filesystem usage.");
    push_definition(&mut out, MetricDefinition::new(k1.as_str(), l1.as_str(), s1.as_str(), "Disk", "%", d1.as_str(), Some(80), Some(90)));
    let k2 = concat3("disk_", prefix, "_used_mb");
    let l2 = concat2(label, " disk used MB");
    let s2 = concat2(label, "MB");
    let d2 = concat2(label, " used space.");
    push_definition(&mut out, MetricDefinition::new(k2.as_str(), l2.as_str(), s2.as_str(), "Disk", "MB", d2.as_str(), None, None));
    let k3 = concat3("disk_", prefix, "_read_mbps");
    let l3 = concat2(label, " read");
    let s3 = concat2(label, "R");
    let d3 = concat2(label, " block-device read rate.");
    push_definition(&mut out, MetricDefinition::new(k3.as_str(), l3.as_str(), s3.as_str(), "DiskIO", "MB/s", d3.as_str(), None, None));
    let k4 = concat3("disk_", prefix, "_write_mbps");
    let l4 = concat2(label, " write");
    let s4 = concat2(label, "W");
    let d4 = concat2(label, " block-device write rate.");
    push_definition(&mut out, MetricDefinition::new(k4.as_str(), l4.as_str(), s4.as_str(), "DiskIO", "MB/s", d4.as_str(), None, None));
    assert(definitions_view(out@) =~= disk_metrics(prefix@, label@));
    out
}

fn core_metric_definition(idx: usize) -> (r: MetricDefinition)
    ensures
        r@ == core_metric(idx as nat),
{
    let n = decimal_string(idx as u64);
    let key = concat3("cpu_core_", n.as_str(), "_usage_pct");
    let label = concat3("CPU core ", n.as_str(), " usage");
    let short = concat2("c", n.as_str());
    let description = concat3("Linux CPU core ", n.as_str(), " utilization.");
    MetricDefinition::new(key.as_str(), label.as_str(), short.as_str(), "CPU", "%", description.as_str(), Some(80), Some(95))
}

/// The system metrics of a board with `core_count` CPU cores; the NVMe disk
/// metrics are included when `/media/nvme` is a mount point.
pub fn system_metric_definitions(core_count: usize, nvme_mounted: bool) -> (r: Vec<MetricDefinition>)
    ensures
        definitions_view(r@) == system_metrics(core_count as nat, nvme_mounted),
{
    let mut out: Vec<MetricDefinition> = Vec::new();
    push_definition(&mut out, MetricDefinition::new("cpu_usage_pct", "CPU usage", "CPU%", "CPU", "%", "Aggregate Linux CPU utilization.", Some(80), Some(95)));
    push_definition(&mut out, MetricDefinition::new("cpu_load_1", "CPU load 1m", "Load1", "CPU", "load", "Linux 1-minute load average.", None, None));
    push_definition(&mut out, MetricDefinition::new("cpu_load_1_pct", "CPU load 1m percentage", "Load%", "CPU", "%", "Linux 1-minute load average normalized by logical CPU core count.", Some(80), Some(95)));
    push_definition(&mut out, MetricDefinition::new("linux_mem_used_pct", "Linux memory used", "Mem%", "Memory", "%", "Linux memory usage based on MemTotal and MemAvailable.", Some(80), Some(90)));
    push_definition(&mut out, MetricDefinition::new("linux_mem_used_mb", "Linux memory used MB", "MemMB", "Memory", "MB", "Linux memory in active use.", None, None));
    push_definition(&mut out, MetricDefinition::new("mla_mem_allocated_mb", "MLA memory allocated", "MLAMB", "MLA", "MB", "MLA allocator total allocated size parsed from /dev/simaai-mem.", None, None));
    push_definition(&mut out, MetricDefinition::new("ev74_cma_total_mb", "EV74 CMA reserved", "CMATotal", "EV74", "MB", "Boot-time contiguous memory reservation reported by CmaTotal in /proc/meminfo.", None, None));
    push_definition(&mut out, MetricDefinition::new("ev74_cma_free_mb", "EV74 CMA free", "CMAFree", "EV74", "MB", "Currently free contiguous memory reported by CmaFree in /proc/meminfo.", None, None));
    push_definition(&mut out, MetricDefinition::new("ev74_cma_used_mb", "EV74 CMA used", "CMAUsed", "EV74", "MB", "CmaTotal minus CmaFree; a proxy for EV74 memory consumption when EV74 owns the CMA pool.", None, None));
    push_definition(&mut out, MetricDefinition::new("net_rx_mbps", "Network RX", "NetRX", "Network", "MB/s", "Aggregate non-loopback network receive rate.", None, None));
    push_definition(&mut out, MetricDefinition::new("net_tx_mbps", "Network TX", "NetTX", "Network", "MB/s", "Aggregate non-loopback network transmit rate.", None, None));
    assert(definitions_view(out@) =~= base_system_metrics());
    let mut idx: usize = 0;
    while idx < core_count
        invariant
            idx <= core_count,
            definitions_view(out@) == base_system_metrics() + Seq::new(
                idx as nat,
                |i: int| core_metric(i as nat),
            ),
        decreases core_count - idx,
    {
        push_definition(&mut out, core_metric_definition(idx));
        assert(base_system_metrics() + Seq::new((idx + 1) as nat, |i: int| core_metric(i as nat))
            =~= (base_system_metrics() + Seq::new(idx as nat, |i: int| core_metric(i as nat))).push(
            core_metric(idx as nat),
        ));
        idx = idx + 1;
    }
    let ghost before = definitions_view(out@);
    let mut emmc = disk_metric_definitions("emmc", "eMMC");
    out.append(&mut emmc);
    assert(definitions_view(out@) =~= before + disk_metrics("emmc"@, "eMMC"@));
    if nvme_mounted {
        let ghost mid = definitions_view(out@);
        let mut nvme = disk_metric_definitions("nvme", "NVMe");
        out.append(&mut nvme);
        assert(definitions_view(out@) =~= mid + disk_metrics("nvme"@, "NVMe"@));
    } else {
        assert(definitions_view(out@) =~= definitions_view(out@) + Seq::<MetricText>::empty());
    }
    out
}

} // verus!
