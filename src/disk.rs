//! Disk space and I/O rates. Rates come from the cumulative sector counters
//! of `/proc/diskstats`, diffed against the previous read.
use vstd::prelude::*;
use vstd::utf8::encode_utf8;
use crate::network::{number_or_zero, sat_sub};
use crate::text::{all_digits, read_view, is_digit, lines, parse_u64, split_lines, tokens, tokens_from};
use crate::types::{DiskMetrics, PERCENT_MAX};

verus! {

/// Sectors read and written by one device since boot.
pub struct DiskCounters {
    pub name: Vec<u8>,
    pub read_sectors: u64,
    pub write_sectors: u64,
}

/// Space of one mounted filesystem, as the OS reports it.
pub struct DiskSpace {
    pub name: String,
    pub mount_point: String,
    pub total: u64,
    pub available: u64,
}

pub open spec fn counters_view(c: DiskCounters) -> (Seq<u8>, u64, u64) {
    (c.name@, c.read_sectors, c.write_sectors)
}

pub open spec fn table_view(v: Seq<DiskCounters>) -> Seq<(Seq<u8>, u64, u64)> {
    v.map_values(|c: DiskCounters| counters_view(c))
}

/// `name` is `base` followed by a partition number: digits, or `p` and
/// digits when `base` itself ends in a digit (`sda1` of `sda`, `nvme0n1p2`
/// of `nvme0n1`, `mmcblk0p1` of `mmcblk0`).
pub open spec fn is_partition_of(name: Seq<u8>, base: Seq<u8>) -> bool {
    let n = base.len() as int;
    let suffix = name.subrange(n, name.len() as int);
    &&& n > 0
    &&& name.len() > n
    &&& name.subrange(0, n) == base
    &&& if is_digit(base.last()) {
        suffix.len() > 1 && suffix[0] == 112 && all_digits(suffix.drop_first())
    } else {
        all_digits(suffix)
    }
}

/// `name` is a partition of one of the devices `names`.
pub open spec fn is_partition_in(name: Seq<u8>, names: Seq<Seq<u8>>) -> bool {
    exists|j: int| 0 <= j < names.len() && is_partition_of(name, #[trigger] names[j])
}

/// The entry a line of `/proc/diskstats` gives: none for a line of fewer
/// than fourteen fields, else the device name (field 2) with the sectors
/// read (field 5) and written (field 9).
pub open spec fn line_entry(s: Seq<u8>, l: (int, int)) -> Option<(Seq<u8>, u64, u64)> {
    let toks = tokens_from(s, l.0, l.1);
    if toks.len() < 14 {
        None
    } else {
        Some((s.subrange(toks[2].0, toks[2].1), number_or_zero(s, toks[5]), number_or_zero(s, toks[9])))
    }
}

pub open spec fn entries_of(s: Seq<u8>, ls: Seq<(int, int)>) -> Seq<(Seq<u8>, u64, u64)>
    decreases ls.len(),
{
    if ls.len() == 0 {
        Seq::empty()
    } else {
        let rest = entries_of(s, ls.drop_last());
        match line_entry(s, ls.last()) {
            Some(e) => rest.push(e),
            None => rest,
        }
    }
}

pub open spec fn names_of(t: Seq<(Seq<u8>, u64, u64)>) -> Seq<Seq<u8>> {
    t.map_values(|e: (Seq<u8>, u64, u64)| e.0)
}

/// The entries of `t` that are not partitions of a device in `names`.
pub open spec fn whole_disks(t: Seq<(Seq<u8>, u64, u64)>, names: Seq<Seq<u8>>) -> Seq<(Seq<u8>, u64, u64)>
    decreases t.len(),
{
    if t.len() == 0 {
        Seq::empty()
    } else {
        let rest = whole_disks(t.drop_last(), names);
        if is_partition_in(t.last().0, names) { rest } else { rest.push(t.last()) }
    }
}

/// Every device line of the text of `/proc/diskstats`, in file order.
pub open spec fn device_entries(s: Seq<u8>) -> Seq<(Seq<u8>, u64, u64)> {
    entries_of(s, lines(s))
}

/// The per-device counters that the text of `/proc/diskstats` gives, in
/// file order: the whole devices, each partition being left out so that it
/// is not counted twice with its device.
pub open spec fn diskstats_entries(s: Seq<u8>) -> Seq<(Seq<u8>, u64, u64)> {
    whole_disks(device_entries(s), names_of(device_entries(s)))
}

/// Counters of the last entry named `name`, as a later line replaces an
/// earlier one.
pub open spec fn lookup(table: Seq<(Seq<u8>, u64, u64)>, name: Seq<u8>) -> Option<(u64, u64)>
    decreases table.len(),
{
    if table.len() == 0 {
        None
    } else if table.last().0 == name {
        Some((table.last().1, table.last().2))
    } else {
        lookup(table.drop_last(), name)
    }
}

/// `name` without any leading `/dev/`.
pub open spec fn strip_dev(name: Seq<u8>) -> Seq<u8>
    decreases name.len(),
{
    if name.len() >= 5 && name.subrange(0, 5) == seq![47u8, 100, 101, 118, 47] {
        strip_dev(name.subrange(5, name.len() as int))
    } else {
        name
    }
}

/// `name` without its trailing digits.
pub open spec fn strip_digits(name: Seq<u8>) -> Seq<u8>
    decreases name.len(),
{
    if name.len() > 0 && is_digit(name.last()) {
        strip_digits(name.drop_last())
    } else {
        name
    }
}

/// Thousandths of a megabyte per second for a count of 512-byte sectors
/// moved during the nominal sampling interval of `interval_secs` seconds:
/// `sectors * 512 / 2^20 / interval_secs` megabytes.
pub open spec fn sectors_rate(sectors: u64, interval_secs: u64) -> u64 {
    (sectors as int * 1000 / (2048 * interval_secs as int)) as u64
}

pub open spec fn rates_for(current: Seq<(Seq<u8>, u64, u64)>, previous: Seq<(Seq<u8>, u64, u64)>, name: Seq<u8>, interval_secs: u64) -> Option<(u64, u64)> {
    match (lookup(current, name), lookup(previous, name)) {
        (Some(c), Some(p)) => Some((sectors_rate(sat_sub(c.0, p.0), interval_secs), sectors_rate(sat_sub(c.1, p.1), interval_secs))),
        _ => None,
    }
}

/// Read and write rates of the disk named `name`: the device name without
/// `/dev/`, or else that name without its trailing digits, is looked up in
/// both reads; 0 when neither is in both.
pub open spec fn io_rates(current: Seq<(Seq<u8>, u64, u64)>, previous: Seq<(Seq<u8>, u64, u64)>, name: Seq<u8>, interval_secs: u64) -> (u64, u64) {
    let device = strip_dev(name);
    match rates_for(current, previous, device, interval_secs) {
        Some(r) => r,
        None => match rates_for(current, previous, strip_digits(device), interval_secs) {
            Some(r) => r,
            None => (0, 0),
        },
    }
}

/// Usage of a filesystem in thousandths of a percent, 0 when it is empty.
pub open spec fn usage_of(total: u64, used: u64) -> i64 {
    if total > 0 { (used as int * PERCENT_MAX as int / total as int) as i64 } else { 0 }
}

/// The metrics of one filesystem given both reads of the counters.
pub open spec fn disk_metrics_of(
    d: DiskSpace,
    current: Seq<(Seq<u8>, u64, u64)>,
    previous: Seq<(Seq<u8>, u64, u64)>,
    interval_secs: u64,
    m: DiskMetrics,
) -> bool {
    let used = sat_sub(d.total, d.available);
    let rates = io_rates(current, previous, encode_utf8(d.name@), interval_secs);
    &&& m.name == d.name
    &&& m.mount_point == d.mount_point
    &&& m.total == d.total
    &&& m.available == d.available
    &&& m.used == used
    &&& m.usage_percent == usage_of(d.total, used)
    &&& m.read_mb == rates.0
    &&& m.write_mb == rates.1
}

fn entry_of_line(s: &[u8], a: usize, b: usize) -> (r: Option<DiskCounters>)
    requires
        a <= b <= s@.len(),
    ensures
        match (r, line_entry(s@, (a as int, b as int))) {
            (Some(c), Some(e)) => counters_view(c) == e,
            (None, None) => true,
            _ => false,
        },
{
    let toks = tokens(s, a, b);
    if toks.len() < 14 {
        return None;
    }
    let (na, nb) = toks[2];
    let mut name: Vec<u8> = Vec::new();
    let mut k = na;
    while k < nb
        invariant
            na <= k <= nb <= s@.len(),
            name@ == s@.subrange(na as int, k as int),
        decreases nb - k,
    {
        name.push(s[k]);
        k = k + 1;
        assert(name@ =~= s@.subrange(na as int, k as int));
    }
    let read_sectors = match parse_u64(s, toks[5].0, toks[5].1) { Some(v) => v, None => 0 };
    let write_sectors = match parse_u64(s, toks[9].0, toks[9].1) { Some(v) => v, None => 0 };
    Some(DiskCounters { name, read_sectors, write_sectors })
}

/// Whether `name` is `base` followed by a partition number.
fn partition_of(name: &[u8], base: &[u8]) -> (r: bool)
    ensures
        r == is_partition_of(name@, base@),
{
    let n = base.len();
    if n == 0 || name.len() <= n {
        return false;
    }
    let mut k: usize = 0;
    while k < n
        invariant
            k <= n == base@.len() < name@.len(),
            forall|j: int| 0 <= j < k ==> name@[j] == base@[j],
        decreases n - k,
    {
        if name[k] != base[k] {
            assert(name@.subrange(0, n as int)[k as int] != base@[k as int]);
            return false;
        }
        k = k + 1;
    }
    assert(name@.subrange(0, n as int) =~= base@);
    let ghost suffix = name@.subrange(n as int, name@.len() as int);
    let last = base[n - 1];
    if last >= 48 && last <= 57 {
        if name.len() > n + 1 && name[n] == 112 {
            assert(suffix.drop_first() =~= name@.subrange(n + 1, name@.len() as int));
            crate::text::digits_only(name, n + 1, name.len())
        } else {
            false
        }
    } else {
        crate::text::digits_only(name, n, name.len())
    }
}

/// Whether `name` is a partition of one of the devices of `table`.
fn partition_in(name: &[u8], table: &Vec<DiskCounters>) -> (r: bool)
    ensures
        r == is_partition_in(name@, names_of(table_view(table@))),
{
    let ghost names = names_of(table_view(table@));
    let mut j: usize = 0;
    while j < table.len()
        invariant
            j <= table@.len(),
            names == names_of(table_view(table@)),
            forall|k: int| 0 <= k < j ==> !is_partition_of(name@, #[trigger] names[k]),
        decreases table@.len() - j,
    {
        assert(names[j as int] == table@[j as int].name@);
        if partition_of(name, table[j].name.as_slice()) {
            return true;
        }
        j = j + 1;
    }
    false
}

/// The per-device counters of the text of `/proc/diskstats`.
pub fn read_diskstats(content: &[u8]) -> (r: Vec<DiskCounters>)
    ensures
        table_view(r@) == diskstats_entries(content@),
{
    let all = device_lines(content);
    let ghost t = table_view(all@);
    let ghost names = names_of(t);
    let mut out: Vec<DiskCounters> = Vec::new();
    let mut i: usize = 0;
    assert(t.subrange(0, 0) =~= Seq::<(Seq<u8>, u64, u64)>::empty());
    while i < all.len()
        invariant
            i <= all@.len(),
            t == table_view(all@),
            names == names_of(t),
            t == device_entries(content@),
            table_view(out@) == whole_disks(t.subrange(0, i as int), names),
        decreases all@.len() - i,
    {
        assert(t.subrange(0, i + 1).drop_last() =~= t.subrange(0, i as int));
        assert(t.subrange(0, i + 1).last() == counters_view(all@[i as int]));
        let e = &all[i];
        if !partition_in(e.name.as_slice(), &all) {
            let c = DiskCounters {
                name: crate::text::copy_range(e.name.as_slice(), 0, e.name.len()),
                read_sectors: e.read_sectors,
                write_sectors: e.write_sectors,
            };
            assert(e.name@.subrange(0, e.name@.len() as int) =~= e.name@);
            let ghost before = out@;
            out.push(c);
            assert(table_view(out@) =~= table_view(before).push(counters_view(all@[i as int])));
        }
        i = i + 1;
    }
    assert(t.subrange(0, i as int) =~= t);
    out
}

/// Every device line of the text of `/proc/diskstats`.
fn device_lines(content: &[u8]) -> (r: Vec<DiskCounters>)
    ensures
        table_view(r@) == device_entries(content@),
{
    let ls = split_lines(content);
    let ghost all = lines(content@);
    let mut out: Vec<DiskCounters> = Vec::new();
    let mut k: usize = 0;
    while k < ls.len()
        invariant
            k <= ls@.len(),
            ls@.len() == all.len(),
            all == lines(content@),
            forall|j: int| 0 <= j < ls@.len() ==> (#[trigger] ls@[j]).0 == all[j].0 && ls@[j].1 == all[j].1,
            forall|j: int| 0 <= j < ls@.len() ==> (#[trigger] ls@[j]).0 <= ls@[j].1 <= content@.len(),
            table_view(out@) == entries_of(content@, all.subrange(0, k as int)),
        decreases ls@.len() - k,
    {
        let (a, b) = ls[k];
        assert(all.subrange(0, k + 1).drop_last() =~= all.subrange(0, k as int));
        assert(all.subrange(0, k + 1).last() == (a as int, b as int));
        match entry_of_line(content, a, b) {
            Some(c) => {
                out.push(c);
            },
            None => {},
        }
        assert(table_view(out@) =~= entries_of(content@, all.subrange(0, k + 1)));
        k = k + 1;
    }
    assert(all.subrange(0, k as int) =~= all);
    out
}

fn same_bytes(a: &[u8], b: &[u8]) -> (r: bool)
    ensures
        r == (a@ == b@),
{
    if a.len() != b.len() {
        return false;
    }
    let mut i: usize = 0;
    while i < a.len()
        invariant
            i <= a@.len() == b@.len(),
            a@.subrange(0, i as int) == b@.subrange(0, i as int),
        decreases a@.len() - i,
    {
        if a[i] != b[i] {
            return false;
        }
        assert(a@.subrange(0, i + 1) =~= a@.subrange(0, i as int).push(a@[i as int]));
        assert(b@.subrange(0, i + 1) =~= b@.subrange(0, i as int).push(b@[i as int]));
        i = i + 1;
    }
    assert(a@.subrange(0, i as int) =~= a@);
    assert(b@.subrange(0, i as int) =~= b@);
    true
}

fn find(table: &Vec<DiskCounters>, name: &[u8]) -> (r: Option<(u64, u64)>)
    ensures
        r == lookup(table_view(table@), name@),
{
    let mut k = table.len();
    assert(table@.subrange(0, k as int) =~= table@);
    while k > 0
        invariant
            k <= table@.len(),
            lookup(table_view(table@), name@) == lookup(table_view(table@.subrange(0, k as int)), name@),
        decreases k,
    {
        let ghost t = table_view(table@.subrange(0, k as int));
        assert(t.last() == counters_view(table@[k - 1]));
        assert(t.drop_last() =~= table_view(table@.subrange(0, k - 1)));
        if same_bytes(table[k - 1].name.as_slice(), name) {
            return Some((table[k - 1].read_sectors, table[k - 1].write_sectors));
        }
        k = k - 1;
    }
    None
}

fn sector_rate(sectors: u64, interval_secs: u64) -> (r: u64)
    requires
        interval_secs > 0,
    ensures
        r == sectors_rate(sectors, interval_secs),
{
    let d: u128 = 2048 * interval_secs as u128;
    let v: u128 = sectors as u128 * 1000 / d;
    assert(v <= sectors) by (nonlinear_arith)
        requires v == sectors as int * 1000 / d as int, sectors >= 0, d >= 2048;
    v as u64
}

fn rates_in(current: &Vec<DiskCounters>, previous: &Vec<DiskCounters>, name: &[u8], interval_secs: u64) -> (r: Option<(u64, u64)>)
    requires
        interval_secs > 0,
    ensures
        r == rates_for(table_view(current@), table_view(previous@), name@, interval_secs),
{
    match (find(current, name), find(previous, name)) {
        (Some(c), Some(p)) => Some((
            sector_rate(c.0.saturating_sub(p.0), interval_secs),
            sector_rate(c.1.saturating_sub(p.1), interval_secs),
        )),
        _ => None,
    }
}

fn strip_dev_exec(name: &[u8]) -> (r: Vec<u8>)
    ensures
        r@ == strip_dev(name@),
{
    let mut start: usize = 0;
    assert(name@.subrange(0, name@.len() as int) =~= name@);
    while name.len() >= 5 && start <= name.len() - 5 && name[start] == 47 && name[start + 1] == 100
        && name[start + 2] == 101 && name[start + 3] == 118 && name[start + 4] == 47
        invariant
            start <= name@.len(),
            strip_dev(name@) == strip_dev(name@.subrange(start as int, name@.len() as int)),
        decreases name@.len() - start,
    {
        let ghost rest = name@.subrange(start as int, name@.len() as int);
        assert(rest.subrange(0, 5) =~= seq![47u8, 100, 101, 118, 47]);
        assert(rest.subrange(5, rest.len() as int) =~= name@.subrange(start + 5, name@.len() as int));
        start = start + 5;
    }
    let ghost rest = name@.subrange(start as int, name@.len() as int);
    assert(!(rest.len() >= 5 && rest.subrange(0, 5) == seq![47u8, 100, 101, 118, 47])) by {
        if rest.len() >= 5 && rest.subrange(0, 5) == seq![47u8, 100, 101, 118, 47] {
            assert(rest.subrange(0, 5)[0] == name@[start as int]);
            assert(rest.subrange(0, 5)[1] == name@[start + 1]);
            assert(rest.subrange(0, 5)[2] == name@[start + 2]);
            assert(rest.subrange(0, 5)[3] == name@[start + 3]);
            assert(rest.subrange(0, 5)[4] == name@[start + 4]);
        }
    }
    let mut out: Vec<u8> = Vec::new();
    let mut k = start;
    while k < name.len()
        invariant
            start <= k <= name@.len(),
            out@ == name@.subrange(start as int, k as int),
        decreases name@.len() - k,
    {
        out.push(name[k]);
        k = k + 1;
        assert(out@ =~= name@.subrange(start as int, k as int));
    }
    out
}

fn strip_digits_exec(name: &[u8]) -> (r: Vec<u8>)
    ensures
        r@ == strip_digits(name@),
{
    let mut end = name.len();
    assert(name@.subrange(0, end as int) =~= name@);
    while end > 0 && name[end - 1] >= 48 && name[end - 1] <= 57
        invariant
            end <= name@.len(),
            strip_digits(name@) == strip_digits(name@.subrange(0, end as int)),
        decreases end,
    {
        assert(name@.subrange(0, end as int).drop_last() =~= name@.subrange(0, end - 1));
        end = end - 1;
    }
    let mut out: Vec<u8> = Vec::new();
    let mut k: usize = 0;
    while k < end
        invariant
            k <= end <= name@.len(),
            out@ == name@.subrange(0, k as int),
        decreases end - k,
    {
        out.push(name[k]);
        k = k + 1;
        assert(out@ =~= name@.subrange(0, k as int));
    }
    out
}

/// Read and write rates, in thousandths of a megabyte per second, of the
/// disk named `name` between two reads of the counters taken
/// `interval_secs` seconds apart.
pub fn calculate_io_rate(name: &String, current: &Vec<DiskCounters>, previous: &Vec<DiskCounters>, interval_secs: u64) -> (r: (u64, u64))
    requires
        interval_secs > 0,
    ensures
        r == io_rates(table_view(current@), table_view(previous@), encode_utf8(name@), interval_secs),
{
    let device = strip_dev_exec(name.as_str().as_bytes());
    match rates_in(current, previous, device.as_slice(), interval_secs) {
        Some(r) => r,
        None => {
            let base = strip_digits_exec(device.as_slice());
            match rates_in(current, previous, base.as_slice(), interval_secs) {
                Some(r) => r,
                None => (0, 0),
            }
        },
    }
}

/// Disk sampler: keeps the counters of the previous read and the nominal
/// sampling interval.
pub struct DiskCollector {
    previous_stats: Vec<DiskCounters>,
    interval_secs: u64,
}

impl DiskCollector {
    pub closed spec fn previous(&self) -> Seq<(Seq<u8>, u64, u64)> {
        table_view(self.previous_stats@)
    }

    /// Seconds between two reads of the counters.
    pub closed spec fn interval(&self) -> u64 {
        self.interval_secs
    }

    pub open spec fn wf(&self) -> bool {
        self.interval() > 0
    }

    /// Starts from a first read of `/proc/diskstats`, reads being taken
    /// every `interval_secs` seconds; failing to read the file is the
    /// caller's fatal start-up error.
    pub fn new(diskstats: &[u8], interval_secs: u64) -> (r: DiskCollector)
        requires
            interval_secs > 0,
        ensures
            r.previous() == diskstats_entries(diskstats@),
            r.interval() == interval_secs,
            r.wf(),
    {
        DiskCollector { previous_stats: read_diskstats(diskstats), interval_secs }
    }

    /// Metrics of each mounted filesystem, given the current read of
    /// `/proc/diskstats` (`None` when it failed: no counters, so no rates).
    /// Usage is in `[0, 100 %]`; the counters read become the previous ones.
    pub fn collect(&mut self, disks: &Vec<DiskSpace>, diskstats: Option<&[u8]>) -> (r: Vec<DiskMetrics>)
        requires
            old(self).wf(),
        ensures
            final(self).interval() == old(self).interval(),
            r@.len() == disks@.len(),
            forall|i: int| 0 <= i < r@.len() ==> disk_metrics_of(disks@[i],
                match read_view(diskstats) { Some(c) => diskstats_entries(c), None => Seq::empty() },
                old(self).previous(), old(self).interval(), #[trigger] r@[i]),
            forall|i: int| 0 <= i < r@.len() ==> (#[trigger] r@[i]).wf(),
            final(self).previous() == match read_view(diskstats) { Some(c) => diskstats_entries(c), None => Seq::empty() },
    {
        let current = match diskstats {
            Some(c) => read_diskstats(c),
            None => Vec::new(),
        };
        proof {
            if diskstats is None {
                assert(table_view(current@) =~= Seq::empty());
            }
        }
        let mut out: Vec<DiskMetrics> = Vec::new();
        let mut i: usize = 0;
        while i < disks.len()
            invariant
                i <= disks@.len(),
                out@.len() == i,
                self.interval_secs > 0,
                table_view(current@) == match read_view(diskstats) { Some(c) => diskstats_entries(c), None => Seq::empty() },
                forall|j: int| 0 <= j < i ==> disk_metrics_of(disks@[j], table_view(current@),
                    table_view(self.previous_stats@), self.interval_secs, #[trigger] out@[j]),
                forall|j: int| 0 <= j < i ==> (#[trigger] out@[j]).wf(),
            decreases disks@.len() - i,
        {
            let d = &disks[i];
            let used = d.total.saturating_sub(d.available);
            let usage_percent: i64 = if d.total > 0 {
                let p: u128 = used as u128 * 100_000 / d.total as u128;
                assert(p <= 100_000) by (nonlinear_arith)
                    requires p == used as int * 100_000 / d.total as int, used <= d.total, d.total > 0;
                p as i64
            } else {
                0
            };
            let (read_mb, write_mb) = calculate_io_rate(&d.name, &current, &self.previous_stats, self.interval_secs);
            out.push(DiskMetrics {
                name: d.name.clone(),
                mount_point: d.mount_point.clone(),
                total: d.total,
                used,
                available: d.available,
                usage_percent,
                read_mb,
                write_mb,
            });
            i = i + 1;
        }
        self.previous_stats = current;
        out
    }
}


impl DiskCollector {
    /// Collects like `collect`, then gives the largest read plus write rate
    /// of the filesystems, 0 when there is none.
    pub fn get_max_io_rate(&mut self, disks: &Vec<DiskSpace>, diskstats: Option<&[u8]>) -> (r: u128)
        requires
            old(self).wf(),
        ensures
            final(self).interval() == old(self).interval(),
            exists|m: Seq<DiskMetrics>| m.len() == disks@.len()
                && (forall|i: int| 0 <= i < m.len() ==> disk_metrics_of(disks@[i],
                    match read_view(diskstats) { Some(c) => diskstats_entries(c), None => Seq::empty() },
                    old(self).previous(), old(self).interval(), #[trigger] m[i]))
                && r == crate::analyzer::spec_max_disk_io(m),
            final(self).previous() == match read_view(diskstats) { Some(c) => diskstats_entries(c), None => Seq::empty() },
    {
        let metrics = self.collect(disks, diskstats);
        let mut best: u128 = 0;
        let mut i: usize = 0;
        while i < metrics.len()
            invariant
                i <= metrics@.len(),
                best == crate::analyzer::spec_max_disk_io(metrics@.subrange(0, i as int)),
                best <= 2 * (u64::MAX as int),
            decreases metrics@.len() - i,
        {
            assert(metrics@.subrange(0, i + 1).drop_last() =~= metrics@.subrange(0, i as int));
            let v = metrics[i].read_mb as u128 + metrics[i].write_mb as u128;
            if v > best {
                best = v;
            }
            i = i + 1;
        }
        assert(metrics@.subrange(0, i as int) =~= metrics@);
        best
    }
}

} // verus!
