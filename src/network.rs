//! Network traffic: totals of the interface counters in `/proc/net/dev`,
//! turned into deltas between two reads.
use vstd::prelude::*;
use crate::text::{lines, read_view, parse_u64, parse_u64_spec, split_lines, tokens, tokens_from};
use crate::types::NetworkMetrics;

verus! {

/// Cumulative counters summed over the non-loopback interfaces.
#[derive(Debug, Clone, Copy, PartialEq, Eq, Structural)]
pub struct NetworkStats {
    pub rx_bytes: u64,
    pub tx_bytes: u64,
    pub rx_packets: u64,
    pub tx_packets: u64,
}

pub open spec fn zero_stats() -> NetworkStats {
    NetworkStats { rx_bytes: 0, tx_bytes: 0, rx_packets: 0, tx_packets: 0 }
}

/// `a + b`, or `u64::MAX` when the sum does not fit.
pub open spec fn sat_add(a: u64, b: u64) -> u64 {
    if a + b > u64::MAX { u64::MAX } else { (a + b) as u64 }
}

/// `a - b`, or 0 when `b` is larger: a counter that went back (a reset or a
/// wrap) counts as no traffic.
pub open spec fn sat_sub(a: u64, b: u64) -> u64 {
    if a >= b { (a - b) as u64 } else { 0 }
}

/// The number in the token `t` of `s`, 0 when it is not one.
pub open spec fn number_or_zero(s: Seq<u8>, t: (int, int)) -> u64 {
    match parse_u64_spec(s.subrange(t.0, t.1)) {
        Some(v) => v,
        None => 0,
    }
}

/// Position before the colons that end `s[a..b]`.
pub open spec fn colons_end(s: Seq<u8>, a: int, b: int) -> int
    decreases b - a,
{
    if b > a && s[b - 1] == 58 {
        colons_end(s, a, b - 1)
    } else {
        b
    }
}

/// The token `t`, without its trailing colons, is `lo`.
pub open spec fn is_loopback(s: Seq<u8>, t: (int, int)) -> bool {
    let e = colons_end(s, t.0, t.1);
    e - t.0 == 2 && s[t.0] == 108 && s[t.0 + 1] == 111
}

/// What one line adds to the totals: nothing for a line of fewer than ten
/// fields or for the loopback interface, else the received bytes and
/// packets (fields 1 and 2) and the sent bytes and packets (fields 9 and 10).
pub open spec fn line_counters(s: Seq<u8>, l: (int, int)) -> NetworkStats {
    let toks = tokens_from(s, l.0, l.1);
    if toks.len() < 10 || is_loopback(s, toks[0]) {
        zero_stats()
    } else {
        NetworkStats {
            rx_bytes: number_or_zero(s, toks[1]),
            rx_packets: number_or_zero(s, toks[2]),
            tx_bytes: number_or_zero(s, toks[9]),
            tx_packets: if toks.len() > 10 { number_or_zero(s, toks[10]) } else { 0 },
        }
    }
}

pub open spec fn add_stats(a: NetworkStats, b: NetworkStats) -> NetworkStats {
    NetworkStats {
        rx_bytes: sat_add(a.rx_bytes, b.rx_bytes),
        tx_bytes: sat_add(a.tx_bytes, b.tx_bytes),
        rx_packets: sat_add(a.rx_packets, b.rx_packets),
        tx_packets: sat_add(a.tx_packets, b.tx_packets),
    }
}

/// Totals over the given lines, each sum saturating at `u64::MAX`.
pub open spec fn totals(s: Seq<u8>, ls: Seq<(int, int)>) -> NetworkStats
    decreases ls.len(),
{
    if ls.len() == 0 {
        zero_stats()
    } else {
        add_stats(totals(s, ls.drop_last()), line_counters(s, ls.last()))
    }
}

/// The interface lines: every line but the two header lines.
pub open spec fn interface_lines(s: Seq<u8>) -> Seq<(int, int)> {
    if lines(s).len() <= 2 { Seq::empty() } else { lines(s).subrange(2, lines(s).len() as int) }
}

/// The totals that the text of `/proc/net/dev` gives.
pub open spec fn net_dev_totals(s: Seq<u8>) -> NetworkStats {
    totals(s, interface_lines(s))
}

/// What a read gives: the totals, or nothing when the file could not be read.
pub open spec fn read_stats(content: Option<Seq<u8>>) -> Option<NetworkStats> {
    match content {
        Some(c) => Some(net_dev_totals(c)),
        None => None,
    }
}

/// Traffic between two reads; zero unless both reads succeeded.
pub open spec fn traffic(current: Option<NetworkStats>, previous: Option<NetworkStats>) -> NetworkMetrics {
    match (current, previous) {
        (Some(c), Some(p)) => NetworkMetrics {
            rx_bytes: sat_sub(c.rx_bytes, p.rx_bytes),
            tx_bytes: sat_sub(c.tx_bytes, p.tx_bytes),
            rx_packets: sat_sub(c.rx_packets, p.rx_packets),
            tx_packets: sat_sub(c.tx_packets, p.tx_packets),
        },
        _ => NetworkMetrics { rx_bytes: 0, tx_bytes: 0, rx_packets: 0, tx_packets: 0 },
    }
}

fn number_in(s: &[u8], t: (usize, usize)) -> (r: u64)
    requires
        t.0 <= t.1 <= s@.len(),
    ensures
        r == number_or_zero(s@, (t.0 as int, t.1 as int)),
{
    match parse_u64(s, t.0, t.1) {
        Some(v) => v,
        None => 0,
    }
}

fn loopback(s: &[u8], t: (usize, usize)) -> (r: bool)
    requires
        t.0 < t.1 <= s@.len(),
    ensures
        r == is_loopback(s@, (t.0 as int, t.1 as int)),
{
    let mut e = t.1;
    while e > t.0 && s[e - 1] == 58
        invariant
            t.0 <= e <= t.1,
            t.1 <= s@.len(),
            colons_end(s@, t.0 as int, e as int) == colons_end(s@, t.0 as int, t.1 as int),
        decreases e,
    {
        e = e - 1;
    }
    e - t.0 == 2 && s[t.0] == 108 && s[t.0 + 1] == 111
}

fn counters_of_line(s: &[u8], a: usize, b: usize) -> (r: NetworkStats)
    requires
        a <= b <= s@.len(),
    ensures
        r == line_counters(s@, (a as int, b as int)),
{
    let toks = tokens(s, a, b);
    if toks.len() < 10 {
        return NetworkStats { rx_bytes: 0, tx_bytes: 0, rx_packets: 0, tx_packets: 0 };
    }
    if loopback(s, toks[0]) {
        return NetworkStats { rx_bytes: 0, tx_bytes: 0, rx_packets: 0, tx_packets: 0 };
    }
    NetworkStats {
        rx_bytes: number_in(s, toks[1]),
        rx_packets: number_in(s, toks[2]),
        tx_bytes: number_in(s, toks[9]),
        tx_packets: if toks.len() > 10 { number_in(s, toks[10]) } else { 0 },
    }
}

fn add_counters(a: NetworkStats, b: NetworkStats) -> (r: NetworkStats)
    ensures
        r == add_stats(a, b),
{
    NetworkStats {
        rx_bytes: a.rx_bytes.saturating_add(b.rx_bytes),
        tx_bytes: a.tx_bytes.saturating_add(b.tx_bytes),
        rx_packets: a.rx_packets.saturating_add(b.rx_packets),
        tx_packets: a.tx_packets.saturating_add(b.tx_packets),
    }
}

/// Sums the counters of the interface lines of `/proc/net/dev`.
pub fn parse_net_dev(content: &[u8]) -> (r: NetworkStats)
    ensures
        r == net_dev_totals(content@),
{
    let ls = split_lines(content);
    let ghost all = lines(content@);
    let mut acc = NetworkStats { rx_bytes: 0, tx_bytes: 0, rx_packets: 0, tx_packets: 0 };
    if ls.len() <= 2 {
        return acc;
    }
    let mut k: usize = 2;
    while k < ls.len()
        invariant
            2 <= k <= ls@.len(),
            ls@.len() == all.len(),
            all == lines(content@),
            forall|j: int| 0 <= j < ls@.len() ==> (#[trigger] ls@[j]).0 == all[j].0 && ls@[j].1 == all[j].1,
            forall|j: int| 0 <= j < ls@.len() ==> (#[trigger] ls@[j]).0 <= ls@[j].1 <= content@.len(),
            acc == totals(content@, all.subrange(2, k as int)),
        decreases ls@.len() - k,
    {
        let (a, b) = ls[k];
        assert(all.subrange(2, k + 1).drop_last() =~= all.subrange(2, k as int));
        assert(all.subrange(2, k + 1).last() == (a as int, b as int));
        let line = counters_of_line(content, a, b);
        acc = add_counters(acc, line);
        k = k + 1;
    }
    acc
}

/// Network sampler: keeps the totals of the previous read.
pub struct NetworkCollector {
    previous_stats: Option<NetworkStats>,
}

impl NetworkCollector {
    pub closed spec fn previous(&self) -> Option<NetworkStats> {
        self.previous_stats
    }

    /// Starts from a first read of `/proc/net/dev` (`None` when it failed).
    pub fn new(net_dev: Option<&[u8]>) -> (r: NetworkCollector)
        ensures
            r.previous() == read_stats(read_view(net_dev)),
    {
        let previous_stats = match net_dev {
            Some(c) => Some(parse_net_dev(c)),
            None => None,
        };
        NetworkCollector { previous_stats }
    }

    /// Traffic since the previous read, given the current read of
    /// `/proc/net/dev`. Every field is a saturating difference, so a counter
    /// that went back yields 0, never a negative or wrapped value.
    pub fn collect(&mut self, net_dev: Option<&[u8]>) -> (r: NetworkMetrics)
        ensures
            r == traffic(read_stats(read_view(net_dev)), old(self).previous()),
            final(self).previous() == read_stats(read_view(net_dev)),
    {
        let current = match net_dev {
            Some(c) => Some(parse_net_dev(c)),
            None => None,
        };
        let metrics = match (current, self.previous_stats) {
            (Some(c), Some(p)) => NetworkMetrics {
                rx_bytes: c.rx_bytes.saturating_sub(p.rx_bytes),
                tx_bytes: c.tx_bytes.saturating_sub(p.tx_bytes),
                rx_packets: c.rx_packets.saturating_sub(p.rx_packets),
                tx_packets: c.tx_packets.saturating_sub(p.tx_packets),
            },
            _ => NetworkMetrics { rx_bytes: 0, tx_bytes: 0, rx_packets: 0, tx_packets: 0 },
        };
        self.previous_stats = current;
        metrics
    }
}

/// Traffic is never more than the current total and is zero for a counter
/// that went back, over any sequence of reads, resets included.
pub proof fn lemma_traffic_never_negative(current: NetworkStats, previous: NetworkStats)
    ensures
        traffic(Some(current), Some(previous)).rx_bytes <= current.rx_bytes,
        traffic(Some(current), Some(previous)).tx_bytes <= current.tx_bytes,
        current.rx_bytes < previous.rx_bytes ==> traffic(Some(current), Some(previous)).rx_bytes == 0,
        current.tx_bytes < previous.tx_bytes ==> traffic(Some(current), Some(previous)).tx_bytes == 0,
        current.rx_bytes >= previous.rx_bytes ==> traffic(Some(current), Some(previous)).rx_bytes
            == current.rx_bytes - previous.rx_bytes,
        current.tx_bytes >= previous.tx_bytes ==> traffic(Some(current), Some(previous)).tx_bytes
            == current.tx_bytes - previous.tx_bytes,
{
}

} // verus!

verus! {

/// Counters of one interface.
pub struct InterfaceStats {
    pub name: String,
    pub rx_bytes: u64,
    pub tx_bytes: u64,
    pub rx_packets: u64,
    pub tx_packets: u64,
}

pub open spec fn interface_view(i: InterfaceStats) -> (Seq<char>, u64, u64, u64, u64) {
    (i.name@, i.rx_bytes, i.tx_bytes, i.rx_packets, i.tx_packets)
}

/// The interface a line describes: none for a line of fewer than ten fields
/// or for the loopback; else its name without the colon and its counters.
pub open spec fn line_interface(s: Seq<u8>, l: (int, int)) -> Option<(Seq<char>, u64, u64, u64, u64)> {
    let toks = tokens_from(s, l.0, l.1);
    if toks.len() < 10 || is_loopback(s, toks[0]) {
        None
    } else {
        Some((
            crate::text::lossy_text(s.subrange(toks[0].0, colons_end(s, toks[0].0, toks[0].1))),
            number_or_zero(s, toks[1]),
            number_or_zero(s, toks[9]),
            number_or_zero(s, toks[2]),
            if toks.len() > 10 { number_or_zero(s, toks[10]) } else { 0 },
        ))
    }
}

pub open spec fn interfaces_of(s: Seq<u8>, ls: Seq<(int, int)>) -> Seq<(Seq<char>, u64, u64, u64, u64)>
    decreases ls.len(),
{
    if ls.len() == 0 {
        Seq::empty()
    } else {
        let rest = interfaces_of(s, ls.drop_last());
        match line_interface(s, ls.last()) {
            Some(i) => rest.push(i),
            None => rest,
        }
    }
}

fn name_end(s: &[u8], t: (usize, usize)) -> (r: usize)
    requires
        t.0 <= t.1 <= s@.len(),
    ensures
        r == colons_end(s@, t.0 as int, t.1 as int),
        t.0 <= r <= t.1,
{
    let mut e = t.1;
    while e > t.0 && s[e - 1] == 58
        invariant
            t.0 <= e <= t.1,
            t.1 <= s@.len(),
            colons_end(s@, t.0 as int, e as int) == colons_end(s@, t.0 as int, t.1 as int),
        decreases e,
    {
        e = e - 1;
    }
    e
}

/// Whether the line is exactly `01` in its fourth field: an established TCP
/// connection.
pub open spec fn established(s: Seq<u8>, l: (int, int)) -> bool {
    let toks = tokens_from(s, l.0, l.1);
    toks.len() > 3 && toks[3].1 - toks[3].0 == 2 && s[toks[3].0] == 48 && s[toks[3].0 + 1] == 49
}

pub open spec fn count_established(s: Seq<u8>, ls: Seq<(int, int)>) -> nat
    decreases ls.len(),
{
    if ls.len() == 0 {
        0
    } else {
        count_established(s, ls.drop_last()) + if established(s, ls.last()) { 1nat } else { 0nat }
    }
}

/// Established connections in the text of a TCP table: its lines after the
/// header whose state field is `01`.
pub open spec fn table_connections(s: Seq<u8>) -> nat {
    if lines(s).len() <= 1 { 0 } else { count_established(s, lines(s).subrange(1, lines(s).len() as int)) }
}

fn count_in_table(s: &[u8]) -> (r: usize)
    ensures
        r == table_connections(s@),
{
    let ls = split_lines(s);
    let ghost all = lines(s@);
    if ls.len() <= 1 {
        return 0;
    }
    let mut count: usize = 0;
    let mut k: usize = 1;
    while k < ls.len()
        invariant
            1 <= k <= ls@.len(),
            ls@.len() == all.len(),
            all == lines(s@),
            forall|j: int| 0 <= j < ls@.len() ==> (#[trigger] ls@[j]).0 == all[j].0 && ls@[j].1 == all[j].1,
            forall|j: int| 0 <= j < ls@.len() ==> (#[trigger] ls@[j]).0 <= ls@[j].1 <= s@.len(),
            count == count_established(s@, all.subrange(1, k as int)),
            count <= k,
        decreases ls@.len() - k,
    {
        let (a, b) = ls[k];
        assert(all.subrange(1, k + 1).drop_last() =~= all.subrange(1, k as int));
        assert(all.subrange(1, k + 1).last() == (a as int, b as int));
        let toks = tokens(s, a, b);
        if toks.len() > 3 && toks[3].1 - toks[3].0 == 2 && s[toks[3].0] == 48 && s[toks[3].0 + 1] == 49 {
            count = count + 1;
        }
        k = k + 1;
    }
    count
}

impl NetworkCollector {
    /// Per-interface counters of the text of `/proc/net/dev`, loopback left
    /// out; empty when it could not be read.
    pub fn get_interface_stats(&self, net_dev: Option<&[u8]>) -> (r: Vec<InterfaceStats>)
        ensures
            r@.map_values(|i: InterfaceStats| interface_view(i)) == match read_view(net_dev) {
                Some(c) => interfaces_of(c, interface_lines(c)),
                None => Seq::empty(),
            },
    {
        let mut out: Vec<InterfaceStats> = Vec::new();
        let content = match net_dev {
            Some(c) => c,
            None => {
                assert(out@.map_values(|i: InterfaceStats| interface_view(i)) =~= Seq::empty());
                return out;
            },
        };
        let ls = split_lines(content);
        let ghost all = lines(content@);
        if ls.len() <= 2 {
            assert(out@.map_values(|i: InterfaceStats| interface_view(i)) =~= Seq::empty());
            return out;
        }
        let mut k: usize = 2;
        assert(out@.map_values(|i: InterfaceStats| interface_view(i)) =~= interfaces_of(content@, all.subrange(2, 2)));
        while k < ls.len()
            invariant
                2 <= k <= ls@.len(),
                ls@.len() == all.len(),
                all == lines(content@),
                forall|j: int| 0 <= j < ls@.len() ==> (#[trigger] ls@[j]).0 == all[j].0 && ls@[j].1 == all[j].1,
                forall|j: int| 0 <= j < ls@.len() ==> (#[trigger] ls@[j]).0 <= ls@[j].1 <= content@.len(),
                out@.map_values(|i: InterfaceStats| interface_view(i)) == interfaces_of(content@, all.subrange(2, k as int)),
            decreases ls@.len() - k,
        {
            let (a, b) = ls[k];
            assert(all.subrange(2, k + 1).drop_last() =~= all.subrange(2, k as int));
            assert(all.subrange(2, k + 1).last() == (a as int, b as int));
            let toks = tokens(content, a, b);
            if toks.len() >= 10 && !loopback(content, toks[0]) {
                let e = name_end(content, toks[0]);
                let name = crate::text::text_from_bytes(crate::text::copy_range(content, toks[0].0, e).as_slice());
                let item = InterfaceStats {
                    name,
                    rx_bytes: number_in(content, toks[1]),
                    tx_bytes: number_in(content, toks[9]),
                    rx_packets: number_in(content, toks[2]),
                    tx_packets: if toks.len() > 10 { number_in(content, toks[10]) } else { 0 },
                };
                let ghost before = out@;
                let ghost iv = interface_view(item);
                out.push(item);
                assert(out@.map_values(|i: InterfaceStats| interface_view(i))
                    =~= before.map_values(|i: InterfaceStats| interface_view(i)).push(iv));
            }
            k = k + 1;
        }
        assert(all.subrange(2, k as int) =~= interface_lines(content@));
        out
    }

    /// Established TCP connections over the texts of the IPv4 and IPv6
    /// tables (`None` where a table could not be read).
    pub fn count_established_connections(&self, tcp: Option<&[u8]>, tcp6: Option<&[u8]>) -> (r: usize)
        ensures
            ({
                let total = (match read_view(tcp) { Some(c) => table_connections(c), None => 0 })
                    + (match read_view(tcp6) { Some(c) => table_connections(c), None => 0 });
                r == if total > usize::MAX { usize::MAX as int } else { total as int }
            }),
    {
        let first = match tcp {
            Some(c) => count_in_table(c),
            None => 0,
        };
        let second = match tcp6 {
            Some(c) => count_in_table(c),
            None => 0,
        };
        first.saturating_add(second)
    }
}

} // verus!

verus! {

/// Bytes in thousandths of a megabyte (MiB), rounded down.
pub open spec fn milli_mb(bytes: int) -> int {
    bytes * 1000 / 1_048_576
}

impl NetworkCollector {
    /// Received plus sent bytes of the last read, in thousandths of a
    /// megabyte; 0 before any successful read.
    pub fn get_total_mb(&self) -> (r: u64)
        ensures
            r == match self.previous() {
                Some(s) => milli_mb(s.rx_bytes + s.tx_bytes),
                None => 0,
            },
    {
        match self.previous_stats {
            Some(s) => {
                let v: u128 = (s.rx_bytes as u128 + s.tx_bytes as u128) * 1000 / 1_048_576;
                assert(v <= u64::MAX) by (nonlinear_arith)
                    requires v == (s.rx_bytes as int + s.tx_bytes as int) * 1000 / 1_048_576,
                        s.rx_bytes <= u64::MAX, s.tx_bytes <= u64::MAX;
                v as u64
            },
            None => 0,
        }
    }

    /// Received and sent thousandths of a megabyte per second, the totals of
    /// the last read spread over `elapsed_ms` milliseconds; 0 for an empty
    /// interval or before any successful read.
    pub fn get_throughput_mbps(&self, elapsed_ms: u64) -> (r: (u64, u64))
        ensures
            match self.previous() {
                Some(s) if elapsed_ms > 0 => r.0 == milli_mb(s.rx_bytes as int) * 1000 / elapsed_ms as int
                    && r.1 == milli_mb(s.tx_bytes as int) * 1000 / elapsed_ms as int,
                _ => r == (0u64, 0u64),
            },
    {
        match self.previous_stats {
            Some(s) => {
                if elapsed_ms > 0 {
                    (rate_of(s.rx_bytes, elapsed_ms), rate_of(s.tx_bytes, elapsed_ms))
                } else {
                    (0, 0)
                }
            },
            None => (0, 0),
        }
    }
}

fn rate_of(bytes: u64, elapsed_ms: u64) -> (r: u64)
    requires
        elapsed_ms > 0,
    ensures
        r == milli_mb(bytes as int) * 1000 / elapsed_ms as int,
{
    let mb: u128 = bytes as u128 * 1000 / 1_048_576;
    assert(mb * 1000 <= u64::MAX) by (nonlinear_arith)
        requires mb == bytes as int * 1000 / 1_048_576, bytes <= u64::MAX;
    let v: u128 = mb * 1000 / elapsed_ms as u128;
    assert(v <= mb * 1000) by (nonlinear_arith)
        requires v == (mb * 1000) / elapsed_ms as int, elapsed_ms >= 1, mb >= 0;
    v as u64
}

} // verus!

verus! {

/// Total of the traffic deltas over a run of reads of one counter, each
/// delta taken against the read before it.
pub open spec fn delta_total(reads: Seq<u64>) -> int
    decreases reads.len(),
{
    if reads.len() <= 1 {
        0
    } else {
        delta_total(reads.drop_last()) + sat_sub(reads.last(), reads[reads.len() - 2])
    }
}

/// Over any run of reads of a counter, resets included, the deltas never
/// add up to less than zero; when the counter never went back they add up to
/// exactly its growth from the first read to the last.
pub proof fn lemma_deltas_telescope(reads: Seq<u64>)
    requires
        reads.len() > 0,
    ensures
        delta_total(reads) >= 0,
        (forall|i: int| 0 < i < reads.len() ==> reads[i - 1] <= #[trigger] reads[i])
            ==> delta_total(reads) == reads.last() - reads[0],
    decreases reads.len(),
{
    if reads.len() > 1 {
        let rest = reads.drop_last();
        lemma_deltas_telescope(rest);
        if forall|i: int| 0 < i < reads.len() ==> reads[i - 1] <= #[trigger] reads[i] {
            assert forall|i: int| 0 < i < rest.len() implies rest[i - 1] <= #[trigger] rest[i] by {
                assert(reads[i - 1] <= reads[i]);
            }
            assert(reads[reads.len() - 2] <= reads[reads.len() - 1]);
        }
    }
}

} // verus!
