//! The integer figures of a worker's metrics: network counters summed over
//! the interfaces, and storage summed over the disks.
use vstd::prelude::*;

verus! {

/// Network counters of a worker, summed over its interfaces.
#[derive(Debug, Clone, Copy, PartialEq, Eq, Structural)]
pub struct NetworkMetricsResponse {
    /// Bytes sent.
    pub bytes_sent: u64,
    /// Bytes received.
    pub bytes_recv: u64,
    /// Packets sent.
    pub packets_sent: u64,
    /// Packets received.
    pub packets_recv: u64,
}

/// Counters of one network interface.
#[derive(Debug, Clone, Copy, PartialEq, Eq, Structural)]
pub struct InterfaceCounters {
    /// Bytes transmitted.
    pub transmitted: u64,
    /// Bytes received.
    pub received: u64,
    /// Packets transmitted.
    pub packets_transmitted: u64,
    /// Packets received.
    pub packets_received: u64,
}

/// The sum of one counter, picked by `f`, over the interfaces.
pub open spec fn sum_counter(ifaces: Seq<InterfaceCounters>, f: spec_fn(InterfaceCounters) -> u64) -> nat
    decreases ifaces.len(),
{
    if ifaces.len() == 0 {
        0
    } else {
        sum_counter(ifaces.drop_last(), f) + f(ifaces.last()) as nat
    }
}

/// Bytes transmitted by an interface.
pub open spec fn sent_bytes(c: InterfaceCounters) -> u64 { c.transmitted }
/// Bytes received by an interface.
pub open spec fn recv_bytes(c: InterfaceCounters) -> u64 { c.received }
/// Packets transmitted by an interface.
pub open spec fn sent_packets(c: InterfaceCounters) -> u64 { c.packets_transmitted }
/// Packets received by an interface.
pub open spec fn recv_packets(c: InterfaceCounters) -> u64 { c.packets_received }

proof fn lemma_sum_counter_prefix(s: Seq<InterfaceCounters>, f: spec_fn(InterfaceCounters) -> u64, i: int)
    requires
        0 <= i <= s.len(),
    ensures
        sum_counter(s.take(i), f) <= sum_counter(s, f),
    decreases s.len() - i,
{
    if i < s.len() {
        lemma_sum_counter_prefix(s, f, i + 1);
        assert(s.take(i + 1).drop_last() =~= s.take(i));
    } else {
        assert(s.take(i) =~= s);
    }
}

/// The worker's network counters: each one summed over all interfaces.
pub fn network_totals(ifaces: &Vec<InterfaceCounters>) -> (m: NetworkMetricsResponse)
    requires
        sum_counter(ifaces@, |c: InterfaceCounters| sent_bytes(c)) <= u64::MAX,
        sum_counter(ifaces@, |c: InterfaceCounters| recv_bytes(c)) <= u64::MAX,
        sum_counter(ifaces@, |c: InterfaceCounters| sent_packets(c)) <= u64::MAX,
        sum_counter(ifaces@, |c: InterfaceCounters| recv_packets(c)) <= u64::MAX,
    ensures
        m.bytes_sent == sum_counter(ifaces@, |c: InterfaceCounters| sent_bytes(c)),
        m.bytes_recv == sum_counter(ifaces@, |c: InterfaceCounters| recv_bytes(c)),
        m.packets_sent == sum_counter(ifaces@, |c: InterfaceCounters| sent_packets(c)),
        m.packets_recv == sum_counter(ifaces@, |c: InterfaceCounters| recv_packets(c)),
{
    let ghost fs = |c: InterfaceCounters| sent_bytes(c);
    let ghost fr = |c: InterfaceCounters| recv_bytes(c);
    let ghost ps = |c: InterfaceCounters| sent_packets(c);
    let ghost pr = |c: InterfaceCounters| recv_packets(c);
    let mut m = NetworkMetricsResponse { bytes_sent: 0, bytes_recv: 0, packets_sent: 0, packets_recv: 0 };
    let mut i: usize = 0;
    while i < ifaces.len()
        invariant
            i <= ifaces@.len(),
            fs == (|c: InterfaceCounters| sent_bytes(c)),
            fr == (|c: InterfaceCounters| recv_bytes(c)),
            ps == (|c: InterfaceCounters| sent_packets(c)),
            pr == (|c: InterfaceCounters| recv_packets(c)),
            sum_counter(ifaces@, fs) <= u64::MAX,
            sum_counter(ifaces@, fr) <= u64::MAX,
            sum_counter(ifaces@, ps) <= u64::MAX,
            sum_counter(ifaces@, pr) <= u64::MAX,
            m.bytes_sent == sum_counter(ifaces@.take(i as int), fs),
            m.bytes_recv == sum_counter(ifaces@.take(i as int), fr),
            m.packets_sent == sum_counter(ifaces@.take(i as int), ps),
            m.packets_recv == sum_counter(ifaces@.take(i as int), pr),
        decreases ifaces.len() - i,
    {
        proof {
            assert(ifaces@.take(i + 1).drop_last() =~= ifaces@.take(i as int));
            lemma_sum_counter_prefix(ifaces@, fs, i + 1);
            lemma_sum_counter_prefix(ifaces@, fr, i + 1);
            lemma_sum_counter_prefix(ifaces@, ps, i + 1);
            lemma_sum_counter_prefix(ifaces@, pr, i + 1);
        }
        let c = ifaces[i];
        m.bytes_sent = m.bytes_sent + c.transmitted;
        m.bytes_recv = m.bytes_recv + c.received;
        m.packets_sent = m.packets_sent + c.packets_transmitted;
        m.packets_recv = m.packets_recv + c.packets_received;
        i = i + 1;
    }
    assert(ifaces@.take(ifaces@.len() as int) =~= ifaces@);
    m
}

/// The total space over disks given as (total, available) byte pairs.
pub open spec fn sum_total(disks: Seq<(u64, u64)>) -> nat
    decreases disks.len(),
{
    if disks.len() == 0 {
        0
    } else {
        sum_total(disks.drop_last()) + disks.last().0 as nat
    }
}

/// The available space over all disks.
pub open spec fn sum_free(disks: Seq<(u64, u64)>) -> nat
    decreases disks.len(),
{
    if disks.len() == 0 {
        0
    } else {
        sum_free(disks.drop_last()) + disks.last().1 as nat
    }
}

proof fn lemma_disk_sums_prefix(s: Seq<(u64, u64)>, i: int)
    requires
        0 <= i <= s.len(),
    ensures
        sum_total(s.take(i)) <= sum_total(s),
        sum_free(s.take(i)) <= sum_free(s),
    decreases s.len() - i,
{
    if i < s.len() {
        lemma_disk_sums_prefix(s, i + 1);
        assert(s.take(i + 1).drop_last() =~= s.take(i));
    } else {
        assert(s.take(i) =~= s);
    }
}

/// Storage over all disks, given as (total, available) bytes: the total,
/// the used space (total less available) and the available space.
pub fn storage_totals(disks: &Vec<(u64, u64)>) -> (r: (u64, u64, u64))
    requires
        sum_total(disks@) <= u64::MAX,
        sum_free(disks@) <= sum_total(disks@),
    ensures
        r.0 == sum_total(disks@),
        r.2 == sum_free(disks@),
        r.1 == r.0 - r.2,
{
    let mut total: u64 = 0;
    let mut free: u64 = 0;
    let mut i: usize = 0;
    while i < disks.len()
        invariant
            i <= disks@.len(),
            sum_total(disks@) <= u64::MAX,
            sum_free(disks@) <= sum_total(disks@),
            total == sum_total(disks@.take(i as int)),
            free == sum_free(disks@.take(i as int)),
        decreases disks.len() - i,
    {
        proof {
            assert(disks@.take(i + 1).drop_last() =~= disks@.take(i as int));
            lemma_disk_sums_prefix(disks@, i + 1);
        }
        total = total + disks[i].0;
        free = free + disks[i].1;
        i = i + 1;
    }
    assert(disks@.take(disks@.len() as int) =~= disks@);
    (total, total - free, free)
}

} // verus!
