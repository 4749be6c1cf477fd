//! The host's network status, computed from the byte counters of its
//! interfaces and the counters seen at the previous reading.
use vstd::prelude::*;
use crate::models::NetworkStatus;

verus! {

/// The bytes received over interfaces given as (received, transmitted) pairs.
pub open spec fn sum_rx(ifaces: Seq<(u64, u64)>) -> nat
    decreases ifaces.len(),
{
    if ifaces.len() == 0 {
        0
    } else {
        sum_rx(ifaces.drop_last()) + ifaces.last().0 as nat
    }
}

/// The bytes transmitted over interfaces given as (received, transmitted) pairs.
pub open spec fn sum_tx(ifaces: Seq<(u64, u64)>) -> nat
    decreases ifaces.len(),
{
    if ifaces.len() == 0 {
        0
    } else {
        sum_tx(ifaces.drop_last()) + ifaces.last().1 as nat
    }
}

/// `a - b`, or zero where `b` is larger.
pub open spec fn saturating_diff(a: nat, b: nat) -> nat {
    if a >= b { (a - b) as nat } else { 0 }
}

/// The connections reported: a fixed figure, as the count is not read from
/// the system.
pub const REPORTED_CONNECTIONS: u32 = 100;

proof fn lemma_sums_prefix(s: Seq<(u64, u64)>, i: int)
    requires
        0 <= i <= s.len(),
    ensures
        sum_rx(s.take(i)) <= sum_rx(s),
        sum_tx(s.take(i)) <= sum_tx(s),
    decreases s.len() - i,
{
    if i < s.len() {
        lemma_sums_prefix(s, i + 1);
        assert(s.take(i + 1).drop_last() =~= s.take(i));
    } else {
        assert(s.take(i) =~= s);
    }
}

/// Remembers the byte counters of the previous network reading.
#[derive(Debug, Clone, Copy)]
pub struct SystemMonitor {
    /// (received, transmitted) totals at the previous reading, if any.
    pub last_network_stats: Option<(u64, u64)>,
}

impl SystemMonitor {
    /// A monitor that has read nothing yet.
    pub fn new() -> (m: Self)
        ensures
            m.last_network_stats is None,
    {
        SystemMonitor { last_network_stats: None }
    }

    /// The network status for interfaces given as (received, transmitted)
    /// byte counters: the speeds are what the totals grew by since the
    /// previous reading (zero at the first reading, and zero where a total
    /// shrank), the traffic is both totals together, and the totals are kept
    /// for the next reading.
    pub fn network_status(&mut self, ifaces: &Vec<(u64, u64)>) -> (s: NetworkStatus)
        requires
            sum_rx(ifaces@) + sum_tx(ifaces@) <= u64::MAX,
        ensures
            final(self).last_network_stats == Some((sum_rx(ifaces@) as u64, sum_tx(ifaces@) as u64)),
            s.total_traffic == sum_rx(ifaces@) + sum_tx(ifaces@),
            s.connections == REPORTED_CONNECTIONS,
            match old(self).last_network_stats {
                Some((last_rx, last_tx)) => {
                    &&& s.upload_speed == saturating_diff(sum_tx(ifaces@), last_tx as nat)
                    &&& s.download_speed == saturating_diff(sum_rx(ifaces@), last_rx as nat)
                },
                None => s.upload_speed == 0 && s.download_speed == 0,
            },
    {
        let mut total_rx: u64 = 0;
        let mut total_tx: u64 = 0;
        let mut i: usize = 0;
        while i < ifaces.len()
            invariant
                i <= ifaces@.len(),
                sum_rx(ifaces@) + sum_tx(ifaces@) <= u64::MAX,
                total_rx == sum_rx(ifaces@.take(i as int)),
                total_tx == sum_tx(ifaces@.take(i as int)),
            decreases ifaces.len() - i,
        {
            proof {
                assert(ifaces@.take(i + 1).drop_last() =~= ifaces@.take(i as int));
                lemma_sums_prefix(ifaces@, i + 1);
            }
            total_rx = total_rx + ifaces[i].0;
            total_tx = total_tx + ifaces[i].1;
            i = i + 1;
        }
        assert(ifaces@.take(ifaces@.len() as int) =~= ifaces@);
        let (upload_speed, download_speed) = match self.last_network_stats {
            Some((last_rx, last_tx)) => (
                if total_tx >= last_tx { total_tx - last_tx } else { 0 },
                if total_rx >= last_rx { total_rx - last_rx } else { 0 },
            ),
            None => (0, 0),
        };
        self.last_network_stats = Some((total_rx, total_tx));
        NetworkStatus {
            upload_speed,
            download_speed,
            total_traffic: total_rx + total_tx,
            connections: REPORTED_CONNECTIONS,
        }
    }
}

} // verus!
