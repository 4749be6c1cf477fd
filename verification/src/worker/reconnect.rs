//! How a worker keeps its link to the head node: registration and heartbeat
//! requests, an exponential backoff between failed connection attempts, and
//! the decision of what to do after each outcome.
use vstd::prelude::*;
use crate::text::{copy_text, join_text};

verus! {

/// Resource figures a worker reports with each heartbeat.
#[derive(Debug, Clone, Copy, PartialEq, Eq, Structural)]
pub struct WorkerStatus {
    /// CPU usage.
    pub cpu_usage: u32,
    /// Memory usage.
    pub memory_usage: u64,
    /// Tasks on the worker.
    pub task_count: u32,
}

/// A worker's request to join the cluster.
#[derive(Debug, Clone)]
pub struct RegisterWorkerRequest {
    /// Id of the worker.
    pub worker_id: String,
    /// Address given for the worker.
    pub address: String,
    /// Port given for the worker.
    pub port: u32,
}

/// A worker's periodic sign of life.
#[derive(Debug, Clone)]
pub struct HeartbeatRequest {
    /// Id of the worker.
    pub worker_id: String,
    /// Its current figures.
    pub status: Option<WorkerStatus>,
}

/// Source of the figures that a worker sends with its heartbeats.
pub trait WorkerStatsProvider {
    /// The worker's figures at this moment.
    fn get_current_stats(&self) -> WorkerStatus;
}

/// First delay after a failed connection attempt, in milliseconds.
pub const INITIAL_BACKOFF_MS: u64 = 1000;

/// Largest delay between connection attempts, in milliseconds.
pub const MAX_BACKOFF_MS: u64 = 60000;

/// Delays between connection attempts: one second first, doubled after each
/// use, never more than a minute.
#[derive(Debug, Clone, Copy)]
pub struct ExponentialBackoff {
    current_ms: u64,
}

impl ExponentialBackoff {
    /// The delay that the next failure waits, in milliseconds.
    pub closed spec fn current(self) -> nat {
        self.current_ms as nat
    }

    /// The delay that follows a delay of `d` milliseconds.
    pub open spec fn following(d: nat) -> nat {
        if 2 * d < MAX_BACKOFF_MS { 2 * d } else { MAX_BACKOFF_MS as nat }
    }

    /// A backoff at its first delay.
    pub fn new() -> (b: Self)
        ensures
            b.current() == INITIAL_BACKOFF_MS,
    {
        ExponentialBackoff { current_ms: INITIAL_BACKOFF_MS }
    }

    /// Hands out the current delay and doubles it for next time, up to the
    /// largest delay.
    pub fn next_backoff(&mut self) -> (d: u64)
        ensures
            d == old(self).current(),
            final(self).current() == Self::following(old(self).current()),
    {
        let d = self.current_ms;
        self.current_ms = if d < MAX_BACKOFF_MS / 2 { 2 * d } else { MAX_BACKOFF_MS };
        d
    }

    /// Back to the first delay.
    pub fn reset(&mut self)
        ensures
            final(self).current() == INITIAL_BACKOFF_MS,
    {
        self.current_ms = INITIAL_BACKOFF_MS;
    }
}

/// The delays handed out from a fresh backoff: the `n`-th one is one second
/// doubled `n` times, capped at a minute.
pub open spec fn backoff_delay(n: nat) -> nat
    decreases n,
{
    if n == 0 {
        INITIAL_BACKOFF_MS as nat
    } else {
        ExponentialBackoff::following(backoff_delay((n - 1) as nat))
    }
}

/// The delays that a backoff hands out lie between one second and a minute,
/// and never shrink from one to the next until it is reset.
pub proof fn lemma_backoff_delays(n: nat)
    ensures
        INITIAL_BACKOFF_MS <= backoff_delay(n) <= MAX_BACKOFF_MS,
        backoff_delay(n) <= backoff_delay(n + 1),
    decreases n,
{
    if n > 0 {
        lemma_backoff_delays((n - 1) as nat);
    }
}

/// What the worker's link keeper learned last.
#[derive(Debug, Clone, Copy, PartialEq, Eq, Structural)]
pub enum LinkEvent {
    /// A loop comes round again: at the start, or after a wait.
    Tick,
    /// The head node accepted the connection and the registration.
    ConnectSucceeded,
    /// The connection or the registration failed.
    ConnectFailed,
    /// A heartbeat was delivered.
    HeartbeatSent,
    /// A heartbeat could not be delivered.
    HeartbeatFailed,
}

/// What the worker's link keeper does next.
#[derive(Debug, Clone, Copy, PartialEq, Eq, Structural)]
pub enum LinkAction {
    /// Connect to the head node and register.
    Connect,
    /// Send a heartbeat.
    SendHeartbeat,
    /// Wait this many milliseconds, then report a tick.
    Wait(u64),
    /// Stop with the last connection error: too many attempts failed.
    GiveUp,
    /// Stop normally: the keeper was shut down.
    Stop,
}

/// The link keeper's memory between steps.
#[derive(Debug, Clone, Copy)]
pub struct LinkState {
    /// Connection attempts that failed in a row.
    pub retries: u32,
    /// Whether a connection stands.
    pub connected: bool,
    /// Delays between attempts.
    pub backoff: ExponentialBackoff,
}

impl LinkState {
    /// No failure yet, not connected, backoff at its first delay.
    pub fn new() -> (s: Self)
        ensures
            s.retries == 0,
            !s.connected,
            s.backoff.current() == INITIAL_BACKOFF_MS,
    {
        LinkState { retries: 0, connected: false, backoff: ExponentialBackoff::new() }
    }
}

/// Keeps a worker registered with the head node and sends it heartbeats.
#[derive(Debug, Clone)]
pub struct ConnectionManager<P> {
    /// Address of the head node.
    pub head_addr: String,
    /// Id of this worker.
    pub worker_id: String,
    /// Seconds between heartbeats.
    pub retry_interval: u64,
    /// Failed connection attempts in a row after which the keeper gives up.
    pub max_retries: u32,
    /// Whether the keeper still runs.
    pub is_running: bool,
    /// Source of the heartbeat figures.
    pub stats_provider: P,
}

impl<P: WorkerStatsProvider> ConnectionManager<P> {
    /// A running keeper that sends a heartbeat every 5 seconds and gives up
    /// after 10 failed connection attempts in a row.
    pub fn new(head_addr: String, worker_id: String, stats_provider: P) -> (m: Self)
        ensures
            m.head_addr@ == head_addr@,
            m.worker_id@ == worker_id@,
            m.retry_interval == 5,
            m.max_retries == 10,
            m.is_running,
            m.stats_provider == stats_provider,
    {
        ConnectionManager {
            head_addr,
            worker_id,
            retry_interval: 5,
            max_retries: 10,
            is_running: true,
            stats_provider,
        }
    }

    /// Stops the keeper at its next step.
    pub fn shutdown(&mut self)
        ensures
            !final(self).is_running,
            final(self).head_addr == old(self).head_addr,
            final(self).worker_id == old(self).worker_id,
            final(self).retry_interval == old(self).retry_interval,
            final(self).max_retries == old(self).max_retries,
            final(self).stats_provider == old(self).stats_provider,
    {
        self.is_running = false;
    }

    /// The address to connect to: the head address behind "http://".
    pub fn endpoint(&self) -> (s: String)
        ensures
            s@ == "http://"@ + self.head_addr@,
    {
        join_text("http://", self.head_addr.as_str())
    }

    /// The registration sent after connecting: this worker's id, the head
    /// address and port 0.
    pub fn register_request(&self) -> (r: RegisterWorkerRequest)
        ensures
            r.worker_id@ == self.worker_id@,
            r.address@ == self.head_addr@,
            r.port == 0,
    {
        RegisterWorkerRequest {
            worker_id: copy_text(self.worker_id.as_str()),
            address: copy_text(self.head_addr.as_str()),
            port: 0,
        }
    }

    /// A heartbeat with this worker's id and the figures of its provider.
    pub fn heartbeat_request(&self) -> (r: HeartbeatRequest)
        ensures
            r.worker_id@ == self.worker_id@,
            r.status is Some,
    {
        let status = self.stats_provider.get_current_stats();
        HeartbeatRequest { worker_id: copy_text(self.worker_id.as_str()), status: Some(status) }
    }

    /// The next step after `event`. Each loop comes round with a tick and
    /// first checks that the keeper runs (else it stops); a tick then sends a
    /// heartbeat when connected and connects otherwise. A successful
    /// connection clears the failures and the backoff and starts the
    /// heartbeats. A failed one counts a failure: at `max_retries` failures
    /// in a row the keeper gives up, otherwise it waits the next backoff
    /// delay. A delivered heartbeat waits `retry_interval` seconds; a lost one
    /// drops the connection and goes back to connecting.
    pub fn step(&self, state: &mut LinkState, event: LinkEvent) -> (a: LinkAction)
        requires
            event == LinkEvent::ConnectFailed ==> old(state).retries < u32::MAX,
            event == LinkEvent::HeartbeatSent ==> self.retry_interval * 1000 <= u64::MAX,
        ensures
            event == LinkEvent::Tick ==> *final(state) == *old(state) && a == (
                if !self.is_running {
                    LinkAction::Stop
                } else if old(state).connected {
                    LinkAction::SendHeartbeat
                } else {
                    LinkAction::Connect
                }),
            event == LinkEvent::ConnectSucceeded ==> {
                &&& final(state).retries == 0
                &&& final(state).connected
                &&& final(state).backoff.current() == INITIAL_BACKOFF_MS
                &&& a == if self.is_running { LinkAction::SendHeartbeat } else { LinkAction::Stop }
            },
            event == LinkEvent::ConnectFailed ==> {
                &&& final(state).retries == old(state).retries + 1
                &&& !final(state).connected
                &&& if old(state).retries + 1 >= self.max_retries {
                    a == LinkAction::GiveUp && final(state).backoff == old(state).backoff
                } else {
                    &&& a == LinkAction::Wait(old(state).backoff.current() as u64)
                    &&& final(state).backoff.current() == ExponentialBackoff::following(
                        old(state).backoff.current(),
                    )
                }
            },
            event == LinkEvent::HeartbeatSent ==> *final(state) == *old(state) && a
                == LinkAction::Wait((self.retry_interval * 1000) as u64),
            event == LinkEvent::HeartbeatFailed ==> {
                &&& final(state).retries == old(state).retries
                &&& !final(state).connected
                &&& final(state).backoff == old(state).backoff
                &&& a == if self.is_running { LinkAction::Connect } else { LinkAction::Stop }
            },
    {
        match event {
            LinkEvent::Tick => {
                if !self.is_running {
                    LinkAction::Stop
                } else if state.connected {
                    LinkAction::SendHeartbeat
                } else {
                    LinkAction::Connect
                }
            },
            LinkEvent::ConnectSucceeded => {
                state.retries = 0;
                state.connected = true;
                state.backoff.reset();
                if self.is_running {
                    LinkAction::SendHeartbeat
                } else {
                    LinkAction::Stop
                }
            },
            LinkEvent::ConnectFailed => {
                state.retries = state.retries + 1;
                state.connected = false;
                if state.retries >= self.max_retries {
                    LinkAction::GiveUp
                } else {
                    let delay = state.backoff.next_backoff();
                    LinkAction::Wait(delay)
                }
            },
            LinkEvent::HeartbeatSent => LinkAction::Wait(self.retry_interval * 1000),
            LinkEvent::HeartbeatFailed => {
                state.connected = false;
                if self.is_running {
                    LinkAction::Connect
                } else {
                    LinkAction::Stop
                }
            },
        }
    }
}

} // verus!
