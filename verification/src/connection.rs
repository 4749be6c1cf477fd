//! Publish/subscribe messaging: quality-of-service matching, subscription
//! routing, per-topic message history, and the reconnection policy of a
//! connection to a remote node.
use vstd::prelude::*;
use crate::security::auth::unix_time_secs;
use crate::metrics::{counter_of, MetricsCollector};
use crate::text::{copy_text, text_eq};

verus! {

/// Delivery guarantee.
#[derive(Debug, Clone, Copy, PartialEq, Eq, Structural)]
pub enum Reliability {
    /// Best effort.
    BestEffort,
    /// Reliable delivery.
    Reliable,
}

/// How long messages outlive their sending.
#[derive(Debug, Clone, Copy, PartialEq, Eq, Structural)]
pub enum Durability {
    /// Not kept.
    Volatile,
    /// Kept while the system runs.
    Transient,
    /// Kept durably.
    Persistent,
}

/// Which messages of a topic are kept in its history.
#[derive(Debug, Clone, Copy, PartialEq, Eq, Structural)]
pub enum HistoryKind {
    /// Only the most recent `depth` messages.
    KeepLast,
    /// All of them.
    KeepAll,
}

/// History policy.
#[derive(Debug, Clone, Copy, PartialEq, Eq, Structural)]
pub struct History {
    /// Kind of history.
    pub kind: HistoryKind,
    /// Depth for [`HistoryKind::KeepLast`].
    pub depth: usize,
}

/// Quality-of-service settings of a publisher, a subscriber or a message.
#[derive(Debug, Clone, Copy, PartialEq, Eq, Structural)]
pub struct QosConfig {
    /// Delivery guarantee.
    pub reliability: Reliability,
    /// Durability.
    pub durability: Durability,
    /// Deadline, in seconds.
    pub deadline: Option<u64>,
    /// How long a message stays in the history, in seconds.
    pub lifespan: Option<u64>,
    /// History policy.
    pub history: History,
}

/// Strength of a delivery guarantee.
pub open spec fn reliability_rank(r: Reliability) -> int {
    match r {
        Reliability::BestEffort => 0,
        Reliability::Reliable => 1,
    }
}

/// Strength of a durability.
pub open spec fn durability_rank(d: Durability) -> int {
    match d {
        Durability::Volatile => 0,
        Durability::Transient => 1,
        Durability::Persistent => 2,
    }
}

/// A publisher's offer satisfies a subscriber's request when it is at least
/// as reliable and at least as durable.
pub open spec fn qos_compatible(offered: QosConfig, requested: QosConfig) -> bool {
    reliability_rank(offered.reliability) >= reliability_rank(requested.reliability)
        && durability_rank(offered.durability) >= durability_rank(requested.durability)
}

/// Whether a message published with `pub_qos` may go to a subscriber that
/// asked for `sub_qos`: a best-effort offer does not serve a reliable
/// request, a volatile offer serves only volatile requests, and a transient
/// offer does not serve a persistent request.
pub fn check_qos_compatibility(pub_qos: &QosConfig, sub_qos: &QosConfig) -> (b: bool)
    ensures
        b == qos_compatible(*pub_qos, *sub_qos),
{
    match (pub_qos.reliability, sub_qos.reliability) {
        (Reliability::BestEffort, Reliability::Reliable) => return false,
        _ => {},
    }
    match (pub_qos.durability, sub_qos.durability) {
        (Durability::Volatile, Durability::Transient) => return false,
        (Durability::Volatile, Durability::Persistent) => return false,
        (Durability::Transient, Durability::Persistent) => return false,
        _ => {},
    }
    true
}

/// QoS compatibility is a preorder: every setting serves itself, and an
/// offer that serves an intermediate setting which serves a request serves
/// that request too.
pub proof fn lemma_qos_preorder(a: QosConfig, b: QosConfig, c: QosConfig)
    ensures
        qos_compatible(a, a),
        qos_compatible(a, b) && qos_compatible(b, c) ==> qos_compatible(a, c),
{
}

/// Which offers serve which requests, case by case: a best-effort offer does
/// not serve a reliable request; a volatile offer serves only volatile
/// requests; a transient offer serves volatile and transient requests, not
/// persistent ones; a persistent offer serves every durability. Nothing else
/// is refused.
pub proof fn law_qos_table(offered: QosConfig, requested: QosConfig)
    ensures
        qos_compatible(offered, requested) <==> {
            &&& !(offered.reliability is BestEffort && requested.reliability is Reliable)
            &&& offered.durability is Volatile ==> requested.durability is Volatile
            &&& offered.durability is Transient ==> !(requested.durability is Persistent)
        },
{
}

/// Removing the subscription of `node` on `topic` drops exactly the
/// subscriptions with both that topic and that node: every other one stays
/// (another node's subscription on the same topic, the node's subscriptions
/// on other topics), and none with both remains.
pub proof fn law_remove_keeps_others(subs: Seq<(Seq<char>, Seq<char>, QosConfig)>, topic: Seq<char>, node: Seq<char>)
    ensures
        forall|i: int|
            0 <= i < subs.len() && !(subs[i].0 == topic && subs[i].1 == node) ==> subs.filter(
                other_sub(topic, node),
            ).contains(#[trigger] subs[i]),
        forall|j: int|
            0 <= j < subs.filter(other_sub(topic, node)).len() ==> !((#[trigger] subs.filter(
                other_sub(topic, node),
            )[j]).0 == topic && subs.filter(other_sub(topic, node))[j].1 == node),
{
    let p = other_sub(topic, node);
    assert forall|i: int| 0 <= i < subs.len() && !(subs[i].0 == topic && subs[i].1 == node) implies subs.filter(
        p,
    ).contains(#[trigger] subs[i]) by {
        subs.lemma_filter_contains(p, i);
    }
    assert forall|j: int| 0 <= j < subs.filter(p).len() implies !((#[trigger] subs.filter(p)[j]).0 == topic
        && subs.filter(p)[j].1 == node) by {
        subs.lemma_filter_pred(p, j);
    }
}

/// Content filters accept every payload.
pub fn apply_content_filter(filter: &str, data: &[u8]) -> (b: bool)
    ensures
        b,
{
    true
}

/// Publisher settings.
#[derive(Debug, Clone)]
pub struct PublisherConfig {
    /// Topic.
    pub topic: String,
    /// Data type.
    pub data_type: String,
    /// QoS offered.
    pub qos: QosConfig,
    /// Partition.
    pub partition: Option<String>,
}

/// Subscriber settings.
#[derive(Debug, Clone)]
pub struct SubscriberConfig {
    /// Topic.
    pub topic: String,
    /// Data type.
    pub data_type: String,
    /// QoS requested.
    pub qos: QosConfig,
    /// Partition.
    pub partition: Option<String>,
    /// Content filter.
    pub content_filter: Option<String>,
}

/// The contents of a [`Message`].
pub struct MessageView {
    pub topic: Seq<char>,
    pub data: Seq<u8>,
    pub timestamp: u64,
    pub sequence_number: u64,
    pub source_node: Seq<char>,
    pub qos: QosConfig,
}

/// A published message.
#[derive(Debug, Clone)]
pub struct Message {
    /// Topic.
    pub topic: String,
    /// Payload.
    pub data: Vec<u8>,
    /// Publication time, in seconds since the Unix epoch.
    pub timestamp: u64,
    /// Sequence number.
    pub sequence_number: u64,
    /// Source node.
    pub source_node: String,
    /// QoS of the publication.
    pub qos: QosConfig,
}

impl View for Message {
    type V = MessageView;

    open spec fn view(&self) -> MessageView {
        MessageView {
            topic: self.topic@,
            data: self.data@,
            timestamp: self.timestamp,
            sequence_number: self.sequence_number,
            source_node: self.source_node@,
            qos: self.qos,
        }
    }
}

impl PublisherConfig {
    /// The message that publishing `data` at time `timestamp` sends: this
    /// publisher's topic and QoS, sequence number 0 and an empty source node.
    pub fn make_message(&self, data: Vec<u8>, timestamp: u64) -> (m: Message)
        ensures
            m@.topic == self.topic@,
            m@.data == data@,
            m@.timestamp == timestamp,
            m@.sequence_number == 0,
            m@.source_node.len() == 0,
            m@.qos == self.qos,
    {
        Message {
            topic: self.topic.clone(),
            data,
            timestamp,
            sequence_number: 0,
            source_node: String::new(),
            qos: self.qos,
        }
    }
}

/// A subscription: a node's subscriber settings and the handle through
/// which messages reach it.
pub struct SubscriberInfo<H> {
    /// Subscribing node.
    pub node_id: String,
    /// Its settings.
    pub config: SubscriberConfig,
    /// Delivery handle.
    pub tx: H,
}

/// A message is fresh at `now` when it is at most `lifespan` seconds old; a
/// message stamped after `now` counts as new.
pub open spec fn is_fresh(m: MessageView, now: u64, lifespan: u64) -> bool {
    (if m.timestamp <= now { now - m.timestamp } else { 0 }) <= lifespan
}

/// The fresh messages among `h`.
pub open spec fn fresh_only(h: Seq<MessageView>, now: u64, lifespan: u64) -> Seq<MessageView> {
    h.filter(|m: MessageView| is_fresh(m, now, lifespan))
}

/// The history of a topic after `m` joins it at time `now`: `m` is appended,
/// messages older than the message's lifespan are dropped, and under a
/// keep-last policy only the most recent `depth` remain.
pub open spec fn next_history(h: Seq<MessageView>, m: MessageView, now: u64) -> Seq<MessageView> {
    let pushed = h.push(m);
    let aged = match m.qos.lifespan {
        Some(l) => fresh_only(pushed, now, l),
        None => pushed,
    };
    if m.qos.history.kind == HistoryKind::KeepLast && aged.len() > m.qos.history.depth {
        aged.skip(aged.len() - m.qos.history.depth)
    } else {
        aged
    }
}

/// The history kept for one topic.
pub struct TopicHistory {
    /// Topic.
    pub topic: String,
    /// Its messages, oldest first.
    pub messages: Vec<Message>,
}

/// Some history entry is for `topic`.
pub open spec fn has_topic(hs: Seq<(Seq<char>, Seq<MessageView>)>, topic: Seq<char>) -> bool {
    exists|i: int| 0 <= i < hs.len() && (#[trigger] hs[i]).0 == topic
}

/// The history of `topic`: empty when it has none.
pub open spec fn history_of(hs: Seq<(Seq<char>, Seq<MessageView>)>, topic: Seq<char>) -> Seq<MessageView> {
    if has_topic(hs, topic) {
        hs[choose|i: int| 0 <= i < hs.len() && (#[trigger] hs[i]).0 == topic].1
    } else {
        Seq::empty()
    }
}

/// Topics of the history are unique.
pub open spec fn topics_unique(hs: Seq<(Seq<char>, Seq<MessageView>)>) -> bool {
    forall|i: int, j: int|
        0 <= i < hs.len() && 0 <= j < hs.len() && i != j ==> (#[trigger] hs[i]).0 != (
        #[trigger] hs[j]).0
}

/// A subscription as routing sees it: topic, node, requested QoS.
pub open spec fn sub_view<H>(s: SubscriberInfo<H>) -> (Seq<char>, Seq<char>, QosConfig) {
    (s.config.topic@, s.node_id@, s.config.qos)
}

/// The subscription at `i` receives a message on `topic` with QoS `qos`.
pub open spec fn receives(subs: Seq<(Seq<char>, Seq<char>, QosConfig)>, i: int, topic: Seq<char>, qos: QosConfig) -> bool {
    subs[i].0 == topic && qos_compatible(qos, subs[i].2)
}

/// Keeps the subscriptions that are not of `node` on `topic`.
pub open spec fn other_sub(topic: Seq<char>, node: Seq<char>) -> spec_fn((Seq<char>, Seq<char>, QosConfig)) -> bool {
    |s: (Seq<char>, Seq<char>, QosConfig)| !(s.0 == topic && s.1 == node)
}

/// Keeps the routes that are not of `node` on `topic`.
pub open spec fn other_route(topic: Seq<char>, node: Seq<char>) -> spec_fn((Seq<char>, Seq<char>)) -> bool {
    |s: (Seq<char>, Seq<char>)| !(s.0 == topic && s.1 == node)
}

/// The topic histories went from `before` to `after` as routing `m` at time
/// `now` does: unless `m` is volatile, its topic's history becomes
/// [`next_history`] of the old one; every other history stays.
pub open spec fn routed_history(
    before: Seq<(Seq<char>, Seq<MessageView>)>,
    after: Seq<(Seq<char>, Seq<MessageView>)>,
    m: MessageView,
    now: u64,
) -> bool {
    forall|t: Seq<char>|
        #[trigger] history_of(after, t) == if t == m.topic && m.qos.durability != Durability::Volatile {
            next_history(history_of(before, t), m, now)
        } else {
            history_of(before, t)
        }
}

/// The message router. Subscriptions are kept in the order they were made.
pub struct Router<H> {
    subscriptions: Vec<SubscriberInfo<H>>,
    routing_table: Vec<(String, String)>,
    message_history: Vec<TopicHistory>,
    metrics: MetricsCollector,
}

fn copy_messages(v: &Vec<Message>) -> (r: Vec<Message>)
    ensures
        r@.map_values(|m: Message| m@) == v@.map_values(|m: Message| m@),
{
    let mut r: Vec<Message> = Vec::new();
    let mut i: usize = 0;
    while i < v.len()
        invariant
            i <= v@.len(),
            r@.len() == i,
            forall|k: int| 0 <= k < i ==> (#[trigger] r@[k])@ == v@[k]@,
        decreases v.len() - i,
    {
        r.push(copy_message(&v[i]));
        i = i + 1;
    }
    assert(r@.map_values(|m: Message| m@) =~= v@.map_values(|m: Message| m@));
    r
}

fn copy_message(m: &Message) -> (r: Message)
    ensures
        r@ == m@,
{
    let mut data: Vec<u8> = Vec::new();
    let mut i: usize = 0;
    while i < m.data.len()
        invariant
            i <= m.data@.len(),
            data@ == m.data@.subrange(0, i as int),
        decreases m.data.len() - i,
    {
        data.push(m.data[i]);
        i = i + 1;
        assert(data@ =~= m.data@.subrange(0, i as int));
    }
    assert(m.data@.subrange(0, m.data@.len() as int) =~= m.data@);
    Message {
        topic: m.topic.clone(),
        data,
        timestamp: m.timestamp,
        sequence_number: m.sequence_number,
        source_node: m.source_node.clone(),
        qos: m.qos,
    }
}

/// `h` after `m` joins it at `now`, as [`next_history`] says.
pub fn append_to_history(h: Vec<Message>, m: Message, now: u64) -> (r: Vec<Message>)
    ensures
        r@.map_values(|x: Message| x@) == next_history(h@.map_values(|x: Message| x@), m@, now),
{
    let ghost hv = h@.map_values(|x: Message| x@);
    let ghost mv = m@;
    let qos = m.qos;
    let mut pushed = h;
    pushed.push(m);
    let ghost pv = pushed@.map_values(|x: Message| x@);
    assert(pv =~= hv.push(mv));
    let aged = match qos.lifespan {
        None => pushed,
        Some(l) => {
            let mut kept: Vec<Message> = Vec::new();
            let mut src = pushed;
            let mut i: usize = 0;
            let ghost sv = src@.map_values(|x: Message| x@);
            while i < src.len()
                invariant
                    i <= src@.len(),
                    sv == src@.map_values(|x: Message| x@),
                    kept@.map_values(|x: Message| x@) == fresh_only(sv.take(i as int), now, l),
                decreases src.len() - i,
            {
                proof {
                    reveal_with_fuel(Seq::<MessageView>::filter, 1);
                    assert(sv.take(i + 1).drop_last() =~= sv.take(i as int));
                    assert(sv.take(i + 1).last() == src@[i as int]@);
                }
                let ts = src[i].timestamp;
                let age = if ts <= now { now - ts } else { 0 };
                if age <= l {
                    let c = copy_message(&src[i]);
                    let ghost before = kept@.map_values(|x: Message| x@);
                    kept.push(c);
                    assert(kept@.map_values(|x: Message| x@) =~= before.push(c@));
                } else {
                    let ghost before = kept@.map_values(|x: Message| x@);
                    assert(kept@.map_values(|x: Message| x@) =~= before);
                }
                i = i + 1;
            }
            assert(sv.take(sv.len() as int) =~= sv);
            kept
        },
    };
    let ghost av = aged@.map_values(|x: Message| x@);
    if qos.history.kind == HistoryKind::KeepLast && aged.len() > qos.history.depth {
        let start = aged.len() - qos.history.depth;
        let mut out: Vec<Message> = Vec::new();
        let mut i: usize = start;
        while i < aged.len()
            invariant
                start <= i <= aged@.len(),
                av == aged@.map_values(|x: Message| x@),
                out@.map_values(|x: Message| x@) == av.subrange(start as int, i as int),
            decreases aged.len() - i,
        {
            assert(av[i as int] == aged@[i as int]@);
            let c = copy_message(&aged[i]);
            let ghost before = out@.map_values(|x: Message| x@);
            out.push(c);
            assert(out@.map_values(|x: Message| x@) =~= before.push(av[i as int]));
            assert(out@.map_values(|x: Message| x@) =~= av.subrange(start as int, i + 1));
            i = i + 1;
        }
        assert(av.subrange(start as int, av.len() as int) =~= av.skip(start as int));
        out
    } else {
        aged
    }
}

impl<H> Router<H> {
    /// The subscriptions, in the order they were made.
    pub closed spec fn subscriptions(&self) -> Seq<(Seq<char>, Seq<char>, QosConfig)> {
        self.subscriptions@.map_values(|s: SubscriberInfo<H>| sub_view(s))
    }

    /// The routing table: (topic, node) pairs, in subscription order.
    pub closed spec fn routes(&self) -> Seq<(Seq<char>, Seq<char>)> {
        self.routing_table@.map_values(|r: (String, String)| (r.0@, r.1@))
    }

    /// The message history, per topic.
    pub closed spec fn histories(&self) -> Seq<(Seq<char>, Seq<MessageView>)> {
        self.message_history@.map_values(
            |t: TopicHistory| (t.topic@, t.messages@.map_values(|m: Message| m@)),
        )
    }

    /// The router's counters: "router.subscriptions.added",
    /// "router.subscriptions.removed" and "router.messages.routed".
    pub closed spec fn counters(&self) -> Seq<(Seq<char>, i64)> {
        self.metrics.counters()
    }

    /// Well-formedness: one history entry per topic.
    pub closed spec fn wf(&self) -> bool {
        topics_unique(self.histories()) && self.metrics.wf()
    }

    /// The router's metrics.
    pub fn metrics(&self) -> (m: &MetricsCollector)
        ensures
            m.counters() == self.counters(),
    {
        &self.metrics
    }

    /// Counts one message delivered to a subscriber ("router.messages.routed").
    pub fn record_routed(&mut self)
        requires
            old(self).wf(),
            counter_of(old(self).counters(), "router.messages.routed"@) < i64::MAX,
        ensures
            final(self).wf(),
            final(self).subscriptions() == old(self).subscriptions(),
            final(self).routes() == old(self).routes(),
            final(self).histories() == old(self).histories(),
            counter_of(final(self).counters(), "router.messages.routed"@) == counter_of(
                old(self).counters(),
                "router.messages.routed"@,
            ) + 1,
            forall|k: Seq<char>|
                k != "router.messages.routed"@ ==> #[trigger] counter_of(final(self).counters(), k)
                    == counter_of(old(self).counters(), k),
    {
        let _ = self.metrics.increment_counter("router.messages.routed", 1);
    }

    /// A router with no subscriptions and no history.
    pub fn new() -> (r: Self)
        ensures
            r.wf(),
            r.subscriptions().len() == 0,
            r.routes().len() == 0,
            r.histories().len() == 0,
            forall|k: Seq<char>| #[trigger] counter_of(r.counters(), k) == 0,
    {
        let r = Router {
            subscriptions: Vec::new(),
            routing_table: Vec::new(),
            message_history: Vec::new(),
            metrics: MetricsCollector::new(),
        };
        assert(r.subscriptions() =~= Seq::<(Seq<char>, Seq<char>, QosConfig)>::empty());
        assert(r.routes() =~= Seq::<(Seq<char>, Seq<char>)>::empty());
        assert(r.histories() =~= Seq::<(Seq<char>, Seq<MessageView>)>::empty());
        r
    }

    /// The delivery handle of the subscription at position `i`.
    pub fn subscriber(&self, i: usize) -> (s: &SubscriberInfo<H>)
        requires
            i < self.subscriptions().len(),
        ensures
            sub_view(*s) == self.subscriptions()[i as int],
    {
        &self.subscriptions[i]
    }

    /// Subscribes `node_id` with `config`; messages reach it through `tx`.
    pub fn add_subscription(&mut self, node_id: String, config: SubscriberConfig, tx: H) -> (r: Result<(), String>)
        requires
            old(self).wf(),
            counter_of(old(self).counters(), "router.subscriptions.added"@) < i64::MAX,
        ensures
            r is Ok,
            counter_of(final(self).counters(), "router.subscriptions.added"@) == counter_of(
                old(self).counters(),
                "router.subscriptions.added"@,
            ) + 1,
            forall|k: Seq<char>|
                k != "router.subscriptions.added"@ ==> #[trigger] counter_of(final(self).counters(), k)
                    == counter_of(old(self).counters(), k),
            final(self).subscriptions() == old(self).subscriptions().push(
                (config.topic@, node_id@, config.qos),
            ),
            final(self).routes() == old(self).routes().push((config.topic@, node_id@)),
            final(self).histories() == old(self).histories(),
            final(self).wf() == old(self).wf(),
    {
        let topic = config.topic.clone();
        let node = node_id.clone();
        let ghost sv = (config.topic@, node_id@, config.qos);
        let ghost old_subs = self.subscriptions();
        let ghost old_routes = self.routes();
        self.subscriptions.push(SubscriberInfo { node_id, config, tx });
        self.routing_table.push((topic, node));
        assert(self.subscriptions() =~= old_subs.push(sv));
        assert(self.routes() =~= old_routes.push((sv.0, sv.1)));
        let _ = self.metrics.increment_counter("router.subscriptions.added", 1);
        Ok(())
    }

    /// Removes every subscription and route of `node_id` on `topic`.
    pub fn remove_subscription(&mut self, node_id: &str, topic: &str) -> (r: Result<(), String>)
        requires
            old(self).wf(),
            counter_of(old(self).counters(), "router.subscriptions.removed"@) < i64::MAX,
        ensures
            r is Ok,
            counter_of(final(self).counters(), "router.subscriptions.removed"@) == counter_of(
                old(self).counters(),
                "router.subscriptions.removed"@,
            ) + 1,
            forall|k: Seq<char>|
                k != "router.subscriptions.removed"@ ==> #[trigger] counter_of(final(self).counters(), k)
                    == counter_of(old(self).counters(), k),
            final(self).subscriptions() == old(self).subscriptions().filter(other_sub(topic@, node_id@)),
            forall|i: int|
                0 <= i < old(self).subscriptions().len() && !(old(self).subscriptions()[i].0 == topic@
                    && old(self).subscriptions()[i].1 == node_id@) ==> final(self).subscriptions().contains(
                    #[trigger] old(self).subscriptions()[i],
                ),
            forall|j: int|
                0 <= j < final(self).subscriptions().len() ==> !((#[trigger] final(self).subscriptions()[j]).0
                    == topic@ && final(self).subscriptions()[j].1 == node_id@),
            final(self).routes() == old(self).routes().filter(other_route(topic@, node_id@)),
            final(self).histories() == old(self).histories(),
            final(self).wf() == old(self).wf(),
    {
        let ghost pred = other_sub(topic@, node_id@);
        let ghost rpred = other_route(topic@, node_id@);
        let mut old_subs: Vec<SubscriberInfo<H>> = Vec::new();
        std::mem::swap(&mut old_subs, &mut self.subscriptions);
        let ghost osv = old_subs@.map_values(|s: SubscriberInfo<H>| sub_view(s));
        let mut kept: Vec<SubscriberInfo<H>> = Vec::new();
        let mut rest = old_subs;
        let n_subs = rest.len();
        let ghost total = osv.len();
        assert(total == n_subs);
        let mut taken: usize = 0;
        while rest.len() > 0
            invariant
                taken + rest@.len() == total,
                total == osv.len(),
                total <= usize::MAX,
                pred == other_sub(topic@, node_id@),
                forall|k: int| 0 <= k < rest@.len() ==> sub_view(#[trigger] rest@[k]) == osv[taken + k],
                kept@.map_values(|s: SubscriberInfo<H>| sub_view(s)) == osv.take(taken as int).filter(pred),
            decreases rest.len(),
        {
            let ghost before_rest = rest@;
            let s = rest.remove(0);
            assert forall|k: int| 0 <= k < rest@.len() implies sub_view(#[trigger] rest@[k]) == osv[taken + 1 + k] by {
                assert(rest@[k] == before_rest[k + 1]);
            }
            assert(sub_view(before_rest[0]) == osv[taken as int]);
            proof {
                reveal_with_fuel(Seq::<(Seq<char>, Seq<char>, QosConfig)>::filter, 1);
                assert(osv.take(taken + 1).drop_last() =~= osv.take(taken as int));
                assert(sub_view(s) == osv[taken as int]);
            }
            let keep = !(text_eq(s.config.topic.as_str(), topic) && text_eq(s.node_id.as_str(), node_id));
            let ghost before = kept@.map_values(|s: SubscriberInfo<H>| sub_view(s));
            proof {
                let x = osv[taken as int];
                assert(osv.take(taken + 1).last() == x);
                assert(x.0 == s.config.topic@);
                assert(x.1 == s.node_id@);
                assert(keep == !(x.0 == topic@ && x.1 == node_id@));
                assert(keep == pred(x));
                assert(osv.take(taken + 1).filter(pred) == if pred(x) {
                    osv.take(taken as int).filter(pred).push(x)
                } else {
                    osv.take(taken as int).filter(pred)
                });
            }
            if keep {
                kept.push(s);
                assert(kept@.map_values(|s: SubscriberInfo<H>| sub_view(s)) =~= before.push(osv[taken as int]));
            } else {
                assert(kept@.map_values(|s: SubscriberInfo<H>| sub_view(s)) =~= before);
            }
            taken = taken + 1;
        }
        assert(osv.take(total as int) =~= osv);
        self.subscriptions = kept;
        let mut routes: Vec<(String, String)> = Vec::new();
        std::mem::swap(&mut routes, &mut self.routing_table);
        let ghost orv = routes@.map_values(|r: (String, String)| (r.0@, r.1@));
        let mut kept_routes: Vec<(String, String)> = Vec::new();
        let mut i: usize = 0;
        while i < routes.len()
            invariant
                i <= routes@.len(),
                orv == routes@.map_values(|r: (String, String)| (r.0@, r.1@)),
                rpred == other_route(topic@, node_id@),
                kept_routes@.map_values(|r: (String, String)| (r.0@, r.1@)) == orv.take(i as int).filter(rpred),
            decreases routes.len() - i,
        {
            proof {
                reveal_with_fuel(Seq::<(Seq<char>, Seq<char>)>::filter, 1);
                assert(orv.take(i + 1).drop_last() =~= orv.take(i as int));
            }
            let keep = !(text_eq(routes[i].0.as_str(), topic) && text_eq(routes[i].1.as_str(), node_id));
            let ghost before = kept_routes@.map_values(|r: (String, String)| (r.0@, r.1@));
            proof {
                let x = orv[i as int];
                assert(x == (routes@[i as int].0@, routes@[i as int].1@));
                assert(orv.take(i + 1).last() == x);
                assert(keep == rpred(x));
                assert(orv.take(i + 1).filter(rpred) == if rpred(x) {
                    orv.take(i as int).filter(rpred).push(x)
                } else {
                    orv.take(i as int).filter(rpred)
                });
            }
            if keep {
                let pair = (routes[i].0.clone(), routes[i].1.clone());
                kept_routes.push(pair);
                assert(kept_routes@.map_values(|r: (String, String)| (r.0@, r.1@)) =~= before.push(orv[i as int]));
            } else {
                assert(kept_routes@.map_values(|r: (String, String)| (r.0@, r.1@)) =~= before);
            }
            i = i + 1;
        }
        assert(orv.take(routes@.len() as int) =~= orv);
        self.routing_table = kept_routes;
        proof {
            law_remove_keeps_others(old(self).subscriptions(), topic@, node_id@);
        }
        let _ = self.metrics.increment_counter("router.subscriptions.removed", 1);
        Ok(())
    }

    /// Routes `message` at time `now`: the positions of the subscriptions
    /// that receive it come back in subscription order (the subscriptions on
    /// its topic whose requested QoS its QoS satisfies); unless the message
    /// is volatile, it then joins its topic's history as [`next_history`]
    /// says.
    pub fn route_message_at(&mut self, message: Message, now: u64) -> (r: Vec<usize>)
        requires
            old(self).wf(),
        ensures
            final(self).counters() == old(self).counters(),
            final(self).wf(),
            final(self).subscriptions() == old(self).subscriptions(),
            final(self).routes() == old(self).routes(),
            forall|k: int| 0 <= k < r@.len() ==> (#[trigger] r@[k]) < old(self).subscriptions().len()
                && receives(old(self).subscriptions(), r@[k] as int, message@.topic, message@.qos),
            forall|k: int, l: int| 0 <= k < l < r@.len() ==> #[trigger] r@[k] < #[trigger] r@[l],
            forall|i: int|
                0 <= i < old(self).subscriptions().len() && receives(old(self).subscriptions(), i, message@.topic, message@.qos)
                    ==> #[trigger] r@.contains(i as usize),
            forall|t: Seq<char>|
                #[trigger] history_of(final(self).histories(), t) == if t == message@.topic
                    && message@.qos.durability != Durability::Volatile {
                    next_history(history_of(old(self).histories(), t), message@, now)
                } else {
                    history_of(old(self).histories(), t)
                },
    {
        let ghost subs = self.subscriptions();
        let mut recipients: Vec<usize> = Vec::new();
        let mut i: usize = 0;
        while i < self.subscriptions.len()
            invariant
                subs == self.subscriptions(),
                i <= subs.len(),
                forall|k: int| 0 <= k < recipients@.len() ==> (#[trigger] recipients@[k]) < i
                    && receives(subs, recipients@[k] as int, message@.topic, message@.qos),
                forall|k: int, l: int| 0 <= k < l < recipients@.len() ==> #[trigger] recipients@[k] < #[trigger] recipients@[l],
                forall|j: int|
                    0 <= j < i && receives(subs, j, message@.topic, message@.qos)
                        ==> #[trigger] recipients@.contains(j as usize),
            decreases self.subscriptions.len() - i,
        {
            let sub = &self.subscriptions[i];
            assert(sub_view(*sub) == subs[i as int]);
            let on_topic = text_eq(sub.config.topic.as_str(), message.topic.as_str());
            let passes = on_topic && check_qos_compatibility(&message.qos, &sub.config.qos) && match &sub.config.content_filter {
                Some(f) => apply_content_filter(f.as_str(), message.data.as_slice()),
                None => true,
            };
            let ghost before = recipients@;
            if passes {
                recipients.push(i);
                assert(recipients@[recipients@.len() - 1] == i);
            }
            assert forall|j: int|
                0 <= j < i + 1 && receives(subs, j, message@.topic, message@.qos)
                    implies #[trigger] recipients@.contains(j as usize) by {
                if j < i {
                    assert(before.contains(j as usize));
                    let w = choose|w: int| 0 <= w < before.len() && before[w] == j as usize;
                    assert(recipients@[w] == j as usize);
                } else {
                    assert(recipients@[recipients@.len() - 1] == j as usize);
                }
            }
            i = i + 1;
        }
        if message.qos.durability != Durability::Volatile {
            self.record_history(message, now);
        }
        recipients
    }

    /// Routes `message` as [`Self::route_message_at`] does at the current
    /// time (read from the clock); routing always succeeds. The caller
    /// delivers the message to each subscription returned and counts each
    /// delivery that succeeds with [`Self::record_routed`].
    pub fn route_message(&mut self, message: Message) -> (r: Result<Vec<usize>, String>)
        requires
            old(self).wf(),
        ensures
            r is Ok,
            final(self).wf(),
            final(self).counters() == old(self).counters(),
            final(self).subscriptions() == old(self).subscriptions(),
            final(self).routes() == old(self).routes(),
            exists|now: u64| #[trigger] routed_history(old(self).histories(), final(self).histories(), message@, now),
            r matches Ok(v) ==> forall|k: int, l: int| 0 <= k < l < v@.len() ==> #[trigger] v@[k] < #[trigger] v@[l],
            r matches Ok(v) ==> forall|i: int|
                0 <= i < old(self).subscriptions().len() && receives(old(self).subscriptions(), i, message@.topic, message@.qos)
                    ==> #[trigger] v@.contains(i as usize),
            r matches Ok(v) ==> forall|k: int| 0 <= k < v@.len() ==> (#[trigger] v@[k]) < old(self).subscriptions().len()
                && receives(old(self).subscriptions(), v@[k] as int, message@.topic, message@.qos),
    {
        let now = unix_time_secs();
        let ghost mv = message@;
        let v = self.route_message_at(message, now);
        assert(routed_history(old(self).histories(), self.histories(), mv, now));
        Ok(v)
    }

    fn record_history(&mut self, message: Message, now: u64)
        requires
            old(self).wf(),
        ensures
            final(self).counters() == old(self).counters(),
            final(self).wf(),
            final(self).subscriptions() == old(self).subscriptions(),
            final(self).routes() == old(self).routes(),
            forall|t: Seq<char>|
                #[trigger] history_of(final(self).histories(), t) == if t == message@.topic {
                    next_history(history_of(old(self).histories(), t), message@, now)
                } else {
                    history_of(old(self).histories(), t)
                },
    {
        let ghost old_hs = self.histories();
        let ghost mv = message@;
        let mut found: Option<usize> = None;
        let mut i: usize = 0;
        while i < self.message_history.len()
            invariant_except_break
                found is None,
            invariant
                old_hs == self.histories(),
                mv == message@,
                i <= old_hs.len(),
                forall|j: int| 0 <= j < i ==> (#[trigger] old_hs[j]).0 != mv.topic,
            ensures
                match found {
                    Some(k) => k < old_hs.len() && old_hs[k as int].0 == mv.topic,
                    None => !has_topic(old_hs, mv.topic),
                },
            decreases self.message_history.len() - i,
        {
            assert(old_hs[i as int].0 == self.message_history@[i as int].topic@);
            if text_eq(self.message_history[i].topic.as_str(), message.topic.as_str()) {
                found = Some(i);
                break;
            }
            i = i + 1;
        }
        match found {
            Some(i) => {
                let mut msgs: Vec<Message> = Vec::new();
                std::mem::swap(&mut msgs, &mut self.message_history[i].messages);
                assert(msgs@.map_values(|x: Message| x@) == old_hs[i as int].1);
                let updated = append_to_history(msgs, message, now);
                let mut updated_mut = updated;
                std::mem::swap(&mut updated_mut, &mut self.message_history[i].messages);
                proof {
                    let hs = self.histories();
                    let nh = next_history(old_hs[i as int].1, mv, now);
                    assert forall|k: int| 0 <= k < hs.len() implies (#[trigger] hs[k]) == if k == i {
                        (old_hs[k].0, nh)
                    } else {
                        old_hs[k]
                    } by {
                        assert(hs[k] == (self.message_history@[k].topic@, self.message_history@[k].messages@.map_values(|m: Message| m@)));
                    }
                    assert(hs =~= old_hs.update(i as int, (mv.topic, nh)));
                    lemma_history_update(old_hs, i as int, mv.topic, nh);
                }
            },
            None => {
                let topic = copy_text(message.topic.as_str());
                let empty: Vec<Message> = Vec::new();
                assert(empty@.map_values(|x: Message| x@) =~= Seq::<MessageView>::empty());
                let updated = append_to_history(empty, message, now);
                self.message_history.push(TopicHistory { topic, messages: updated });
                proof {
                    let hs = self.histories();
                    let nh = next_history(Seq::<MessageView>::empty(), mv, now);
                    assert(hs =~= old_hs.push((mv.topic, nh)));
                    lemma_history_push(old_hs, mv.topic, nh);
                }
            },
        }
    }
}

/// Replacing the history of a topic that has an entry changes that topic's
/// history only.
proof fn lemma_history_update(hs: Seq<(Seq<char>, Seq<MessageView>)>, i: int, topic: Seq<char>, h: Seq<MessageView>)
    requires
        topics_unique(hs),
        0 <= i < hs.len(),
        hs[i].0 == topic,
    ensures
        topics_unique(hs.update(i, (topic, h))),
        forall|t: Seq<char>|
            #[trigger] history_of(hs.update(i, (topic, h)), t) == if t == topic {
                h
            } else {
                history_of(hs, t)
            },
        history_of(hs, topic) == hs[i].1,
{
    let nhs = hs.update(i, (topic, h));
    assert forall|a: int, b: int| 0 <= a < nhs.len() && 0 <= b < nhs.len() && a != b implies (
    #[trigger] nhs[a]).0 != (#[trigger] nhs[b]).0 by {
        assert(nhs[a].0 == hs[a].0);
        assert(nhs[b].0 == hs[b].0);
    }
    let k = choose|k: int| 0 <= k < hs.len() && (#[trigger] hs[k]).0 == topic;
    if k != i {
        assert(hs[k].0 != hs[i].0);
    }
    assert forall|t: Seq<char>|
        #[trigger] history_of(nhs, t) == if t == topic { h } else { history_of(hs, t) } by {
        if t == topic {
            assert(nhs[i].0 == t);
            let k2 = choose|k2: int| 0 <= k2 < nhs.len() && (#[trigger] nhs[k2]).0 == t;
            if k2 != i {
                assert(nhs[k2].0 != nhs[i].0);
            }
        } else if has_topic(hs, t) {
            let j = choose|j: int| 0 <= j < hs.len() && (#[trigger] hs[j]).0 == t;
            assert(nhs[j].0 == t);
            let j2 = choose|j2: int| 0 <= j2 < nhs.len() && (#[trigger] nhs[j2]).0 == t;
            if j2 != j {
                assert(nhs[j2].0 != nhs[j].0);
            }
        } else {
            assert forall|j: int| 0 <= j < nhs.len() implies (#[trigger] nhs[j]).0 != t by {
                assert(nhs[j].0 == hs[j].0);
            }
        }
    }
}

/// Adding a history for a topic that has none changes that topic's history
/// only.
proof fn lemma_history_push(hs: Seq<(Seq<char>, Seq<MessageView>)>, topic: Seq<char>, h: Seq<MessageView>)
    requires
        topics_unique(hs),
        !has_topic(hs, topic),
    ensures
        topics_unique(hs.push((topic, h))),
        forall|t: Seq<char>|
            #[trigger] history_of(hs.push((topic, h)), t) == if t == topic {
                h
            } else {
                history_of(hs, t)
            },
        history_of(hs, topic) == Seq::<MessageView>::empty(),
{
    let nhs = hs.push((topic, h));
    assert forall|a: int, b: int| 0 <= a < nhs.len() && 0 <= b < nhs.len() && a != b implies (
    #[trigger] nhs[a]).0 != (#[trigger] nhs[b]).0 by {
        if a < hs.len() {
            assert(nhs[a].0 == hs[a].0);
        }
        if b < hs.len() {
            assert(nhs[b].0 == hs[b].0);
        }
    }
    assert forall|t: Seq<char>|
        #[trigger] history_of(nhs, t) == if t == topic { h } else { history_of(hs, t) } by {
        if t == topic {
            assert(nhs[hs.len() as int].0 == t);
            let k2 = choose|k2: int| 0 <= k2 < nhs.len() && (#[trigger] nhs[k2]).0 == t;
            if k2 != hs.len() {
                assert(nhs[k2] == hs[k2]);
            }
        } else if has_topic(hs, t) {
            let j = choose|j: int| 0 <= j < hs.len() && (#[trigger] hs[j]).0 == t;
            assert(nhs[j] == hs[j]);
            let j2 = choose|j2: int| 0 <= j2 < nhs.len() && (#[trigger] nhs[j2]).0 == t;
            if j2 != j {
                assert(nhs[j2].0 != nhs[j].0);
            }
        } else {
            assert forall|j: int| 0 <= j < nhs.len() implies (#[trigger] nhs[j]).0 != t by {
                if j < hs.len() {
                    assert(nhs[j] == hs[j]);
                }
            }
        }
    }
}

/// What the connection keeper does next.
#[derive(Debug, Clone, Copy, PartialEq, Eq, Structural)]
pub enum ConnectionAction {
    /// Wait this many seconds, then check the connection again.
    WaitSecs(u64),
    /// Give up: the connection could not be kept.
    GiveUp,
}

/// Keeps a connection to a remote node alive by periodic checks.
#[derive(Debug, Clone)]
pub struct ConnectionManager {
    /// Address of the remote node.
    pub address: String,
    /// Id of this node.
    pub node_id: String,
    /// Seconds between checks while connected.
    pub retry_interval: u64,
    /// Failed checks tolerated in a row.
    pub max_retries: u32,
}

impl ConnectionManager {
    /// A keeper for `address`, checking every 5 seconds and giving up after 3
    /// failed retries.
    pub fn new(address: String, node_id: String) -> (m: Self)
        ensures
            m.address@ == address@,
            m.node_id@ == node_id@,
            m.retry_interval == 5,
            m.max_retries == 3,
    {
        ConnectionManager { address, node_id, retry_interval: 5, max_retries: 3 }
    }

    /// The step after a check when `retry_count` failures were counted: a
    /// successful check resets the count and waits the retry interval; a
    /// failed one gives up once `max_retries` failures were already counted,
    /// and otherwise counts one more and waits one second.
    pub fn next_step(&self, retry_count: u32, connected: bool) -> (r: (u32, ConnectionAction))
        ensures
            connected ==> r == (0u32, ConnectionAction::WaitSecs(self.retry_interval)),
            !connected && retry_count >= self.max_retries ==> r.1 == ConnectionAction::GiveUp
                && r.0 == retry_count,
            !connected && retry_count < self.max_retries ==> r == (
                (retry_count + 1) as u32,
                ConnectionAction::WaitSecs(1),
            ),
    {
        if connected {
            (0, ConnectionAction::WaitSecs(self.retry_interval))
        } else if retry_count >= self.max_retries {
            (retry_count, ConnectionAction::GiveUp)
        } else {
            (retry_count + 1, ConnectionAction::WaitSecs(1))
        }
    }
}

} // verus!
