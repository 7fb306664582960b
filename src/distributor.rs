use vstd::prelude::*;

use crate::errors::{spec_distributor_error_of, DistributorError, TopicsError};
use crate::registry::{RegistryModel, TopicRegistry};
use crate::topic::{copy_bytes, is_valid_topic_name, spec_valid_topic_name};

verus! {

/// The longest payload, in bytes, that a publish may carry.
pub const MAX_MESSAGE_LEN: usize = 256;

/// How many connections the broker serves at once.
pub const MAX_CONNECTIONS: usize = 16;

/// How many distinct filters the registry holds.
pub const MAX_TOPICS: usize = 32;

/// How many messages wait, at most, for one connection.
pub const QUEUE_DEPTH: usize = 8;

/// What a queued message is: its topic, its payload and the QoS it is
/// delivered with.
pub ghost struct MessageView {
    pub topic: Seq<u8>,
    pub payload: Seq<u8>,
    pub qos: u8,
}

/// A message waiting in one connection's outgoing queue.
pub struct PendingMessage {
    pub topic: Vec<u8>,
    pub payload: Vec<u8>,
    pub qos: u8,
}

impl View for PendingMessage {
    type V = MessageView;

    open spec fn view(&self) -> MessageView {
        MessageView { topic: self.topic@, payload: self.payload@, qos: self.qos }
    }
}

pub open spec fn spec_messages(q: Seq<PendingMessage>) -> Seq<MessageView> {
    q.map_values(|m: PendingMessage| m@)
}

pub open spec fn spec_queue_views(qs: Seq<Vec<PendingMessage>>) -> Seq<Seq<MessageView>> {
    qs.map_values(|q: Vec<PendingMessage>| spec_messages(q@))
}

pub open spec fn spec_min_qos(a: u8, b: u8) -> u8 {
    if a < b {
        a
    } else {
        b
    }
}

/// The shared broker state: the registry, which slots are in use, each
/// slot's outgoing queue, and the depth every queue is bounded by.
pub ghost struct DistributorModel {
    pub registry: RegistryModel,
    pub live: Seq<bool>,
    pub queues: Seq<Seq<MessageView>>,
    pub depth: nat,
}

/// Fan-out of one message to `targets` in order: a live target with room
/// gets it, at the lower of the two QoS levels; a live target whose queue
/// is full does not, and the second component records that.
pub open spec fn spec_deliver(
    queues: Seq<Seq<MessageView>>,
    live: Seq<bool>,
    depth: nat,
    targets: Seq<(usize, u8)>,
    topic: Seq<u8>,
    payload: Seq<u8>,
    qos: u8,
) -> (Seq<Seq<MessageView>>, bool)
    decreases targets.len(),
{
    if targets.len() == 0 {
        (queues, false)
    } else {
        let (qs, full) = spec_deliver(
            queues,
            live,
            depth,
            targets.drop_last(),
            topic,
            payload,
            qos,
        );
        let (c, max_qos) = targets.last();
        if c < qs.len() && c < live.len() && live[c as int] {
            if qs[c as int].len() < depth {
                let m = MessageView { topic, payload, qos: spec_min_qos(qos, max_qos) };
                (qs.update(c as int, qs[c as int].push(m)), full)
            } else {
                (qs, true)
            }
        } else {
            (qs, full)
        }
    }
}

/// The first slot not in use, or -1.
pub open spec fn spec_first_free(live: Seq<bool>) -> int
    decreases live.len(),
{
    if live.len() == 0 {
        -1
    } else {
        let r = spec_first_free(live.drop_last());
        if r >= 0 {
            r
        } else if !live.last() {
            live.len() - 1
        } else {
            -1
        }
    }
}

pub proof fn lemma_first_free(live: Seq<bool>)
    ensures
        -1 <= spec_first_free(live) < live.len(),
        spec_first_free(live) >= 0 ==> !live[spec_first_free(live)],
        forall|k: int| 0 <= k < live.len() && (spec_first_free(live) == -1 || k < spec_first_free(live)) ==> #[trigger] live[k],
    decreases live.len(),
{
    if live.len() > 0 {
        lemma_first_free(live.drop_last());
        assert forall|k: int| 0 <= k < live.len() - 1 implies live[k] == live.drop_last()[k] by {}
    }
}

impl DistributorModel {
    pub open spec fn wf(self) -> bool {
        &&& self.registry.wf()
        &&& self.live.len() == self.queues.len()
        &&& forall|i: int| 0 <= i < self.queues.len() ==> #[trigger] self.queues[i].len() <= self.depth
        &&& forall|i: int| 0 <= i < self.queues.len() && !self.live[i] ==> #[trigger] self.queues[i].len() == 0
    }

    pub open spec fn publish(self, topic: Seq<u8>, payload: Seq<u8>, qos: u8) -> (
        DistributorModel,
        Result<(), DistributorError>,
    ) {
        if !spec_valid_topic_name(topic) {
            (self, Err(DistributorError::TopicTooLong))
        } else if payload.len() > MAX_MESSAGE_LEN {
            (self, Err(DistributorError::MessageTooLong))
        } else {
            let (qs, full) = spec_deliver(
                self.queues,
                self.live,
                self.depth,
                self.registry.matching(topic),
                topic,
                payload,
                qos,
            );
            (
                DistributorModel { queues: qs, ..self },
                if full {
                    Err(DistributorError::QueueFull)
                } else {
                    Ok(())
                },
            )
        }
    }

    pub open spec fn subscribe(self, conn: usize, filter: Seq<u8>, max_qos: u8) -> (
        DistributorModel,
        Result<(), DistributorError>,
    ) {
        if conn >= self.live.len() || !self.live[conn as int] {
            (self, Err(DistributorError::Unknown))
        } else {
            let (reg, r) = self.registry.subscribe(filter, conn, max_qos);
            (
                DistributorModel { registry: reg, ..self },
                match r {
                    Ok(()) => Ok(()),
                    Err(e) => Err(spec_distributor_error_of(e)),
                },
            )
        }
    }

    pub open spec fn unsubscribe(self, conn: usize, filter: Seq<u8>) -> DistributorModel {
        DistributorModel { registry: self.registry.unsubscribe(filter, conn), ..self }
    }

    pub open spec fn register_connection(self) -> (DistributorModel, Result<usize, DistributorError>) {
        let f = spec_first_free(self.live);
        if f >= 0 {
            (DistributorModel { live: self.live.update(f, true), ..self }, Ok(f as usize))
        } else {
            (self, Err(DistributorError::Unknown))
        }
    }

    pub open spec fn release_connection(self, slot: usize) -> DistributorModel {
        DistributorModel {
            registry: self.registry.drop_connection(slot),
            live: self.live.update(slot as int, false),
            queues: self.queues.update(slot as int, Seq::empty()),
            ..self
        }
    }

    pub open spec fn drain(self, slot: usize) -> DistributorModel {
        DistributorModel { queues: self.queues.update(slot as int, Seq::empty()), ..self }
    }
}

/// Whether a publish to `c` must be dropped: the slot is in use and its
/// queue has no room.
pub open spec fn spec_blocked(queues: Seq<Seq<MessageView>>, live: Seq<bool>, depth: nat, c: usize) -> bool {
    &&& c < queues.len()
    &&& c < live.len()
    &&& live[c as int]
    &&& queues[c as int].len() >= depth
}

/// Whether a publish to `c` is taken: the slot is in use and its queue has
/// room.
pub open spec fn spec_open(queues: Seq<Seq<MessageView>>, live: Seq<bool>, depth: nat, c: usize) -> bool {
    &&& c < queues.len()
    &&& c < live.len()
    &&& live[c as int]
    &&& queues[c as int].len() < depth
}

pub open spec fn spec_distinct_targets(targets: Seq<(usize, u8)>) -> bool {
    forall|i: int, j: int|
        0 <= i < targets.len() && 0 <= j < targets.len() && i != j ==> (#[trigger] targets[i]).0
            != (#[trigger] targets[j]).0
}

/// Fan-out to distinct targets: each open target gets the message once,
/// every other queue stays as it was, and a drop is reported exactly when
/// some target is blocked.
pub proof fn lemma_deliver_distinct(
    queues: Seq<Seq<MessageView>>,
    live: Seq<bool>,
    depth: nat,
    targets: Seq<(usize, u8)>,
    topic: Seq<u8>,
    payload: Seq<u8>,
    qos: u8,
)
    requires
        spec_distinct_targets(targets),
    ensures
        ({
            let (qs, full) = spec_deliver(queues, live, depth, targets, topic, payload, qos);
            &&& qs.len() == queues.len()
            &&& full == exists|j: int|
                0 <= j < targets.len() && spec_blocked(queues, live, depth, (#[trigger] targets[j]).0)
            &&& forall|j: int|
                0 <= j < targets.len() && spec_open(queues, live, depth, (#[trigger] targets[j]).0)
                    ==> qs[targets[j].0 as int] == queues[targets[j].0 as int].push(
                    MessageView { topic, payload, qos: spec_min_qos(qos, targets[j].1) },
                )
            &&& forall|c: int|
                0 <= c < queues.len() && (forall|j: int| 0 <= j < targets.len() ==> (#[trigger] targets[j]).0 != c)
                    ==> #[trigger] qs[c] == queues[c]
        }),
    decreases targets.len(),
{
    if targets.len() > 0 {
        let pre = targets.drop_last();
        assert forall|i: int, j: int|
            0 <= i < pre.len() && 0 <= j < pre.len() && i != j implies (#[trigger] pre[i]).0
            != (#[trigger] pre[j]).0 by {
            assert(pre[i] == targets[i] && pre[j] == targets[j]);
        }
        lemma_deliver_distinct(queues, live, depth, pre, topic, payload, qos);
        let (qs0, full0) = spec_deliver(queues, live, depth, pre, topic, payload, qos);
        let (qs, full) = spec_deliver(queues, live, depth, targets, topic, payload, qos);
        let n = targets.len() - 1;
        let (c, mq) = targets.last();
        assert forall|j: int| 0 <= j < pre.len() implies (#[trigger] pre[j]).0 != c by {
            assert(pre[j] == targets[j]);
        }
        if c < queues.len() {
            assert(qs0[c as int] == queues[c as int]);
        }
        if full {
            if !full0 {
                assert(spec_blocked(queues, live, depth, targets[n].0));
            } else {
                let j = choose|j: int| 0 <= j < pre.len() && spec_blocked(queues, live, depth, (#[trigger] pre[j]).0);
                assert(targets[j] == pre[j]);
            }
        } else {
            assert forall|j: int| 0 <= j < targets.len() implies !spec_blocked(queues, live, depth, (#[trigger] targets[j]).0) by {
                if j < n {
                    assert(targets[j] == pre[j]);
                }
            }
        }
        assert forall|j: int|
            0 <= j < targets.len() && spec_open(queues, live, depth, (#[trigger] targets[j]).0) implies qs[targets[j].0 as int]
            == queues[targets[j].0 as int].push(MessageView { topic, payload, qos: spec_min_qos(qos, targets[j].1) }) by {
            if j < n {
                assert(targets[j] == pre[j]);
            }
        }
        assert forall|k: int|
            0 <= k < queues.len() && (forall|j: int| 0 <= j < targets.len() ==> (#[trigger] targets[j]).0 != k) implies #[trigger] qs[k] == queues[k] by {
            assert forall|j: int| 0 <= j < pre.len() implies (#[trigger] pre[j]).0 != k by {
                assert(pre[j] == targets[j]);
            }
            assert(targets[n].0 != k);
        }
    }
}

pub proof fn lemma_deliver_len(
    queues: Seq<Seq<MessageView>>,
    live: Seq<bool>,
    depth: nat,
    targets: Seq<(usize, u8)>,
    topic: Seq<u8>,
    payload: Seq<u8>,
    qos: u8,
)
    ensures
        spec_deliver(queues, live, depth, targets, topic, payload, qos).0.len() == queues.len(),
    decreases targets.len(),
{
    if targets.len() > 0 {
        lemma_deliver_len(queues, live, depth, targets.drop_last(), topic, payload, qos);
    }
}

/// A publish that no subscription matches succeeds and changes nothing.
pub proof fn lemma_publish_unmatched(d: DistributorModel, topic: Seq<u8>, payload: Seq<u8>, qos: u8)
    requires
        spec_valid_topic_name(topic),
        payload.len() <= MAX_MESSAGE_LEN,
        d.registry.matching(topic).len() == 0,
    ensures
        d.publish(topic, payload, qos) == (d, Ok::<(), DistributorError>(())),
{
}

/// An overlong payload is refused as `MessageTooLong` and queues nothing.
pub proof fn lemma_publish_too_long(d: DistributorModel, topic: Seq<u8>, payload: Seq<u8>, qos: u8)
    requires
        spec_valid_topic_name(topic),
        payload.len() > MAX_MESSAGE_LEN,
    ensures
        d.publish(topic, payload, qos) == (d, Err::<(), DistributorError>(
            DistributorError::MessageTooLong,
        )),
{
}

/// When the matching subscribers are distinct connections, a subscriber
/// whose queue is full makes the publish report `QueueFull`, while every
/// matching subscriber with room still receives the message.
pub proof fn lemma_publish_full_queue(d: DistributorModel, topic: Seq<u8>, payload: Seq<u8>, qos: u8)
    requires
        spec_valid_topic_name(topic),
        payload.len() <= MAX_MESSAGE_LEN,
        spec_distinct_targets(d.registry.matching(topic)),
    ensures
        ({
            let targets = d.registry.matching(topic);
            let (d2, r) = d.publish(topic, payload, qos);
            &&& (r == Err::<(), DistributorError>(DistributorError::QueueFull)) == exists|j: int|
                0 <= j < targets.len() && spec_blocked(d.queues, d.live, d.depth, (#[trigger] targets[j]).0)
            &&& r is Err ==> r == Err::<(), DistributorError>(DistributorError::QueueFull)
            &&& forall|j: int|
                0 <= j < targets.len() && spec_open(d.queues, d.live, d.depth, (#[trigger] targets[j]).0)
                    ==> d2.queues[targets[j].0 as int] == d.queues[targets[j].0 as int].push(
                    MessageView { topic, payload, qos: spec_min_qos(qos, targets[j].1) },
                )
        }),
{
    lemma_deliver_distinct(d.queues, d.live, d.depth, d.registry.matching(topic), topic, payload, qos);
}

/// However a connection ends, releasing its slot leaves no subscription of
/// it, an empty queue, and a slot that can be claimed again.
pub proof fn lemma_release_clears(d: DistributorModel, slot: usize)
    requires
        slot < d.live.len(),
        d.live.len() == d.queues.len(),
    ensures
        !d.release_connection(slot).registry.has_subscription_of(slot),
        !d.release_connection(slot).live[slot as int],
        d.release_connection(slot).queues[slot as int].len() == 0,
        d.release_connection(slot).register_connection().1 is Ok,
{
    broadcast use vstd::seq_lib::group_filter_ensures;

    let d2 = d.release_connection(slot);
    lemma_first_free(d2.live);
    assert(!d2.live[slot as int]);
}

/// The single shared broker state: a topic registry, a fixed table of
/// connection slots, and one bounded outgoing queue per slot.
pub struct Distributor {
    registry: TopicRegistry,
    live: Vec<bool>,
    queues: Vec<Vec<PendingMessage>>,
    depth: usize,
}

impl View for Distributor {
    type V = DistributorModel;

    closed spec fn view(&self) -> DistributorModel {
        DistributorModel {
            registry: self.registry@,
            live: self.live@,
            queues: spec_queue_views(self.queues@),
            depth: self.depth as nat,
        }
    }
}

impl Default for Distributor {
    /// A distributor sized by the broker's build-time limits.
    fn default() -> (r: Distributor)
        ensures
            r@.wf(),
            r@.live.len() == MAX_CONNECTIONS,
            forall|i: int| 0 <= i < MAX_CONNECTIONS ==> !r@.live[i],
            forall|i: int| 0 <= i < MAX_CONNECTIONS ==> (#[trigger] r@.queues[i]).len() == 0,
            r@.registry.topics.len() == 0,
            r@.registry.subscriptions.len() == 0,
            r@.registry.capacity == MAX_TOPICS,
            r@.depth == QUEUE_DEPTH,
    {
        Distributor::new(MAX_CONNECTIONS, MAX_TOPICS, QUEUE_DEPTH)
    }
}

fn copy_message(topic: &Vec<u8>, payload: &Vec<u8>, qos: u8) -> (r: PendingMessage)
    ensures
        r@ == (MessageView { topic: topic@, payload: payload@, qos }),
{
    PendingMessage { topic: copy_bytes(topic), payload: copy_bytes(payload), qos }
}

impl Distributor {
    /// A distributor with `max_connections` free slots, room for
    /// `max_topics` filters and outgoing queues of depth `queue_depth`.
    pub fn new(max_connections: usize, max_topics: usize, queue_depth: usize) -> (r: Distributor)
        ensures
            r@.wf(),
            r@.live.len() == max_connections,
            forall|i: int| 0 <= i < max_connections ==> !r@.live[i],
            forall|i: int| 0 <= i < max_connections ==> (#[trigger] r@.queues[i]).len() == 0,
            r@.registry.topics.len() == 0,
            r@.registry.subscriptions.len() == 0,
            r@.registry.capacity == max_topics,
            r@.depth == queue_depth,
    {
        let mut live: Vec<bool> = Vec::new();
        let mut queues: Vec<Vec<PendingMessage>> = Vec::new();
        let mut i: usize = 0;
        while i < max_connections
            invariant
                i <= max_connections,
                queues.len() == i,
                live.len() == i,
                forall|k: int| 0 <= k < i ==> !live@[k],
                forall|k: int| 0 <= k < i ==> (#[trigger] queues@[k])@.len() == 0,
            decreases max_connections - i,
        {
            live.push(false);
            let empty: Vec<PendingMessage> = Vec::new();
            assert(empty@.len() == 0);
            queues.push(empty);
            i = i + 1;
        }
        let r = Distributor { registry: TopicRegistry::new(max_topics), live, queues, depth: queue_depth };
        assert forall|i: int| 0 <= i < max_connections implies (#[trigger] r@.queues[i]).len() == 0 by {
            assert(r@.queues[i] == spec_messages(queues@[i]@));
        }
        r
    }

    /// Replaces the queue of `slot`.
    fn set_queue(&mut self, slot: usize, q: Vec<PendingMessage>)
        requires
            slot < old(self).queues.len(),
        ensures
            final(self).queues@ == old(self).queues@.update(slot as int, q),
            final(self)@ == (DistributorModel {
                queues: old(self)@.queues.update(slot as int, spec_messages(q@)),
                ..old(self)@
            }),
    {
        let ghost oq = self.queues@;
        self.queues.remove(slot);
        self.queues.insert(slot, q);
        assert(self.queues@ =~= oq.update(slot as int, q));
        assert(spec_queue_views(self.queues@) =~= spec_queue_views(oq).update(
            slot as int,
            spec_messages(q@),
        ));
    }

    /// Takes the queue of `slot` out, leaving it empty.
    fn take_queue(&mut self, slot: usize) -> (r: Vec<PendingMessage>)
        requires
            slot < old(self).queues.len(),
        ensures
            spec_messages(r@) == old(self)@.queues[slot as int],
            final(self)@ == old(self)@.drain(slot),
            final(self).queues.len() == old(self).queues.len(),
    {
        let ghost oq = self.queues@;
        let q = self.queues.remove(slot);
        let empty: Vec<PendingMessage> = Vec::new();
        let ghost e = empty;
        self.queues.insert(slot, empty);
        assert(self.queues@ =~= oq.update(slot as int, e));
        assert(spec_messages(e@) =~= Seq::<MessageView>::empty());
        assert(spec_queue_views(self.queues@) =~= spec_queue_views(oq).update(
            slot as int,
            Seq::empty(),
        ));
        q
    }

    /// Publishes a message to every subscriber whose filter matches
    /// `topic`. A subscriber whose queue is full misses the message and the
    /// call reports `QueueFull`, but every other subscriber still gets it.
    pub fn publish(&mut self, topic: &Vec<u8>, payload: &Vec<u8>, qos: u8) -> (r: Result<
        (),
        DistributorError,
    >)
        requires
            old(self)@.wf(),
        ensures
            final(self)@.wf(),
            (final(self)@, r) == old(self)@.publish(topic@, payload@, qos),
    {
        if !is_valid_topic_name(topic) {
            return Err(DistributorError::TopicTooLong);
        }
        if payload.len() > MAX_MESSAGE_LEN {
            return Err(DistributorError::MessageTooLong);
        }
        let targets = self.registry.matching_subscribers(topic);
        let ghost m0 = self@;
        let mut full = false;
        for k in 0..targets.len()
            invariant
                m0.wf(),
                m0 == old(self)@,
                targets@ == m0.registry.matching(topic@),
                self.queues.len() == self.live.len(),
                self@ == (DistributorModel { queues: self@.queues, ..m0 }),
                self@.wf(),
                (self@.queues, full) == spec_deliver(
                    m0.queues,
                    m0.live,
                    m0.depth,
                    targets@.take(k as int),
                    topic@,
                    payload@,
                    qos,
                ),
        {
            assert(targets@.take(k + 1).drop_last() =~= targets@.take(k as int));
            assert(targets@.take(k + 1).last() == targets@[k as int]);
            let (c, max_qos) = targets[k];
            if c < self.queues.len() && self.live[c] {
                assert(self@.queues[c as int].len() == self.queues@[c as int]@.len());
                if self.queues[c].len() < self.depth {
                    let q_qos = if qos < max_qos {
                        qos
                    } else {
                        max_qos
                    };
                    let mut q = self.take_queue(c);
                    let ghost before = q@;
                    q.push(copy_message(topic, payload, q_qos));
                    assert(spec_messages(q@) =~= spec_messages(before).push(
                        MessageView { topic: topic@, payload: payload@, qos: q_qos },
                    ));
                    self.set_queue(c, q);
                } else {
                    full = true;
                }
            }
        }
        assert(targets@.take(targets.len() as int) =~= targets@);
        if full {
            Err(DistributorError::QueueFull)
        } else {
            Ok(())
        }
    }

    /// Subscribes the connection in `conn` to `filter`. The slot must be in
    /// use (else `Unknown`); registry failures come back converted.
    pub fn subscribe(&mut self, conn: usize, filter: &Vec<u8>, max_qos: u8) -> (r: Result<
        (),
        DistributorError,
    >)
        requires
            old(self)@.wf(),
        ensures
            final(self)@.wf(),
            (final(self)@, r) == old(self)@.subscribe(conn, filter@, max_qos),
    {
        if conn >= self.live.len() || !self.live[conn] {
            return Err(DistributorError::Unknown);
        }
        match self.registry.subscribe(filter, conn, max_qos) {
            Ok(()) => Ok(()),
            Err(e) => Err(DistributorError::from(e)),
        }
    }

    /// Removes the subscription of `conn` to `filter`; never fails.
    pub fn unsubscribe(&mut self, conn: usize, filter: &Vec<u8>)
        requires
            old(self)@.wf(),
        ensures
            final(self)@.wf(),
            final(self)@ == old(self)@.unsubscribe(conn, filter@),
    {
        self.registry.unsubscribe(filter, conn);
    }

    /// Claims the first free slot; `Unknown` when every slot is in use.
    pub fn register_connection(&mut self) -> (r: Result<usize, DistributorError>)
        requires
            old(self)@.wf(),
        ensures
            final(self)@.wf(),
            (final(self)@, r) == old(self)@.register_connection(),
            r matches Ok(s) ==> s < old(self)@.live.len() && !old(self)@.live[s as int] && forall|k: int|
                0 <= k < s ==> old(self)@.live[k],
            r matches Ok(s) ==> final(self)@ == (DistributorModel {
                live: old(self)@.live.update(s as int, true),
                ..old(self)@
            }),
            r is Err ==> forall|k: int| 0 <= k < old(self)@.live.len() ==> old(self)@.live[k],
            r is Err ==> final(self)@ == old(self)@ && r == Err::<usize, DistributorError>(
                DistributorError::Unknown,
            ),
    {
        proof {
            lemma_first_free(self@.live);
        }
        let ghost lv = self.live@;
        let mut found: Option<usize> = None;
        for i in 0..self.live.len()
            invariant
                lv == self.live@,
                found is None ==> spec_first_free(lv.take(i as int)) == -1,
                found matches Some(s) ==> spec_first_free(lv.take(i as int)) == s,
        {
            assert(lv.take(i + 1).drop_last() =~= lv.take(i as int));
            if found.is_none() && !self.live[i] {
                found = Some(i);
            }
        }
        assert(lv.take(self.live.len() as int) =~= lv);
        match found {
            Some(s) => {
                self.live.set(s, true);
                Ok(s)
            },
            None => Err(DistributorError::Unknown),
        }
    }

    /// Frees `slot`: its queue is emptied, its subscriptions dropped, and
    /// the slot can be claimed again.
    pub fn release_connection(&mut self, slot: usize)
        requires
            old(self)@.wf(),
            slot < old(self)@.live.len(),
        ensures
            final(self)@.wf(),
            final(self)@ == old(self)@.release_connection(slot),
            !final(self)@.registry.has_subscription_of(slot),
            !final(self)@.live[slot as int],
    {
        self.take_queue(slot);
        self.live.set(slot, false);
        self.registry.drop_connection(slot);
    }

    /// Removes and returns everything queued for `slot`, oldest first.
    pub fn drain_outgoing(&mut self, slot: usize) -> (r: Vec<PendingMessage>)
        requires
            old(self)@.wf(),
            slot < old(self)@.live.len(),
        ensures
            final(self)@.wf(),
            spec_messages(r@) == old(self)@.queues[slot as int],
            final(self)@ == old(self)@.drain(slot),
    {
        self.take_queue(slot)
    }

    /// How many messages wait for `slot`.
    pub fn queue_len(&self, slot: usize) -> (r: usize)
        requires
            self@.wf(),
            slot < self@.live.len(),
        ensures
            r == self@.queues[slot as int].len(),
    {
        self.queues[slot].len()
    }

    /// Whether `slot` is in use.
    pub fn is_live(&self, slot: usize) -> (r: bool)
        requires
            self@.wf(),
            slot < self@.live.len(),
        ensures
            r == self@.live[slot as int],
    {
        self.live[slot]
    }

    /// The (connection, QoS) pairs that a publish to `topic` would reach.
    pub fn matching_subscribers(&self, topic: &Vec<u8>) -> (r: Vec<(usize, u8)>)
        ensures
            r@ == self@.registry.matching(topic@),
    {
        self.registry.matching_subscribers(topic)
    }
}

} // verus!
