use vstd::prelude::*;

use crate::errors::TopicsError;
use crate::topic::{
    copy_bytes, bytes_equal, filter_matches, is_valid_filter, spec_filter_matches,
    spec_valid_filter, views, MAX_TOPIC_LEN,
};

verus! {

/// One connection's interest in one registered filter.
#[derive(Clone, Copy, Debug, PartialEq, Eq, Structural)]
pub struct Subscription {
    /// The handle of the filter in the registry.
    pub topic: usize,
    pub conn: usize,
    pub max_qos: u8,
}

/// What a registry holds: its filters by handle, its subscriptions in the
/// order they were made, and how many filters it may hold.
pub ghost struct RegistryModel {
    pub topics: Seq<Seq<u8>>,
    pub subscriptions: Seq<Subscription>,
    pub capacity: nat,
}

/// The last handle under which `name` is stored, or -1.
pub open spec fn spec_find_topic(ts: Seq<Seq<u8>>, name: Seq<u8>) -> int
    decreases ts.len(),
{
    if ts.len() == 0 {
        -1
    } else if ts.last() == name {
        ts.len() - 1
    } else {
        spec_find_topic(ts.drop_last(), name)
    }
}

/// The last position of the subscription of `conn` to `topic`, or -1.
pub open spec fn spec_find_sub(ss: Seq<Subscription>, topic: usize, conn: usize) -> int
    decreases ss.len(),
{
    if ss.len() == 0 {
        -1
    } else if ss.last().topic == topic && ss.last().conn == conn {
        ss.len() - 1
    } else {
        spec_find_sub(ss.drop_last(), topic, conn)
    }
}

/// Records a subscription: an existing one of the same connection to the
/// same filter gets the new QoS in place, else a new one is appended.
pub open spec fn spec_set_sub(ss: Seq<Subscription>, topic: usize, conn: usize, max_qos: u8) -> Seq<
    Subscription,
> {
    let p = spec_find_sub(ss, topic, conn);
    let s = Subscription { topic, conn, max_qos };
    if p >= 0 {
        ss.update(p, s)
    } else {
        ss.push(s)
    }
}

pub open spec fn spec_remove_sub(ss: Seq<Subscription>, topic: usize, conn: usize) -> Seq<
    Subscription,
> {
    let p = spec_find_sub(ss, topic, conn);
    if p >= 0 {
        ss.remove(p)
    } else {
        ss
    }
}

pub open spec fn spec_without_conn(ss: Seq<Subscription>, conn: usize) -> Seq<Subscription> {
    ss.filter(|s: Subscription| s.conn != conn)
}

/// The (connection, QoS) pairs of every subscription whose filter matches
/// `topic`, in subscription order.
pub open spec fn spec_matching(ts: Seq<Seq<u8>>, ss: Seq<Subscription>, topic: Seq<u8>) -> Seq<
    (usize, u8),
>
    decreases ss.len(),
{
    if ss.len() == 0 {
        Seq::empty()
    } else {
        let rest = spec_matching(ts, ss.drop_last(), topic);
        let s = ss.last();
        if s.topic < ts.len() && spec_filter_matches(ts[s.topic as int], topic) {
            rest.push((s.conn, s.max_qos))
        } else {
            rest
        }
    }
}

pub open spec fn spec_unique_subs(ss: Seq<Subscription>) -> bool {
    forall|i: int, j: int|
        0 <= i < ss.len() && 0 <= j < ss.len() && i != j ==> !(#[trigger] ss[i].topic == #[trigger] ss[j].topic
            && ss[i].conn == ss[j].conn)
}

impl RegistryModel {
    pub open spec fn wf(self) -> bool {
        &&& self.capacity <= usize::MAX
        &&& self.topics.len() <= self.capacity
        &&& forall|i: int| 0 <= i < self.topics.len() ==> #[trigger] self.topics[i].len() <= MAX_TOPIC_LEN
        &&& forall|i: int, j: int|
            0 <= i < self.topics.len() && 0 <= j < self.topics.len() && i != j ==> #[trigger] self.topics[i]
                != #[trigger] self.topics[j]
        &&& forall|k: int|
            0 <= k < self.subscriptions.len() ==> #[trigger] self.subscriptions[k].topic
                < self.topics.len()
        &&& spec_unique_subs(self.subscriptions)
    }

    pub open spec fn register(self, name: Seq<u8>) -> (RegistryModel, Result<usize, TopicsError>) {
        let p = spec_find_topic(self.topics, name);
        if name.len() > MAX_TOPIC_LEN {
            (self, Err(TopicsError::TopicTooLong))
        } else if p >= 0 {
            (self, Ok(p as usize))
        } else if self.topics.len() >= self.capacity {
            (self, Err(TopicsError::Full))
        } else {
            (RegistryModel { topics: self.topics.push(name), ..self }, Ok(self.topics.len() as usize))
        }
    }

    pub open spec fn subscribe(self, filter: Seq<u8>, conn: usize, max_qos: u8) -> (
        RegistryModel,
        Result<(), TopicsError>,
    ) {
        if !spec_valid_filter(filter) {
            (self, Err(TopicsError::TopicTooLong))
        } else {
            let (m, r) = self.register(filter);
            match r {
                Ok(h) => (
                    RegistryModel {
                        subscriptions: spec_set_sub(m.subscriptions, h, conn, max_qos),
                        ..m
                    },
                    Ok(()),
                ),
                Err(e) => (m, Err(e)),
            }
        }
    }

    pub open spec fn unsubscribe(self, filter: Seq<u8>, conn: usize) -> RegistryModel {
        let p = spec_find_topic(self.topics, filter);
        if p >= 0 {
            RegistryModel {
                subscriptions: spec_remove_sub(self.subscriptions, p as usize, conn),
                ..self
            }
        } else {
            self
        }
    }

    pub open spec fn drop_connection(self, conn: usize) -> RegistryModel {
        RegistryModel { subscriptions: spec_without_conn(self.subscriptions, conn), ..self }
    }

    pub open spec fn matching(self, topic: Seq<u8>) -> Seq<(usize, u8)> {
        spec_matching(self.topics, self.subscriptions, topic)
    }

    /// Whether `conn` holds any subscription.
    pub open spec fn has_subscription_of(self, conn: usize) -> bool {
        exists|k: int| 0 <= k < self.subscriptions.len() && #[trigger] self.subscriptions[k].conn == conn
    }
}

pub proof fn lemma_find_topic(ts: Seq<Seq<u8>>, name: Seq<u8>)
    ensures
        -1 <= spec_find_topic(ts, name) < ts.len(),
        spec_find_topic(ts, name) >= 0 ==> ts[spec_find_topic(ts, name)] == name,
        spec_find_topic(ts, name) == -1 ==> forall|i: int| 0 <= i < ts.len() ==> ts[i] != name,
    decreases ts.len(),
{
    if ts.len() > 0 {
        lemma_find_topic(ts.drop_last(), name);
        assert forall|i: int| 0 <= i < ts.len() - 1 implies ts[i] == ts.drop_last()[i] by {}
    }
}

pub proof fn lemma_find_sub(ss: Seq<Subscription>, topic: usize, conn: usize)
    ensures
        -1 <= spec_find_sub(ss, topic, conn) < ss.len(),
        spec_find_sub(ss, topic, conn) >= 0 ==> ss[spec_find_sub(ss, topic, conn)].topic == topic
            && ss[spec_find_sub(ss, topic, conn)].conn == conn,
        spec_find_sub(ss, topic, conn) == -1 ==> forall|i: int|
            0 <= i < ss.len() ==> !(ss[i].topic == topic && ss[i].conn == conn),
    decreases ss.len(),
{
    if ss.len() > 0 {
        lemma_find_sub(ss.drop_last(), topic, conn);
        assert forall|i: int| 0 <= i < ss.len() - 1 implies ss[i] == ss.drop_last()[i] by {}
    }
}

proof fn lemma_without_conn(ss: Seq<Subscription>, conn: usize)
    requires
        spec_unique_subs(ss),
    ensures
        spec_unique_subs(spec_without_conn(ss, conn)),
        forall|k: int|
            0 <= k < spec_without_conn(ss, conn).len() ==> ss.contains(
                #[trigger] spec_without_conn(ss, conn)[k],
            ),
        forall|k: int|
            0 <= k < spec_without_conn(ss, conn).len() ==> (
            #[trigger] spec_without_conn(ss, conn)[k]).conn != conn,
    decreases ss.len(),
{
    reveal(Seq::filter);
    if ss.len() > 0 {
        let d = ss.drop_last();
        assert forall|i: int, j: int|
            0 <= i < d.len() && 0 <= j < d.len() && i != j implies !(#[trigger] d[i].topic
            == #[trigger] d[j].topic && d[i].conn == d[j].conn) by {
            assert(d[i] == ss[i] && d[j] == ss[j]);
        }
        lemma_without_conn(d, conn);
        let f = spec_without_conn(d, conn);
        let g = spec_without_conn(ss, conn);
        assert forall|k: int| 0 <= k < f.len() implies ss.contains(#[trigger] f[k]) by {
            let j = choose|j: int| 0 <= j < d.len() && d[j] == f[k];
            assert(ss[j] == d[j]);
        }
        if ss.last().conn != conn {
            assert(g == f.push(ss.last()));
            assert forall|k: int| 0 <= k < f.len() implies !(f[k].topic == ss.last().topic
                && f[k].conn == ss.last().conn) by {
                let j = choose|j: int| 0 <= j < d.len() && d[j] == f[k];
                assert(ss[j] == d[j]);
            }
            assert forall|k: int| 0 <= k < g.len() implies ss.contains(#[trigger] g[k]) by {
                if k == f.len() {
                    assert(ss[ss.len() - 1] == g[k]);
                } else {
                    assert(g[k] == f[k]);
                }
            }
            assert forall|i: int, j: int|
                0 <= i < g.len() && 0 <= j < g.len() && i != j implies !(#[trigger] g[i].topic
                == #[trigger] g[j].topic && g[i].conn == g[j].conn) by {
                if i < f.len() && j < f.len() {
                    assert(g[i] == f[i] && g[j] == f[j]);
                } else if i < f.len() {
                    assert(g[i] == f[i]);
                } else {
                    assert(g[j] == f[j]);
                }
            }
        } else {
            assert(g == f);
        }
    }
}

proof fn lemma_set_sub_unique(ss: Seq<Subscription>, topic: usize, conn: usize, max_qos: u8)
    requires
        spec_unique_subs(ss),
    ensures
        spec_unique_subs(spec_set_sub(ss, topic, conn, max_qos)),
        forall|k: int|
            0 <= k < spec_set_sub(ss, topic, conn, max_qos).len() ==> (#[trigger] spec_set_sub(
                ss,
                topic,
                conn,
                max_qos,
            )[k]).topic == topic || exists|j: int| 0 <= j < ss.len() && ss[j] == spec_set_sub(ss, topic, conn, max_qos)[k],
{
    lemma_find_sub(ss, topic, conn);
    let g = spec_set_sub(ss, topic, conn, max_qos);
    assert forall|k: int| 0 <= k < g.len() && g[k].topic != topic implies exists|j: int|
        0 <= j < ss.len() && ss[j] == #[trigger] g[k] by {
        assert(ss[k] == g[k]);
    }
}

/// Whether the `k`-th subscription is one of `conn` to `filter`.
pub open spec fn spec_is_sub_of(m: RegistryModel, k: int, filter: Seq<u8>, conn: usize) -> bool {
    &&& 0 <= k < m.subscriptions.len()
    &&& m.subscriptions[k].topic < m.topics.len()
    &&& m.topics[m.subscriptions[k].topic as int] == filter
    &&& m.subscriptions[k].conn == conn
}

proof fn lemma_register_wf(m: RegistryModel, name: Seq<u8>)
    requires
        m.wf(),
    ensures
        m.register(name).0.wf(),
        m.register(name).1 matches Ok(h) ==> h < m.register(name).0.topics.len()
            && m.register(name).0.topics[h as int] == name,
        m.register(name).0.subscriptions == m.subscriptions,
        m.topics.contains(name) && name.len() <= MAX_TOPIC_LEN ==> m.register(name).1 is Ok,
{
    lemma_find_topic(m.topics, name);
    let m1 = m.register(name).0;
    if m.topics.contains(name) && name.len() <= MAX_TOPIC_LEN {
        let i = choose|i: int| 0 <= i < m.topics.len() && m.topics[i] == name;
        assert(m.topics[i] == name);
    }
    assert forall|k: int| 0 <= k < m1.subscriptions.len() implies #[trigger] m1.subscriptions[k].topic
        < m1.topics.len() by {
        assert(m.subscriptions[k].topic < m.topics.len());
    }
}

/// A successful subscription leaves a well-formed registry holding exactly
/// one subscription of `conn` to `filter`, with the QoS just given.
pub proof fn lemma_subscribe_sets(m: RegistryModel, filter: Seq<u8>, conn: usize, max_qos: u8)
    requires
        m.wf(),
        m.subscribe(filter, conn, max_qos).1 is Ok,
    ensures
        m.subscribe(filter, conn, max_qos).0.wf(),
        exists|k: int|
            spec_is_sub_of(m.subscribe(filter, conn, max_qos).0, k, filter, conn)
                && m.subscribe(filter, conn, max_qos).0.subscriptions[k].max_qos == max_qos,
        forall|i: int, j: int|
            spec_is_sub_of(m.subscribe(filter, conn, max_qos).0, i, filter, conn) && spec_is_sub_of(
                m.subscribe(filter, conn, max_qos).0,
                j,
                filter,
                conn,
            ) ==> i == j,
{
    lemma_register_wf(m, filter);
    let (m1, r) = m.register(filter);
    let h = r->Ok_0;
    let m2 = m.subscribe(filter, conn, max_qos).0;
    let ss = m1.subscriptions;
    lemma_find_sub(ss, h, conn);
    lemma_set_sub_unique(ss, h, conn, max_qos);
    assert(m2.subscriptions == spec_set_sub(ss, h, conn, max_qos));
    assert forall|k: int| 0 <= k < m2.subscriptions.len() implies #[trigger] m2.subscriptions[k].topic
        < m2.topics.len() by {
        if m2.subscriptions[k].topic != h {
            let j = choose|j: int| 0 <= j < ss.len() && ss[j] == m2.subscriptions[k];
            assert(ss[j].topic < m1.topics.len());
        }
    }
    let p = if spec_find_sub(ss, h, conn) >= 0 {
        spec_find_sub(ss, h, conn)
    } else {
        ss.len() as int
    };
    assert(m2.subscriptions[p] == Subscription { topic: h, conn, max_qos });
    assert(spec_is_sub_of(m2, p, filter, conn));
    assert forall|i: int, j: int|
        spec_is_sub_of(m2, i, filter, conn) && spec_is_sub_of(m2, j, filter, conn) implies i == j by {
        assert(m2.subscriptions[i].topic == h);
        assert(m2.subscriptions[j].topic == h);
    }
}

/// Subscribing the same connection to the same filter twice leaves exactly
/// one subscription of that pair, and it carries the later QoS.
pub proof fn lemma_resubscribe_keeps_one(
    m: RegistryModel,
    filter: Seq<u8>,
    conn: usize,
    first_qos: u8,
    second_qos: u8,
)
    requires
        m.wf(),
        m.subscribe(filter, conn, first_qos).1 is Ok,
    ensures
        ({
            let (m2, r) = m.subscribe(filter, conn, first_qos).0.subscribe(filter, conn, second_qos);
            &&& r is Ok
            &&& m2.wf()
            &&& exists|k: int| spec_is_sub_of(m2, k, filter, conn) && m2.subscriptions[k].max_qos == second_qos
            &&& forall|i: int, j: int|
                spec_is_sub_of(m2, i, filter, conn) && spec_is_sub_of(m2, j, filter, conn) ==> i == j
        }),
{
    lemma_subscribe_sets(m, filter, conn, first_qos);
    let m1 = m.subscribe(filter, conn, first_qos).0;
    let k = choose|k: int| spec_is_sub_of(m1, k, filter, conn) && m1.subscriptions[k].max_qos == first_qos;
    assert(m1.topics.contains(filter)) by {
        assert(m1.topics[m1.subscriptions[k].topic as int] == filter);
    }
    lemma_register_wf(m1, filter);
    lemma_subscribe_sets(m1, filter, conn, second_qos);
}

/// A fixed-capacity store of topic filters and of the connections
/// subscribed to them.
pub struct TopicRegistry {
    topics: Vec<Vec<u8>>,
    subscriptions: Vec<Subscription>,
    capacity: usize,
}

impl View for TopicRegistry {
    type V = RegistryModel;

    closed spec fn view(&self) -> RegistryModel {
        RegistryModel {
            topics: views(self.topics@),
            subscriptions: self.subscriptions@,
            capacity: self.capacity as nat,
        }
    }
}

impl TopicRegistry {
    /// An empty registry that holds at most `capacity` filters.
    pub fn new(capacity: usize) -> (r: TopicRegistry)
        ensures
            r@.wf(),
            r@.topics.len() == 0,
            r@.subscriptions.len() == 0,
            r@.capacity == capacity,
    {
        let r = TopicRegistry { topics: Vec::new(), subscriptions: Vec::new(), capacity };
        assert(r@.topics =~= Seq::<Seq<u8>>::empty());
        r
    }

    fn find_topic(&self, name: &Vec<u8>) -> (r: Option<usize>)
        ensures
            r is None ==> spec_find_topic(self@.topics, name@) == -1,
            r matches Some(h) ==> spec_find_topic(self@.topics, name@) == h,
    {
        let ghost ts = self@.topics;
        let mut found: Option<usize> = None;
        for i in 0..self.topics.len()
            invariant
                ts == self@.topics,
                ts == views(self.topics@),
                found is None ==> spec_find_topic(ts.take(i as int), name@) == -1,
                found matches Some(h) ==> spec_find_topic(ts.take(i as int), name@) == h,
        {
            assert(ts.take(i + 1).drop_last() =~= ts.take(i as int));
            assert(ts.take(i + 1).last() == self.topics@[i as int]@);
            if bytes_equal(&self.topics[i], name) {
                found = Some(i);
            }
        }
        assert(ts.take(self.topics.len() as int) =~= ts);
        found
    }

    fn find_sub(&self, topic: usize, conn: usize) -> (r: Option<usize>)
        ensures
            r is None ==> spec_find_sub(self@.subscriptions, topic, conn) == -1,
            r matches Some(p) ==> spec_find_sub(self@.subscriptions, topic, conn) == p,
    {
        let ghost ss = self@.subscriptions;
        let mut found: Option<usize> = None;
        for i in 0..self.subscriptions.len()
            invariant
                ss == self@.subscriptions,
                ss == self.subscriptions@,
                found is None ==> spec_find_sub(ss.take(i as int), topic, conn) == -1,
                found matches Some(p) ==> spec_find_sub(ss.take(i as int), topic, conn) == p,
        {
            assert(ss.take(i + 1).drop_last() =~= ss.take(i as int));
            let s = self.subscriptions[i];
            if s.topic == topic && s.conn == conn {
                found = Some(i);
            }
        }
        assert(ss.take(self.subscriptions.len() as int) =~= ss);
        found
    }

    /// Registers a topic name and returns its handle. A name that is
    /// already stored gets its handle back whether or not the registry is
    /// full; a new one is refused when the registry is full.
    pub fn register_topic(&mut self, name: &Vec<u8>) -> (r: Result<usize, TopicsError>)
        requires
            old(self)@.wf(),
        ensures
            final(self)@.wf(),
            (final(self)@, r) == old(self)@.register(name@),
            name@.len() > MAX_TOPIC_LEN ==> r == Err::<usize, TopicsError>(TopicsError::TopicTooLong),
            name@.len() <= MAX_TOPIC_LEN && old(self)@.topics.len() < old(self)@.capacity ==> r is Ok,
            old(self)@.topics.contains(name@) ==> r is Ok,
            r is Ok ==> r->Ok_0 < final(self)@.topics.len() && final(self)@.topics[r->Ok_0 as int]
                == name@,
            r == Err::<usize, TopicsError>(TopicsError::Full) ==> old(self)@.topics.len()
                == old(self)@.capacity && !old(self)@.topics.contains(name@),
    {
        proof {
            lemma_find_topic(self@.topics, name@);
        }
        if name.len() > MAX_TOPIC_LEN {
            return Err(TopicsError::TopicTooLong);
        }
        match self.find_topic(name) {
            Some(h) => Ok(h),
            None => {
                if self.topics.len() >= self.capacity {
                    Err(TopicsError::Full)
                } else {
                    let ghost old_m = self@;
                    let h = self.topics.len();
                    self.topics.push(copy_bytes(name));
                    assert(self@.topics =~= old_m.topics.push(name@));
                    Ok(h)
                }
            },
        }
    }

    /// Subscribes `conn` to `filter` with the given maximum QoS; a second
    /// subscription of the same pair replaces the QoS of the first. A
    /// malformed or overlong filter is refused as `TopicTooLong`.
    pub fn subscribe(&mut self, filter: &Vec<u8>, conn: usize, max_qos: u8) -> (r: Result<
        (),
        TopicsError,
    >)
        requires
            old(self)@.wf(),
        ensures
            final(self)@.wf(),
            (final(self)@, r) == old(self)@.subscribe(filter@, conn, max_qos),
    {
        if !is_valid_filter(filter) {
            return Err(TopicsError::TopicTooLong);
        }
        let h = match self.register_topic(filter) {
            Ok(h) => h,
            Err(e) => {
                return Err(e);
            },
        };
        let ghost mid = self@;
        proof {
            lemma_find_sub(mid.subscriptions, h, conn);
            lemma_subscribe_sets(old(self)@, filter@, conn, max_qos);
        }
        let s = Subscription { topic: h, conn, max_qos };
        match self.find_sub(h, conn) {
            Some(p) => {
                self.subscriptions.set(p, s);
            },
            None => {
                self.subscriptions.push(s);
            },
        }
        assert(self@.subscriptions == spec_set_sub(mid.subscriptions, h, conn, max_qos));
        Ok(())
    }

    /// Removes the subscription of `conn` to `filter`, if there is one.
    pub fn unsubscribe(&mut self, filter: &Vec<u8>, conn: usize)
        requires
            old(self)@.wf(),
        ensures
            final(self)@.wf(),
            final(self)@ == old(self)@.unsubscribe(filter@, conn),
    {
        proof {
            lemma_find_topic(self@.topics, filter@);
        }
        if let Some(h) = self.find_topic(filter) {
            proof {
                lemma_find_sub(self@.subscriptions, h, conn);
            }
            if let Some(p) = self.find_sub(h, conn) {
                let ghost old_m = self@;
                self.subscriptions.remove(p);
                assert(self@.subscriptions =~= old_m.subscriptions.remove(p as int));
                assert(self@ =~= old_m.unsubscribe(filter@, conn));
            }
        }
    }

    /// Removes every subscription of `conn`.
    pub fn drop_connection(&mut self, conn: usize)
        requires
            old(self)@.wf(),
        ensures
            final(self)@.wf(),
            final(self)@ == old(self)@.drop_connection(conn),
            !final(self)@.has_subscription_of(conn),
    {
        let ghost ss = self@.subscriptions;
        let mut kept: Vec<Subscription> = Vec::new();
        for i in 0..self.subscriptions.len()
            invariant
                ss == self.subscriptions@,
                kept@ == spec_without_conn(ss.take(i as int), conn),
        {
            proof {
                reveal(Seq::filter);
                assert(ss.take(i + 1).drop_last() =~= ss.take(i as int));
            }
            let s = self.subscriptions[i];
            if s.conn != conn {
                kept.push(s);
            }
        }
        assert(ss.take(self.subscriptions.len() as int) =~= ss);
        proof {
            lemma_without_conn(ss, conn);
        }
        self.subscriptions = kept;
    }

    /// The (connection, QoS) pairs of every subscription whose filter
    /// matches `topic`, computed afresh.
    pub fn matching_subscribers(&self, topic: &Vec<u8>) -> (r: Vec<(usize, u8)>)
        ensures
            r@ == self@.matching(topic@),
    {
        let ghost ts = self@.topics;
        let ghost ss = self@.subscriptions;
        let mut r: Vec<(usize, u8)> = Vec::new();
        for i in 0..self.subscriptions.len()
            invariant
                ts == self@.topics,
                ts == views(self.topics@),
                ss == self.subscriptions@,
                r@ == spec_matching(ts, ss.take(i as int), topic@),
        {
            assert(ss.take(i + 1).drop_last() =~= ss.take(i as int));
            let s = self.subscriptions[i];
            if s.topic < self.topics.len() {
                assert(ts[s.topic as int] == self.topics@[s.topic as int]@);
                if filter_matches(&self.topics[s.topic], topic) {
                    r.push((s.conn, s.max_qos));
                }
            }
        }
        assert(ss.take(self.subscriptions.len() as int) =~= ss);
        r
    }
}

} // verus!
