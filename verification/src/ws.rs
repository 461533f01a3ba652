//! WebSocket topic subscriptions: which connected client receives which event.
//!
//! The hub keeps, per connected client, the set of topics it listens to. New
//! clients listen to every topic; a `subscribe` message replaces the set with
//! the known topics it names; an event goes to every client whose set holds its
//! topic. Sending over the sockets is done by the server around this registry.
use vstd::prelude::*;

use crate::text::{lex_lt, str_eq, views};

verus! {

/// The topics a client can listen to.
#[derive(Debug, Clone, Copy, PartialEq, Eq, Structural)]
pub enum Topic {
    Ai,
    Equity,
    Fill,
    Healthz,
    Signal,
}

/// Wire name of a topic.
pub open spec fn topic_name_of(t: Topic) -> Seq<char> {
    match t {
        Topic::Ai => "ai"@,
        Topic::Equity => "equity"@,
        Topic::Fill => "fill"@,
        Topic::Healthz => "healthz"@,
        Topic::Signal => "signal"@,
    }
}

/// The topic with a given wire name, if any.
pub open spec fn topic_named(s: Seq<char>) -> Option<Topic> {
    if s == "signal"@ {
        Some(Topic::Signal)
    } else if s == "fill"@ {
        Some(Topic::Fill)
    } else if s == "equity"@ {
        Some(Topic::Equity)
    } else if s == "healthz"@ {
        Some(Topic::Healthz)
    } else if s == "ai"@ {
        Some(Topic::Ai)
    } else {
        None
    }
}

/// Wire names are distinct, so a topic is found again from its name.
pub proof fn lemma_topic_name_roundtrip(t: Topic)
    ensures
        topic_named(topic_name_of(t)) == Some(t),
{
    reveal_strlit("signal");
    reveal_strlit("fill");
    reveal_strlit("equity");
    reveal_strlit("healthz");
    reveal_strlit("ai");
    assert("signal"@.len() == 6 && "fill"@.len() == 4 && "equity"@.len() == 6);
    assert("healthz"@.len() == 7 && "ai"@.len() == 2);
    assert("equity"@[0] != "signal"@[0]);
    match t {
        Topic::Signal => {},
        Topic::Fill => {
            assert("fill"@ != "signal"@);
        },
        Topic::Equity => {
            assert("equity"@ != "signal"@);
            assert("equity"@ != "fill"@);
        },
        Topic::Healthz => {
            assert("healthz"@ != "signal"@);
            assert("healthz"@ != "fill"@);
            assert("healthz"@ != "equity"@);
        },
        Topic::Ai => {
            assert("ai"@ != "signal"@);
            assert("ai"@ != "fill"@);
            assert("ai"@ != "equity"@);
            assert("ai"@ != "healthz"@);
        },
    }
}

/// Wire name of a topic.
pub fn topic_name(t: Topic) -> (s: &'static str)
    ensures
        s@ == topic_name_of(t),
{
    match t {
        Topic::Ai => "ai",
        Topic::Equity => "equity",
        Topic::Fill => "fill",
        Topic::Healthz => "healthz",
        Topic::Signal => "signal",
    }
}

/// The topic with a given wire name; unknown names give `None`.
pub fn topic_from_name(s: &str) -> (r: Option<Topic>)
    ensures
        r == topic_named(s@),
{
    if str_eq(s, "signal") {
        Some(Topic::Signal)
    } else if str_eq(s, "fill") {
        Some(Topic::Fill)
    } else if str_eq(s, "equity") {
        Some(Topic::Equity)
    } else if str_eq(s, "healthz") {
        Some(Topic::Healthz)
    } else if str_eq(s, "ai") {
        Some(Topic::Ai)
    } else {
        None
    }
}

/// A JSON value (serde_json), carried through as an opaque payload.
#[verifier::external_type_specification]
#[verifier::external_body]
pub struct ExJsonValue(serde_json::Value);

/// An event pushed to the clients listening to its topic.
#[derive(Debug)]
pub enum WsEvent {
    Signal { ts: String, payload: serde_json::Value },
    Fill { ts: String, payload: serde_json::Value },
    Equity { ts: String, payload: serde_json::Value },
    Healthz { ts: String, payload: serde_json::Value },
    Ai { ts: String, payload: serde_json::Value },
}

impl WsEvent {
    /// The topic of an event.
    pub open spec fn kind(&self) -> Topic {
        match self {
            WsEvent::Signal { .. } => Topic::Signal,
            WsEvent::Fill { .. } => Topic::Fill,
            WsEvent::Equity { .. } => Topic::Equity,
            WsEvent::Healthz { .. } => Topic::Healthz,
            WsEvent::Ai { .. } => Topic::Ai,
        }
    }

    /// The topic of an event.
    pub fn topic_of(&self) -> (t: Topic)
        ensures
            t == self.kind(),
    {
        match self {
            WsEvent::Signal { .. } => Topic::Signal,
            WsEvent::Fill { .. } => Topic::Fill,
            WsEvent::Equity { .. } => Topic::Equity,
            WsEvent::Healthz { .. } => Topic::Healthz,
            WsEvent::Ai { .. } => Topic::Ai,
        }
    }

    /// Wire name of the event's topic.
    pub fn topic(&self) -> (s: &'static str)
        ensures
            s@ == topic_name_of(self.kind()),
    {
        topic_name(self.topic_of())
    }
}

/// A set of topics.
#[derive(Debug, Clone, Copy, PartialEq, Eq, Structural)]
pub struct TopicSet {
    pub signal: bool,
    pub fill: bool,
    pub equity: bool,
    pub healthz: bool,
    pub ai: bool,
}

impl TopicSet {
    /// Membership.
    pub open spec fn has(self, t: Topic) -> bool {
        match t {
            Topic::Ai => self.ai,
            Topic::Equity => self.equity,
            Topic::Fill => self.fill,
            Topic::Healthz => self.healthz,
            Topic::Signal => self.signal,
        }
    }

    /// Membership.
    pub fn contains(&self, t: Topic) -> (b: bool)
        ensures
            b == self.has(t),
    {
        match t {
            Topic::Ai => self.ai,
            Topic::Equity => self.equity,
            Topic::Fill => self.fill,
            Topic::Healthz => self.healthz,
            Topic::Signal => self.signal,
        }
    }

    /// The empty set.
    pub fn empty() -> (s: Self)
        ensures
            s == (TopicSet { signal: false, fill: false, equity: false, healthz: false, ai: false }),
            forall|t: Topic| !s.has(t),
    {
        TopicSet { signal: false, fill: false, equity: false, healthz: false, ai: false }
    }

    /// Every topic: what a newly connected client listens to.
    pub fn all() -> (s: Self)
        ensures
            s == Self::all_spec(),
            forall|t: Topic| s.has(t),
    {
        TopicSet { signal: true, fill: true, equity: true, healthz: true, ai: true }
    }

    /// Adds one topic.
    pub fn insert(&mut self, t: Topic)
        ensures
            forall|u: Topic| final(self).has(u) == (u == t || old(self).has(u)),
    {
        match t {
            Topic::Ai => self.ai = true,
            Topic::Equity => self.equity = true,
            Topic::Fill => self.fill = true,
            Topic::Healthz => self.healthz = true,
            Topic::Signal => self.signal = true,
        }
    }

    /// Union.
    pub open spec fn union_with(self, o: Self) -> Self {
        TopicSet {
            signal: self.signal || o.signal,
            fill: self.fill || o.fill,
            equity: self.equity || o.equity,
            healthz: self.healthz || o.healthz,
            ai: self.ai || o.ai,
        }
    }

    /// Union.
    pub fn union(&self, o: &Self) -> (r: Self)
        ensures
            r == self.union_with(*o),
    {
        TopicSet {
            signal: self.signal || o.signal,
            fill: self.fill || o.fill,
            equity: self.equity || o.equity,
            healthz: self.healthz || o.healthz,
            ai: self.ai || o.ai,
        }
    }
}

/// The topics that some name of `names` denotes.
pub open spec fn named_in(names: Seq<Seq<char>>, t: Topic) -> bool {
    exists|i: int| 0 <= i < names.len() && names[i] == topic_name_of(t)
}

/// The set of known topics named in a `subscribe` message; unknown names are
/// ignored.
pub fn topics_from_names(names: &[String]) -> (s: TopicSet)
    ensures
        forall|t: Topic| s.has(t) == named_in(views(names@), t),
{
    let mut s = TopicSet::empty();
    let mut i: usize = 0;
    while i < names.len()
        invariant
            i <= names@.len(),
            forall|t: Topic| s.has(t) == named_in(views(names@.take(i as int)), t),
        decreases names@.len() - i,
    {
        let ghost before = s;
        let ghost n = names@[i as int]@;
        let found = topic_from_name(names[i].as_str());
        match found {
            Some(t) => s.insert(t),
            None => {},
        }
        proof {
            let prev = views(names@.take(i as int));
            let next = views(names@.take(i + 1));
            assert(next =~= prev.push(n));
            assert forall|u: Topic| s.has(u) == named_in(next, u) by {
                lemma_topic_name_roundtrip(u);
                if named_in(next, u) && !named_in(prev, u) {
                    let k = choose|k: int| 0 <= k < next.len() && next[k] == topic_name_of(u);
                    assert(k == prev.len());
                }
                if named_in(prev, u) {
                    let k = choose|k: int| 0 <= k < prev.len() && prev[k] == topic_name_of(u);
                    assert(next[k] == prev[k]);
                }
                if n == topic_name_of(u) {
                    assert(next[prev.len() as int] == topic_name_of(u));
                }
            }
        }
        i = i + 1;
    }
    assert(names@.take(names@.len() as int) =~= names@);
    s
}

/// One connected client and the topics it listens to.
#[derive(Debug, Clone, Copy, PartialEq, Eq, Structural)]
pub struct ClientEntry {
    pub id: u128,
    pub topics: TopicSet,
}

/// The ids, in registration order, of the clients listening to `t`.
pub open spec fn recipients_of(cs: Seq<ClientEntry>, t: Topic) -> Seq<u128>
    decreases cs.len(),
{
    if cs.len() == 0 {
        Seq::empty()
    } else {
        let r = recipients_of(cs.drop_last(), t);
        if cs.last().topics.has(t) {
            r.push(cs.last().id)
        } else {
            r
        }
    }
}

/// The clients whose id is not in `ids`, in their order.
pub open spec fn without_ids(cs: Seq<ClientEntry>, ids: Seq<u128>) -> Seq<ClientEntry>
    decreases cs.len(),
{
    if cs.len() == 0 {
        Seq::empty()
    } else {
        let r = without_ids(cs.drop_last(), ids);
        if ids.contains(cs.last().id) {
            r
        } else {
            r.push(cs.last())
        }
    }
}

/// Index of the first client with id `id`.
pub open spec fn index_of_client(cs: Seq<ClientEntry>, id: u128) -> Option<int> {
    if exists|i: int| 0 <= i < cs.len() && cs[i].id == id {
        Some(
            choose|i: int|
                0 <= i < cs.len() && cs[i].id == id && forall|k: int|
                    0 <= k < i ==> cs[k].id != id,
        )
    } else {
        None
    }
}

/// Below any client holding `id` there is a first one.
proof fn lemma_first_client_exists(cs: Seq<ClientEntry>, id: u128, j: int)
    requires
        0 <= j < cs.len(),
        cs[j].id == id,
    ensures
        exists|i: int|
            0 <= i < cs.len() && cs[i].id == id && forall|k: int| 0 <= k < i ==> cs[k].id != id,
    decreases j,
{
    if exists|k: int| 0 <= k < j && cs[k].id == id {
        let k = choose|k: int| 0 <= k < j && cs[k].id == id;
        lemma_first_client_exists(cs, id, k);
    } else {
        assert(forall|k: int| 0 <= k < j ==> cs[k].id != id);
    }
}

/// What [`index_of_client`] gives: the index of the first client holding
/// `id`, in bounds, or `None` when no client holds it.
pub proof fn lemma_index_of_client(cs: Seq<ClientEntry>, id: u128)
    ensures
        match index_of_client(cs, id) {
            Some(i) => 0 <= i < cs.len() && cs[i].id == id && forall|k: int|
                0 <= k < i ==> cs[k].id != id,
            None => forall|k: int| 0 <= k < cs.len() ==> cs[k].id != id,
        },
{
    if exists|j: int| 0 <= j < cs.len() && cs[j].id == id {
        let j = choose|j: int| 0 <= j < cs.len() && cs[j].id == id;
        lemma_first_client_exists(cs, id, j);
    }
}

/// The topics listened to by at least one client.
pub open spec fn union_of(cs: Seq<ClientEntry>) -> TopicSet
    decreases cs.len(),
{
    if cs.len() == 0 {
        TopicSet { signal: false, fill: false, equity: false, healthz: false, ai: false }
    } else {
        union_of(cs.drop_last()).union_with(cs.last().topics)
    }
}

/// The topics of a set in ascending order of their names.
pub open spec fn sorted_topics(s: TopicSet) -> Seq<Topic> {
    (if s.ai {
        seq![Topic::Ai]
    } else {
        Seq::empty()
    }) + (if s.equity {
        seq![Topic::Equity]
    } else {
        Seq::empty()
    }) + (if s.fill {
        seq![Topic::Fill]
    } else {
        Seq::empty()
    }) + (if s.healthz {
        seq![Topic::Healthz]
    } else {
        Seq::empty()
    }) + (if s.signal {
        seq![Topic::Signal]
    } else {
        Seq::empty()
    })
}

// ───────────── heartbeat ─────────────

/// What the hub does with a connection on a heartbeat tick.
#[derive(Debug, Clone, Copy, PartialEq, Eq, Structural)]
pub enum HeartbeatAction {
    /// The client has been silent for 30 s or more: close the connection.
    Drop,
    /// The last ping is 15 s old or more: send another.
    Ping,
    /// Nothing to do yet.
    Wait,
}

/// The heartbeat rule: a client silent for 30 s is dropped; otherwise a ping
/// goes out every 15 s.
pub open spec fn heartbeat_of(ms_since_ping: nat, ms_since_client: nat) -> HeartbeatAction {
    if ms_since_client >= 30_000 {
        HeartbeatAction::Drop
    } else if ms_since_ping >= 15_000 {
        HeartbeatAction::Ping
    } else {
        HeartbeatAction::Wait
    }
}

/// The action for a connection whose last ping went out `ms_since_ping` ms
/// ago and whose client last sent something `ms_since_client` ms ago.
pub fn heartbeat_action(ms_since_ping: u64, ms_since_client: u64) -> (a: HeartbeatAction)
    ensures
        a == heartbeat_of(ms_since_ping as nat, ms_since_client as nat),
{
    if ms_since_client >= 30_000 {
        HeartbeatAction::Drop
    } else if ms_since_ping >= 15_000 {
        HeartbeatAction::Ping
    } else {
        HeartbeatAction::Wait
    }
}

/// Connected clients and their subscriptions.
pub struct WsRegistry {
    clients: Vec<ClientEntry>,
}

impl View for WsRegistry {
    type V = Seq<ClientEntry>;

    closed spec fn view(&self) -> Seq<ClientEntry> {
        self.clients@
    }
}

impl WsRegistry {
    /// A registry without clients.
    pub fn new() -> (r: Self)
        ensures
            r@ == Seq::<ClientEntry>::empty(),
    {
        WsRegistry { clients: Vec::new() }
    }

    /// Number of connected clients.
    pub fn len(&self) -> (n: usize)
        ensures
            n == self@.len(),
    {
        self.clients.len()
    }

    /// Registers a client, listening to every topic.
    pub fn connect(&mut self, id: u128)
        ensures
            final(self)@ == old(self)@.push(ClientEntry { id, topics: TopicSet::all_spec() }),
    {
        self.clients.push(ClientEntry { id, topics: TopicSet::all() });
    }

    /// Handles a `subscribe` message: the first client with `id` now listens
    /// to exactly the known topics that `names` lists. Returns whether such a
    /// client is registered; nothing changes when it is not.
    pub fn subscribe(&mut self, id: u128, names: &[String]) -> (found: bool)
        ensures
            found == (index_of_client(old(self)@, id) is Some),
            match index_of_client(old(self)@, id) {
                Some(i) => final(self)@ == old(self)@.update(
                    i,
                    ClientEntry { id, topics: final(self)@[i].topics },
                ) && forall|t: Topic| final(self)@[i].topics.has(t) == named_in(
                    views(names@),
                    t,
                ),
                None => final(self)@ == old(self)@,
            },
    {
        let mut i: usize = 0;
        while i < self.clients.len()
            invariant
                i <= self.clients@.len(),
                self.clients@ == old(self).clients@,
                forall|k: int| 0 <= k < i ==> self.clients@[k].id != id,
            decreases self.clients@.len() - i,
        {
            if self.clients[i].id == id {
                let topics = topics_from_names(names);
                self.clients.set(i, ClientEntry { id, topics });
                proof {
                    lemma_index_of_client(old(self)@, id);
                    let j = index_of_client(old(self)@, id)->0;
                    assert(j == i) by {
                        if j > i {
                            assert(old(self)@[i as int].id == id);
                        }
                    }
                }
                return true;
            }
            i = i + 1;
        }
        false
    }

    /// The ids, in registration order, of the clients that an event of topic
    /// `t` goes to.
    pub fn recipients(&self, t: Topic) -> (r: Vec<u128>)
        ensures
            r@ == recipients_of(self@, t),
    {
        let mut r: Vec<u128> = Vec::new();
        let mut i: usize = 0;
        while i < self.clients.len()
            invariant
                i <= self.clients@.len(),
                r@ == recipients_of(self.clients@.take(i as int), t),
            decreases self.clients@.len() - i,
        {
            assert(self.clients@.take(i + 1).drop_last() =~= self.clients@.take(i as int));
            if self.clients[i].topics.contains(t) {
                r.push(self.clients[i].id);
            }
            i = i + 1;
        }
        assert(self.clients@.take(self.clients@.len() as int) =~= self.clients@);
        r
    }

    /// Drops the clients whose id is in `ids` (those whose socket is gone),
    /// keeping the others in order.
    pub fn remove_clients(&mut self, ids: &[u128])
        ensures
            final(self)@ == without_ids(old(self)@, ids@),
    {
        let old_clients = self.clients.clone();
        let mut kept: Vec<ClientEntry> = Vec::new();
        let mut i: usize = 0;
        while i < old_clients.len()
            invariant
                i <= old_clients@.len(),
                old_clients@ == old(self)@,
                kept@ == without_ids(old_clients@.take(i as int), ids@),
            decreases old_clients@.len() - i,
        {
            assert(old_clients@.take(i + 1).drop_last() =~= old_clients@.take(i as int));
            let c = old_clients[i];
            if !contains_id(ids, c.id) {
                kept.push(c);
            }
            i = i + 1;
        }
        assert(old_clients@.take(old_clients@.len() as int) =~= old_clients@);
        self.clients = kept;
    }

    /// Drops the client with `id` once its socket closes.
    pub fn disconnect(&mut self, id: u128)
        ensures
            final(self)@ == without_ids(old(self)@, seq![id]),
    {
        let ids = vec![id];
        assert(ids@ =~= seq![id]);
        self.remove_clients(&ids);
    }

    /// Number of clients and the names of the topics that at least one of
    /// them listens to, in ascending order.
    pub fn stats(&self) -> (r: (usize, Vec<String>))
        ensures
            r.0 == self@.len(),
            views(r.1@) == sorted_topics(union_of(self@)).map_values(|t: Topic| topic_name_of(t)),
    {
        let mut u = TopicSet::empty();
        let mut i: usize = 0;
        assert(self.clients@.take(0) =~= Seq::<ClientEntry>::empty());
        while i < self.clients.len()
            invariant
                i <= self.clients@.len(),
                u == union_of(self.clients@.take(i as int)),
            decreases self.clients@.len() - i,
        {
            assert(self.clients@.take(i + 1).drop_last() =~= self.clients@.take(i as int));
            u = u.union(&self.clients[i].topics);
            i = i + 1;
        }
        assert(self.clients@.take(self.clients@.len() as int) =~= self.clients@);
        let names = sorted_topic_names(&u);
        (self.clients.len(), names)
    }
}

impl TopicSet {
    /// Every topic.
    pub open spec fn all_spec() -> Self {
        TopicSet { signal: true, fill: true, equity: true, healthz: true, ai: true }
    }
}

/// Whether `id` is in `ids`.
fn contains_id(ids: &[u128], id: u128) -> (b: bool)
    ensures
        b == ids@.contains(id),
{
    let mut i: usize = 0;
    while i < ids.len()
        invariant
            i <= ids@.len(),
            forall|k: int| 0 <= k < i ==> ids@[k] != id,
        decreases ids@.len() - i,
    {
        if ids[i] == id {
            return true;
        }
        i = i + 1;
    }
    false
}

/// The names of the topics of `s`, ascending.
fn sorted_topic_names(s: &TopicSet) -> (r: Vec<String>)
    ensures
        views(r@) == sorted_topics(*s).map_values(|t: Topic| topic_name_of(t)),
{
    let mut r: Vec<String> = Vec::new();
    let ghost mut ts: Seq<Topic> = Seq::empty();
    if s.ai {
        r.push(crate::text::owned("ai"));
        proof { ts = ts.push(Topic::Ai); }
    }
    if s.equity {
        r.push(crate::text::owned("equity"));
        proof { ts = ts.push(Topic::Equity); }
    }
    if s.fill {
        r.push(crate::text::owned("fill"));
        proof { ts = ts.push(Topic::Fill); }
    }
    if s.healthz {
        r.push(crate::text::owned("healthz"));
        proof { ts = ts.push(Topic::Healthz); }
    }
    if s.signal {
        r.push(crate::text::owned("signal"));
        proof { ts = ts.push(Topic::Signal); }
    }
    assert(ts =~= sorted_topics(*s));
    assert(views(r@) =~= ts.map_values(|t: Topic| topic_name_of(t)));
    r
}

} // verus!

verus! {

// ───────────── laws of the hub ─────────────

/// An event of topic `t` reaches a client id exactly when some registered
/// client with that id listens to `t`.
pub proof fn law_recipient_iff_subscribed(cs: Seq<ClientEntry>, t: Topic, id: u128)
    ensures
        recipients_of(cs, t).contains(id) <==> exists|k: int|
            0 <= k < cs.len() && cs[k].id == id && cs[k].topics.has(t),
    decreases cs.len(),
{
    if cs.len() > 0 {
        let r = recipients_of(cs.drop_last(), t);
        law_recipient_iff_subscribed(cs.drop_last(), t, id);
        if exists|k: int| 0 <= k < cs.len() && cs[k].id == id && cs[k].topics.has(t) {
            let k = choose|k: int| 0 <= k < cs.len() && cs[k].id == id && cs[k].topics.has(t);
            if k < cs.len() - 1 {
                assert(cs.drop_last()[k] == cs[k]);
                if cs.last().topics.has(t) {
                    let j = choose|j: int| 0 <= j < r.len() && r[j] == id;
                    assert(r.push(cs.last().id)[j] == id);
                }
            } else {
                assert(r.push(cs.last().id)[r.len() as int] == id);
            }
        }
        if recipients_of(cs, t).contains(id) {
            if cs.last().topics.has(t) && cs.last().id == id {
            } else {
                let j = choose|j: int| 0 <= j < recipients_of(cs, t).len() && recipients_of(cs, t)[j] == id;
                if cs.last().topics.has(t) {
                    assert(r.contains(id)) by {
                        assert(j < r.len());
                        assert(r[j] == id);
                    }
                }
                let k = choose|k: int|
                    0 <= k < cs.drop_last().len() && cs.drop_last()[k].id == id
                        && cs.drop_last()[k].topics.has(t);
                assert(cs[k] == cs.drop_last()[k]);
            }
        }
    }
}

/// A newly connected client listens to every topic: it is the last
/// recipient of any event, after the earlier ones.
pub proof fn law_new_client_receives_everything(cs: Seq<ClientEntry>, id: u128, t: Topic)
    ensures
        recipients_of(cs.push(ClientEntry { id, topics: TopicSet::all_spec() }), t)
            == recipients_of(cs, t).push(id),
{
    let c = cs.push(ClientEntry { id, topics: TopicSet::all_spec() });
    assert(c.drop_last() =~= cs);
}

/// After a client disconnects, no event reaches its id, and every other id
/// receives exactly what it received before.
pub proof fn law_disconnect(cs: Seq<ClientEntry>, id: u128, t: Topic, other: u128)
    requires
        other != id,
    ensures
        !recipients_of(without_ids(cs, seq![id]), t).contains(id),
        recipients_of(without_ids(cs, seq![id]), t).contains(other) == recipients_of(
            cs,
            t,
        ).contains(other),
{
    let ids = seq![id];
    let w = without_ids(cs, ids);
    lemma_without_ids_members(cs, ids);
    law_recipient_iff_subscribed(w, t, id);
    law_recipient_iff_subscribed(w, t, other);
    law_recipient_iff_subscribed(cs, t, other);
    assert(ids.contains(id)) by {
        assert(ids[0] == id);
    }
    assert(!ids.contains(other)) by {
        if ids.contains(other) {
            let j = choose|j: int| 0 <= j < ids.len() && ids[j] == other;
            assert(j == 0);
        }
    }
    assert forall|k: int| 0 <= k < w.len() implies w[k].id != id by {
        assert(w.contains(w[k]));
    }
    if exists|k: int| 0 <= k < cs.len() && cs[k].id == other && cs[k].topics.has(t) {
        let k = choose|k: int| 0 <= k < cs.len() && cs[k].id == other && cs[k].topics.has(t);
        assert(cs.contains(cs[k]));
        assert(w.contains(cs[k]));
        let j = choose|j: int| 0 <= j < w.len() && w[j] == cs[k];
        assert(w[j].id == other && w[j].topics.has(t));
    }
    if exists|j: int| 0 <= j < w.len() && w[j].id == other && w[j].topics.has(t) {
        let j = choose|j: int| 0 <= j < w.len() && w[j].id == other && w[j].topics.has(t);
        assert(w.contains(w[j]));
        assert(cs.contains(w[j]));
        let k = choose|k: int| 0 <= k < cs.len() && cs[k] == w[j];
        assert(cs[k].id == other && cs[k].topics.has(t));
    }
}

/// The clients kept by `without_ids` are exactly those whose id is not
/// listed.
pub proof fn lemma_without_ids_members(cs: Seq<ClientEntry>, ids: Seq<u128>)
    ensures
        forall|c: ClientEntry|
            #[trigger] without_ids(cs, ids).contains(c) <==> (cs.contains(c) && !ids.contains(
                c.id,
            )),
    decreases cs.len(),
{
    if cs.len() > 0 {
        lemma_without_ids_members(cs.drop_last(), ids);
        let r = without_ids(cs.drop_last(), ids);
        let w = without_ids(cs, ids);
        assert forall|c: ClientEntry|
            #[trigger] w.contains(c) <==> (cs.contains(c) && !ids.contains(c.id)) by {
            if cs.contains(c) && !ids.contains(c.id) {
                let k = choose|k: int| 0 <= k < cs.len() && cs[k] == c;
                if k < cs.len() - 1 {
                    assert(cs.drop_last()[k] == c);
                    assert(cs.drop_last().contains(c));
                    assert(r.contains(c));
                    let j = choose|j: int| 0 <= j < r.len() && r[j] == c;
                    if !ids.contains(cs.last().id) {
                        assert(w[j] == c);
                    } else {
                        assert(w[j] == c);
                    }
                } else {
                    assert(w[r.len() as int] == c);
                }
            }
            if w.contains(c) {
                let j = choose|j: int| 0 <= j < w.len() && w[j] == c;
                if ids.contains(cs.last().id) {
                    assert(r[j] == c);
                    assert(r.contains(c));
                } else if j == r.len() {
                    assert(c == cs.last());
                    assert(cs[cs.len() - 1] == c);
                } else {
                    assert(r[j] == c);
                    assert(r.contains(c));
                }
                if r.contains(c) {
                    assert(cs.drop_last().contains(c));
                    let k = choose|k: int| 0 <= k < cs.drop_last().len() && cs.drop_last()[k] == c;
                    assert(cs[k] == c);
                }
            }
        }
    }
}

/// Subscriptions are per client: replacing one client's entry (same id, new
/// topics) changes nothing for any other id.
pub proof fn law_subscription_is_per_client(
    cs: Seq<ClientEntry>,
    i: int,
    topics: TopicSet,
    t: Topic,
    other: u128,
)
    requires
        0 <= i < cs.len(),
        other != cs[i].id,
    ensures
        recipients_of(cs.update(i, ClientEntry { id: cs[i].id, topics }), t).contains(other)
            == recipients_of(cs, t).contains(other),
{
    let u = cs.update(i, ClientEntry { id: cs[i].id, topics });
    law_recipient_iff_subscribed(cs, t, other);
    law_recipient_iff_subscribed(u, t, other);
    if exists|k: int| 0 <= k < cs.len() && cs[k].id == other && cs[k].topics.has(t) {
        let k = choose|k: int| 0 <= k < cs.len() && cs[k].id == other && cs[k].topics.has(t);
        assert(u[k] == cs[k]);
    }
    if exists|k: int| 0 <= k < u.len() && u[k].id == other && u[k].topics.has(t) {
        let k = choose|k: int| 0 <= k < u.len() && u[k].id == other && u[k].topics.has(t);
        assert(u[k] == cs[k]);
    }
}

/// A name that denotes no topic changes nothing in a subscription.
pub proof fn law_unknown_names_ignored(names: Seq<Seq<char>>, n: Seq<char>, t: Topic)
    requires
        topic_named(n) is None,
    ensures
        named_in(names.push(n), t) == named_in(names, t),
{
    lemma_topic_name_roundtrip(t);
    if named_in(names.push(n), t) {
        let k = choose|k: int|
            0 <= k < names.push(n).len() && names.push(n)[k] == topic_name_of(t);
        if k == names.len() {
            assert(n == topic_name_of(t));
        } else {
            assert(names[k] == names.push(n)[k]);
        }
    }
    if named_in(names, t) {
        let k = choose|k: int| 0 <= k < names.len() && names[k] == topic_name_of(t);
        assert(names.push(n)[k] == names[k]);
    }
}

/// A topic occurs in the sorted list of a set exactly when it is in the set.
proof fn lemma_sorted_topics_has(u: TopicSet, t: Topic)
    ensures
        sorted_topics(u).contains(t) <==> u.has(t),
{
    let e = Seq::<Topic>::empty();
    let p1 = if u.ai { seq![Topic::Ai] } else { e };
    let p2 = if u.equity { seq![Topic::Equity] } else { e };
    let p3 = if u.fill { seq![Topic::Fill] } else { e };
    let p4 = if u.healthz { seq![Topic::Healthz] } else { e };
    let p5 = if u.signal { seq![Topic::Signal] } else { e };
    assert(sorted_topics(u) == p1 + p2 + p3 + p4 + p5);
    vstd::seq_lib::lemma_seq_concat_contains_all_elements(p1 + p2 + p3 + p4, p5, t);
    vstd::seq_lib::lemma_seq_concat_contains_all_elements(p1 + p2 + p3, p4, t);
    vstd::seq_lib::lemma_seq_concat_contains_all_elements(p1 + p2, p3, t);
    vstd::seq_lib::lemma_seq_concat_contains_all_elements(p1, p2, t);
    assert(p1.contains(t) <==> (u.ai && t == Topic::Ai)) by {
        if u.ai && t == Topic::Ai {
            assert(p1[0] == t);
        }
    }
    assert(p2.contains(t) <==> (u.equity && t == Topic::Equity)) by {
        if u.equity && t == Topic::Equity {
            assert(p2[0] == t);
        }
    }
    assert(p3.contains(t) <==> (u.fill && t == Topic::Fill)) by {
        if u.fill && t == Topic::Fill {
            assert(p3[0] == t);
        }
    }
    assert(p4.contains(t) <==> (u.healthz && t == Topic::Healthz)) by {
        if u.healthz && t == Topic::Healthz {
            assert(p4[0] == t);
        }
    }
    assert(p5.contains(t) <==> (u.signal && t == Topic::Signal)) by {
        if u.signal && t == Topic::Signal {
            assert(p5[0] == t);
        }
    }
}

/// The topics reported by the statistics are exactly those some client
/// listens to.
pub proof fn law_stats_topics(cs: Seq<ClientEntry>, t: Topic)
    ensures
        sorted_topics(union_of(cs)).contains(t) <==> exists|k: int|
            0 <= k < cs.len() && cs[k].topics.has(t),
{
    lemma_sorted_topics_has(union_of(cs), t);
    lemma_union_has(cs, t);
}

/// A topic is in the union exactly when some client listens to it.
proof fn lemma_union_has(cs: Seq<ClientEntry>, t: Topic)
    ensures
        union_of(cs).has(t) <==> exists|k: int| 0 <= k < cs.len() && cs[k].topics.has(t),
    decreases cs.len(),
{
    if cs.len() > 0 {
        lemma_union_has(cs.drop_last(), t);
        if exists|k: int| 0 <= k < cs.len() && cs[k].topics.has(t) {
            let k = choose|k: int| 0 <= k < cs.len() && cs[k].topics.has(t);
            if k < cs.len() - 1 {
                assert(cs.drop_last()[k] == cs[k]);
            }
        }
        if union_of(cs.drop_last()).has(t) {
            let k = choose|k: int|
                0 <= k < cs.drop_last().len() && cs.drop_last()[k].topics.has(t);
            assert(cs[k] == cs.drop_last()[k]);
        }
    }
}

/// Position of a topic in the order of its name.
pub open spec fn topic_rank(t: Topic) -> int {
    match t {
        Topic::Ai => 0,
        Topic::Equity => 1,
        Topic::Fill => 2,
        Topic::Healthz => 3,
        Topic::Signal => 4,
    }
}

/// Ranks follow the order of the names.
proof fn lemma_rank_is_name_order(a: Topic, b: Topic)
    requires
        topic_rank(a) < topic_rank(b),
    ensures
        lex_lt(topic_name_of(a), topic_name_of(b)),
{
    reveal_strlit("ai");
    reveal_strlit("equity");
    reveal_strlit("fill");
    reveal_strlit("healthz");
    reveal_strlit("signal");
    assert(('a' as u32) < ('e' as u32) && ('e' as u32) < ('f' as u32) && ('f' as u32) < (
    'h' as u32) && ('h' as u32) < ('s' as u32));
}

/// The topic names in the statistics are in strictly ascending order.
pub proof fn law_stats_sorted(u: TopicSet)
    ensures
        forall|i: int, j: int|
            0 <= i < j < sorted_topics(u).len() ==> lex_lt(
                topic_name_of(#[trigger] sorted_topics(u)[i]),
                topic_name_of(#[trigger] sorted_topics(u)[j]),
            ),
{
    let st = sorted_topics(u);
    assert forall|i: int, j: int| 0 <= i < j < st.len() implies topic_rank(st[i]) < topic_rank(
        st[j],
    ) by {
        let e = Seq::<Topic>::empty();
        let p1 = if u.ai { seq![Topic::Ai] } else { e };
        let p2 = if u.equity { seq![Topic::Equity] } else { e };
        let p3 = if u.fill { seq![Topic::Fill] } else { e };
        let p4 = if u.healthz { seq![Topic::Healthz] } else { e };
        let p5 = if u.signal { seq![Topic::Signal] } else { e };
        assert(st == p1 + p2 + p3 + p4 + p5);
    }
    assert forall|i: int, j: int| 0 <= i < j < st.len() implies lex_lt(
        topic_name_of(#[trigger] st[i]),
        topic_name_of(#[trigger] st[j]),
    ) by {
        lemma_rank_is_name_order(st[i], st[j]);
    }
}

/// Dropping ids that no client has keeps every client.
proof fn lemma_without_absent_ids(cs: Seq<ClientEntry>, ids: Seq<u128>)
    requires
        forall|k: int| 0 <= k < cs.len() ==> !ids.contains(#[trigger] cs[k].id),
    ensures
        without_ids(cs, ids) == cs,
    decreases cs.len(),
{
    if cs.len() > 0 {
        let p = cs.drop_last();
        assert forall|k: int| 0 <= k < p.len() implies !ids.contains(#[trigger] p[k].id) by {
            assert(p[k] == cs[k]);
        }
        lemma_without_absent_ids(p, ids);
        assert(!ids.contains(cs[cs.len() - 1].id));
        assert(p.push(cs.last()) =~= cs);
    }
}

/// A client that connects and then disconnects leaves the registry as it
/// was, when no registered client had its id.
pub proof fn law_connect_then_disconnect(cs: Seq<ClientEntry>, id: u128)
    requires
        forall|k: int| 0 <= k < cs.len() ==> cs[k].id != id,
    ensures
        without_ids(cs.push(ClientEntry { id, topics: TopicSet::all_spec() }), seq![id]) == cs,
{
    let ids = seq![id];
    let c = cs.push(ClientEntry { id, topics: TopicSet::all_spec() });
    assert(c.drop_last() =~= cs);
    assert(ids.contains(c.last().id)) by {
        assert(ids[0] == id);
    }
    assert forall|k: int| 0 <= k < cs.len() implies !ids.contains(#[trigger] cs[k].id) by {
        if ids.contains(cs[k].id) {
            let j = choose|j: int| 0 <= j < ids.len() && ids[j] == cs[k].id;
            assert(j == 0);
        }
    }
    lemma_without_absent_ids(cs, ids);
}

} // verus!
