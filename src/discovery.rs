//! The peer-discovery driver: the decisions of the event loop that owns the
//! network engine. Each discovery request is recorded against the identifier
//! of the routing-engine query it started; each network event becomes either
//! address hints for the engine or the reply owed to one request.

use vstd::prelude::*;
use libp2p::kad;
use libp2p::kad::store::MemoryStore;
use libp2p::kad::QueryId;
use libp2p::{Multiaddr, PeerId};

verus! {

#[verifier::external_type_specification]
#[verifier::external_body]
pub struct ExQueryId(QueryId);

#[verifier::external_type_specification]
#[verifier::external_body]
pub struct ExPeerId(PeerId);

#[verifier::external_type_specification]
#[verifier::external_body]
pub struct ExMultiaddr(Multiaddr);

#[verifier::external_type_specification]
#[verifier::external_body]
#[verifier::reject_recursive_types(TStore)]
pub struct ExKademlia<TStore>(kad::Behaviour<TStore>);

#[verifier::external_type_specification]
#[verifier::external_body]
pub struct ExMemoryStore(MemoryStore);

/// Relies on `PeerId::random`: a random peer identifier, used as a query
/// target only.
#[verifier::external_body]
fn random_peer_id() -> (r: PeerId) {
    PeerId::random()
}

/// Relies on `kad::Behaviour::get_closest_peers`: starts an iterative
/// closest-peers query towards `key` and returns the query's identifier.
#[verifier::external_body]
fn start_closest_peers_query(kademlia: &mut kad::Behaviour<MemoryStore>, key: PeerId) -> (r: QueryId) {
    kademlia.get_closest_peers(key)
}

/// Relies on the `PartialEq` that `QueryId` derives over its one counter
/// field: two identifiers compare equal exactly when they are the same value.
#[verifier::external_body]
fn same_query(a: &QueryId, b: &QueryId) -> (r: bool)
    ensures
        r == (*a == *b),
{
    *a == *b
}

/// A network event, as far as the driver reads it.
pub enum NetworkEvent {
    /// An identify exchange with `peer` completed: it listens on
    /// `listen_addrs` and saw this node at `observed_addr`.
    IdentifyReceived { peer: PeerId, listen_addrs: Vec<Multiaddr>, observed_addr: Multiaddr },
    /// A closest-peers query made progress. `last` marks its final step;
    /// `peers` is `None` where the query failed.
    ClosestPeersProgressed { id: QueryId, last: bool, peers: Option<Vec<PeerId>> },
    /// Anything else (pings, connection changes, other query kinds).
    Other,
}

/// A change that the event loop applies to the network engine.
pub enum EngineAction {
    /// Record an address at which other nodes reach this one.
    AddExternalAddress(Multiaddr),
    /// Add an address of a peer to the routing engine's address book.
    AddPeerAddress(PeerId, Multiaddr),
}

/// What the event loop does after the driver has handled one event.
pub enum Step<R> {
    /// Nothing.
    Ignore,
    /// Apply these actions to the engine, in order.
    Update(Vec<EngineAction>),
    /// Send the peers on this reply handle.
    Reply(R, Vec<PeerId>),
}

/// A broken invariant of the driver's wiring. The event loop stops on one.
#[derive(Debug, Clone, Copy, PartialEq, Eq, Structural)]
pub enum DriverFault {
    /// The routing engine handed out an identifier that is still pending.
    DuplicateQuery,
    /// A query completed that no request is waiting for.
    UnknownQuery,
}

/// The actions that an identify exchange with `peer` leads to: first the
/// observed external address, then each listen address of the peer, in order.
pub open spec fn identify_actions(peer: PeerId, listen: Seq<Multiaddr>, observed: Multiaddr) -> Seq<EngineAction> {
    seq![EngineAction::AddExternalAddress(observed)] + listen.map_values(|a: Multiaddr| EngineAction::AddPeerAddress(peer, a))
}

/// The peers that a finished query hands to its caller: all it found, or
/// none where it failed.
pub open spec fn query_result_peers(peers: Option<Vec<PeerId>>) -> Seq<PeerId> {
    match peers {
        Some(v) => v@,
        None => Seq::empty(),
    }
}

/// The table of discovery requests that wait for their query to finish,
/// keyed by query identifier.
pub struct PendingQueries<R> {
    entries: Vec<(QueryId, R)>,
    table: Ghost<Map<QueryId, R>>,
}

impl<R> View for PendingQueries<R> {
    type V = Map<QueryId, R>;

    closed spec fn view(&self) -> Map<QueryId, R> {
        self.table@
    }
}

impl<R> PendingQueries<R> {
    /// Each key occurs once, and the entries are exactly the table.
    pub closed spec fn wf(&self) -> bool {
        &&& forall|i: int, j: int|
            0 <= i < self.entries@.len() && 0 <= j < self.entries@.len() && i != j
                ==> self.entries@[i].0 != self.entries@[j].0
        &&& forall|i: int|
            0 <= i < self.entries@.len() ==> #[trigger] self.table@.contains_key(self.entries@[i].0)
                && self.table@[self.entries@[i].0] == self.entries@[i].1
        &&& forall|k: QueryId|
            #[trigger] self.table@.contains_key(k) ==> exists|i: int|
                0 <= i < self.entries@.len() && self.entries@[i].0 == k
        &&& self.table@.dom().finite()
        &&& self.table@.dom().len() == self.entries@.len()
    }

    /// An empty table.
    pub fn new() -> (r: Self)
        ensures
            r.wf(),
            r@ == Map::<QueryId, R>::empty(),
            r@.dom().finite(),
    {
        PendingQueries { entries: Vec::new(), table: Ghost(Map::empty()) }
    }

    /// Number of requests waiting.
    pub fn len(&self) -> (r: usize)
        requires
            self.wf(),
        ensures
            r == self@.len(),
            self@.dom().finite(),
    {
        self.entries.len()
    }

    /// Whether a request waits for query `id`.
    pub fn contains(&self, id: &QueryId) -> (r: bool)
        requires
            self.wf(),
        ensures
            r == self@.contains_key(*id),
            self@.dom().finite(),
    {
        self.position(id).is_some()
    }

    fn position(&self, id: &QueryId) -> (r: Option<usize>)
        requires
            self.wf(),
        ensures
            r is None ==> !self@.contains_key(*id),
            r matches Some(i) ==> i < self.entries@.len() && self.entries@[i as int].0 == *id
                && self@.contains_key(*id),
    {
        let mut i: usize = 0;
        while i < self.entries.len()
            invariant
                self.wf(),
                i <= self.entries@.len(),
                forall|j: int| 0 <= j < i ==> self.entries@[j].0 != *id,
            decreases self.entries@.len() - i,
        {
            if same_query(&self.entries[i].0, id) {
                assert(self.table@.contains_key(self.entries@[i as int].0));
                return Some(i);
            }
            i = i + 1;
        }
        None
    }

    /// Records that the request answered through `reply` waits for query
    /// `id`. An identifier that is already pending is a fault and leaves the
    /// table as it was.
    pub fn handle_command(&mut self, id: QueryId, reply: R) -> (r: Result<(), DriverFault>)
        requires
            old(self).wf(),
        ensures
            final(self).wf(),
            final(self)@.dom().finite(),
            old(self)@.contains_key(id) ==> r == Err::<(), DriverFault>(DriverFault::DuplicateQuery)
                && final(self)@ == old(self)@,
            !old(self)@.contains_key(id) ==> r == Ok::<(), DriverFault>(()) && final(self)@ == old(self)@.insert(id, reply),
    {
        if self.position(&id).is_some() {
            return Err(DriverFault::DuplicateQuery);
        }
        let ghost old_entries = self.entries@;
        let ghost old_table = self.table@;
        self.entries.push((id, reply));
        self.table = Ghost(self.table@.insert(id, reply));
        proof {
            assert forall|k: QueryId| #[trigger] self.table@.contains_key(k) implies exists|i: int|
                0 <= i < self.entries@.len() && self.entries@[i].0 == k by {
                if k == id {
                    assert(self.entries@[old_entries.len() as int].0 == k);
                } else {
                    assert(old_table.contains_key(k));
                    let i = choose|i: int| 0 <= i < old_entries.len() && old_entries[i].0 == k;
                    assert(self.entries@[i].0 == k);
                }
            }
            assert(self.table@.dom() =~= old_table.dom().insert(id));
        }
        Ok(())
    }

    /// Starts a discovery request: a closest-peers query of the routing
    /// engine towards a random target (not this node's own identifier, so
    /// that each query explores another region), recorded against `reply`.
    /// The engine handing out an identifier that is still pending is a fault.
    pub fn discover(&mut self, kademlia: &mut kad::Behaviour<MemoryStore>, reply: R) -> (r: Result<QueryId, DriverFault>)
        requires
            old(self).wf(),
        ensures
            final(self).wf(),
            final(self)@.dom().finite(),
            match r {
                Ok(id) => !old(self)@.contains_key(id) && final(self)@ == old(self)@.insert(id, reply),
                Err(fault) => fault == DriverFault::DuplicateQuery && final(self)@ == old(self)@,
            },
            r is Err ==> exists|q: QueryId| old(self)@.contains_key(q),
            old(self)@ == Map::<QueryId, R>::empty() ==> r is Ok,
    {
        let id = start_closest_peers_query(kademlia, random_peer_id());
        match self.handle_command(id, reply) {
            Ok(()) => Ok(id),
            Err(fault) => {
                assert(old(self)@.contains_key(id));
                Err(fault)
            },
        }
    }

    /// Takes the request that waits for query `id` out of the table.
    pub fn complete(&mut self, id: &QueryId) -> (r: Option<R>)
        requires
            old(self).wf(),
        ensures
            final(self).wf(),
            final(self)@.dom().finite(),
            !old(self)@.contains_key(*id) ==> r is None && final(self)@ == old(self)@,
            old(self)@.contains_key(*id) ==> r == Some(old(self)@[*id]) && final(self)@ == old(self)@.remove(*id),
    {
        match self.position(id) {
            None => None,
            Some(i) => {
                let ghost old_entries = self.entries@;
                let ghost old_table = self.table@;
                let (_, reply) = self.entries.remove(i);
                self.table = Ghost(self.table@.remove(*id));
                proof {
                    assert forall|k: QueryId| #[trigger] self.table@.contains_key(k) implies exists|j: int|
                        0 <= j < self.entries@.len() && self.entries@[j].0 == k by {
                        assert(old_table.contains_key(k));
                        let j = choose|j: int| 0 <= j < old_entries.len() && old_entries[j].0 == k;
                        assert(j != i);
                        if j < i {
                            assert(self.entries@[j].0 == k);
                        } else {
                            assert(self.entries@[j - 1].0 == k);
                        }
                    }
                    assert forall|a: int| 0 <= a < self.entries@.len() implies
                        #[trigger] self.table@.contains_key(self.entries@[a].0)
                        && self.table@[self.entries@[a].0] == self.entries@[a].1 by {
                        if a < i {
                            assert(self.entries@[a] == old_entries[a]);
                        } else {
                            assert(self.entries@[a] == old_entries[a + 1]);
                        }
                    }
                    assert(self.table@.dom() =~= old_table.dom().remove(*id));
                }
                Some(reply)
            },
        }
    }

    /// Handles one network event: an identify exchange becomes address hints
    /// for the engine; the final step of a pending query takes its request
    /// out of the table and yields the reply owed to it, with the peers
    /// found or none where the query failed; everything else is ignored.
    /// The final step of a query that no request waits for is a fault.
    pub fn handle_event(&mut self, event: NetworkEvent) -> (r: Result<Step<R>, DriverFault>)
        requires
            old(self).wf(),
        ensures
            final(self).wf(),
            final(self)@.dom().finite(),
            match event {
                NetworkEvent::IdentifyReceived { peer, listen_addrs, observed_addr } => final(self)@
                    == old(self)@ && (r matches Ok(Step::Update(actions)) && actions@ == identify_actions(
                    peer,
                    listen_addrs@,
                    observed_addr,
                )),
                NetworkEvent::ClosestPeersProgressed { id, last, peers } => if !last {
                    final(self)@ == old(self)@ && r matches Ok(Step::Ignore)
                } else if !old(self)@.contains_key(id) {
                    final(self)@ == old(self)@ && r matches Err(DriverFault::UnknownQuery)
                } else {
                    final(self)@ == old(self)@.remove(id) && (r matches Ok(Step::Reply(reply, found))
                        && reply == old(self)@[id] && found@ == query_result_peers(peers))
                },
                NetworkEvent::Other => final(self)@ == old(self)@ && r matches Ok(Step::Ignore),
            },
    {
        match event {
            NetworkEvent::IdentifyReceived { peer, listen_addrs, observed_addr } => {
                Ok(Step::Update(address_hints(peer, listen_addrs, observed_addr)))
            },
            NetworkEvent::ClosestPeersProgressed { id, last, peers } => {
                if !last {
                    return Ok(Step::Ignore);
                }
                match self.complete(&id) {
                    None => Err(DriverFault::UnknownQuery),
                    Some(reply) => {
                        let found = match peers {
                            Some(v) => v,
                            None => Vec::new(),
                        };
                        Ok(Step::Reply(reply, found))
                    },
                }
            },
            NetworkEvent::Other => Ok(Step::Ignore),
        }
    }
}

/// The engine actions for an identify exchange with `peer`.
fn address_hints(peer: PeerId, listen_addrs: Vec<Multiaddr>, observed_addr: Multiaddr) -> (r: Vec<EngineAction>)
    ensures
        r@ == identify_actions(peer, listen_addrs@, observed_addr),
{
    let ghost listen = listen_addrs@;
    let mut rest = listen_addrs;
    let mut actions: Vec<EngineAction> = Vec::new();
    actions.push(EngineAction::AddExternalAddress(observed_addr));
    let ghost mut k: int = 0;
    while rest.len() > 0
        invariant
            0 <= k <= listen.len(),
            rest@ == listen.skip(k),
            actions@ == seq![EngineAction::AddExternalAddress(observed_addr)] + listen.take(k).map_values(
                |a: Multiaddr| EngineAction::AddPeerAddress(peer, a),
            ),
        decreases rest@.len(),
    {
        let addr = rest.remove(0);
        actions.push(EngineAction::AddPeerAddress(peer, addr));
        proof {
            assert(listen.take(k + 1) =~= listen.take(k).push(addr));
        }
        proof {
            k = k + 1;
        }
        assert(rest@ =~= listen.skip(k));
    }
    assert(listen.take(k) =~= listen);
    assert(actions@ =~= identify_actions(peer, listen, observed_addr));
    actions
}

/// Pause, in seconds, before a caller that found no peers asks again.
pub const DISCOVERY_RETRY_SECS: u64 = 1;

/// Decides one round of waiting for peers: a non-empty discovery result is
/// final; an empty one means "no peers known yet", and the caller retries
/// after a pause.
pub fn settle_discovery(peers: Vec<PeerId>) -> (r: Option<Vec<PeerId>>)
    ensures
        peers@.len() == 0 <==> r is None,
        r matches Some(v) ==> v@ == peers@,
{
    if peers.len() == 0 {
        None
    } else {
        Some(peers)
    }
}

/// The table after the requests answered through `replies` were recorded,
/// in order, against the queries `ids`.
pub open spec fn register_all<R>(ids: Seq<QueryId>, replies: Seq<R>) -> Map<QueryId, R>
    decreases ids.len(),
{
    if ids.len() == 0 || replies.len() == 0 {
        Map::empty()
    } else {
        register_all(ids.drop_last(), replies.drop_last()).insert(ids.last(), replies.last())
    }
}

/// The replies handed out, and the table left, when the queries `done`
/// finish one after another, starting from table `m`.
pub open spec fn complete_all<R>(m: Map<QueryId, R>, done: Seq<QueryId>) -> (Seq<R>, Map<QueryId, R>)
    decreases done.len(),
{
    if done.len() == 0 {
        (Seq::empty(), m)
    } else {
        let (rs, rest) = complete_all(m, done.drop_last());
        (rs.push(rest[done.last()]), rest.remove(done.last()))
    }
}

/// Whether `s` holds no value twice.
pub open spec fn distinct<T>(s: Seq<T>) -> bool {
    forall|i: int, j: int| 0 <= i < s.len() && 0 <= j < s.len() && i != j ==> s[i] != s[j]
}

proof fn lemma_register_all<R>(ids: Seq<QueryId>, replies: Seq<R>)
    requires
        ids.len() == replies.len(),
        distinct(ids),
    ensures
        register_all(ids, replies).dom() == ids.to_set(),
        forall|i: int| 0 <= i < ids.len() ==> #[trigger] register_all(ids, replies)[ids[i]] == replies[i],
    decreases ids.len(),
{
    if ids.len() > 0 {
        let (pi, pr) = (ids.drop_last(), replies.drop_last());
        lemma_register_all(pi, pr);
        assert forall|i: int| 0 <= i < ids.len() implies #[trigger] register_all(ids, replies)[ids[i]]
            == replies[i] by {
            if i < ids.len() - 1 {
                assert(pi[i] == ids[i]);
                assert(ids[i] != ids.last());
            }
        }
        assert(register_all(ids, replies).dom() =~= ids.to_set()) by {
            assert forall|k: QueryId| ids.to_set().contains(k) implies register_all(ids, replies).dom().contains(k) by {
                let i = choose|i: int| 0 <= i < ids.len() && ids[i] == k;
                if i < ids.len() - 1 {
                    assert(pi[i] == k);
                    assert(pi.to_set().contains(k));
                }
            }
            assert forall|k: QueryId| register_all(ids, replies).dom().contains(k) implies ids.to_set().contains(k) by {
                if k != ids.last() {
                    assert(pi.to_set().contains(k));
                    let i = choose|i: int| 0 <= i < pi.len() && pi[i] == k;
                    assert(ids[i] == k);
                } else {
                    assert(ids[ids.len() - 1] == k);
                }
            }
        }
    } else {
        assert(register_all(ids, replies).dom() =~= ids.to_set());
    }
}

proof fn lemma_complete_all<R>(ids: Seq<QueryId>, replies: Seq<R>, order: Seq<int>)
    requires
        ids.len() == replies.len(),
        distinct(ids),
        distinct(order),
        forall|k: int| 0 <= k < order.len() ==> 0 <= #[trigger] order[k] < ids.len(),
    ensures
        ({
            let (rs, rest) = complete_all(register_all(ids, replies), order.map_values(|i: int| ids[i]));
            &&& rs.len() == order.len()
            &&& forall|k: int| 0 <= k < order.len() ==> #[trigger] rs[k] == replies[order[k]]
            &&& forall|i: int| 0 <= i < ids.len() ==> (rest.contains_key(#[trigger] ids[i]) <==> !order.contains(i))
            &&& forall|i: int| 0 <= i < ids.len() && rest.contains_key(ids[i]) ==> rest[#[trigger] ids[i]] == replies[i]
            &&& rest.dom().subset_of(ids.to_set())
        }),
    decreases order.len(),
{
    lemma_register_all(ids, replies);
    let m = register_all(ids, replies);
    let done = order.map_values(|i: int| ids[i]);
    if order.len() > 0 {
        let po = order.drop_last();
        lemma_complete_all(ids, replies, po);
        assert(done.drop_last() =~= po.map_values(|i: int| ids[i]));
        let (rs, rest) = complete_all(m, done);
        let (prs, prest) = complete_all(m, po.map_values(|i: int| ids[i]));
        let last = order.last();
        assert(!po.contains(last)) by {
            if po.contains(last) {
                let k = choose|k: int| 0 <= k < po.len() && po[k] == last;
                assert(order[k] == order[order.len() - 1]);
            }
        }
        assert(prest.contains_key(ids[last]));
        assert forall|i: int| 0 <= i < ids.len() implies (rest.contains_key(#[trigger] ids[i]) <==> !order.contains(i)) by {
            if i == last {
                assert(order[order.len() - 1] == i);
            } else {
                assert(ids[i] != ids[last]);
                if po.contains(i) {
                    let k = choose|k: int| 0 <= k < po.len() && po[k] == i;
                    assert(order[k] == i);
                }
                if order.contains(i) {
                    let k = choose|k: int| 0 <= k < order.len() && order[k] == i;
                    assert(k != order.len() - 1);
                    assert(po[k] == i);
                }
            }
        }
        assert forall|k: int| 0 <= k < order.len() implies #[trigger] rs[k] == replies[order[k]] by {
            if k < order.len() - 1 {
                assert(po[k] == order[k]);
            }
        }
        assert forall|i: int| 0 <= i < ids.len() && rest.contains_key(ids[i]) implies rest[#[trigger] ids[i]] == replies[i] by {
            assert(ids[i] != ids[last]);
        }
    } else {
        assert(m.dom().subset_of(ids.to_set()));
        assert forall|i: int| 0 <= i < ids.len() implies (m.contains_key(#[trigger] ids[i]) <==> !order.contains(i)) by {
            assert(ids.to_set().contains(ids[i]));
        }
    }
}

/// Every request gets its own reply, exactly once: after the requests of N
/// callers were recorded against N distinct query identifiers, the queries
/// finishing in any order hand out exactly N replies, the k-th of them to
/// the caller whose query finished k-th, and leave no request waiting.
pub proof fn lemma_each_request_answered_once<R>(ids: Seq<QueryId>, replies: Seq<R>, order: Seq<int>)
    requires
        ids.len() == replies.len(),
        distinct(ids),
        order.len() == ids.len(),
        distinct(order),
        forall|k: int| 0 <= k < order.len() ==> 0 <= #[trigger] order[k] < ids.len(),
    ensures
        ({
            let (rs, rest) = complete_all(register_all(ids, replies), order.map_values(|i: int| ids[i]));
            &&& rs.len() == ids.len()
            &&& forall|k: int| 0 <= k < order.len() ==> #[trigger] rs[k] == replies[order[k]]
            &&& rest == Map::<QueryId, R>::empty()
        }),
{
    lemma_complete_all(ids, replies, order);
    let (rs, rest) = complete_all(register_all(ids, replies), order.map_values(|i: int| ids[i]));
    assert forall|i: int| 0 <= i < ids.len() implies order.contains(i) by {
        lemma_covers(order, ids.len() as int, i);
    }
    assert forall|k: QueryId| !#[trigger] rest.contains_key(k) by {
        if rest.contains_key(k) {
            assert(ids.to_set().contains(k));
            let i = choose|i: int| 0 <= i < ids.len() && ids[i] == k;
        }
    }
    assert(rest =~= Map::<QueryId, R>::empty());
}

/// N distinct values in [0, N) cover each of them.
proof fn lemma_covers(order: Seq<int>, n: int, v: int)
    requires
        order.len() == n,
        distinct(order),
        forall|k: int| 0 <= k < order.len() ==> 0 <= #[trigger] order[k] < n,
        0 <= v < n,
    ensures
        order.contains(v),
{
    let s = order.to_set();
    assert(order.no_duplicates());
    order.unique_seq_to_set();
    let full = vstd::set_lib::set_int_range(0, n);
    assert(s.subset_of(full));
    vstd::set_lib::lemma_int_range(0, n);
    if !order.contains(v) {
        assert(s.subset_of(full.remove(v)));
        vstd::set_lib::lemma_len_subset(s, full.remove(v));
    }
}

/// The routing engine's address book after `actions` were applied to `book`.
pub open spec fn apply_hints(book: Set<(PeerId, Multiaddr)>, actions: Seq<EngineAction>) -> Set<(PeerId, Multiaddr)>
    decreases actions.len(),
{
    if actions.len() == 0 {
        book
    } else {
        let b = apply_hints(book, actions.drop_last());
        match actions.last() {
            EngineAction::AddPeerAddress(p, a) => b.insert((p, a)),
            EngineAction::AddExternalAddress(_) => b,
        }
    }
}

proof fn lemma_apply_hints_grows(book: Set<(PeerId, Multiaddr)>, actions: Seq<EngineAction>)
    ensures
        book.subset_of(apply_hints(book, actions)),
        forall|i: int| 0 <= i < actions.len() ==> (#[trigger] actions[i] matches EngineAction::AddPeerAddress(p, a)
            ==> apply_hints(book, actions).contains((p, a))),
    decreases actions.len(),
{
    if actions.len() > 0 {
        lemma_apply_hints_grows(book, actions.drop_last());
        assert forall|i: int| 0 <= i < actions.len() implies (#[trigger] actions[i] matches EngineAction::AddPeerAddress(p, a)
            ==> apply_hints(book, actions).contains((p, a))) by {
            if i < actions.len() - 1 {
                assert(actions.drop_last()[i] == actions[i]);
            }
        }
    }
}

/// Address hints come before later queries: the step that handles an
/// identify exchange with `peer` carries, for the event loop to apply before
/// it takes its next command, every listen address of `peer`; once they are
/// applied the address book knows all of them and has forgotten nothing.
pub proof fn lemma_identify_hints_reach_address_book(
    book: Set<(PeerId, Multiaddr)>,
    peer: PeerId,
    listen: Seq<Multiaddr>,
    observed: Multiaddr,
)
    ensures
        book.subset_of(apply_hints(book, identify_actions(peer, listen, observed))),
        forall|i: int| 0 <= i < listen.len() ==> apply_hints(book, identify_actions(peer, listen, observed)).contains(
            (peer, #[trigger] listen[i]),
        ),
{
    let actions = identify_actions(peer, listen, observed);
    lemma_apply_hints_grows(book, actions);
    assert forall|i: int| 0 <= i < listen.len() implies apply_hints(book, actions).contains((peer, #[trigger] listen[i])) by {
        assert(actions[i + 1] == EngineAction::AddPeerAddress(peer, listen[i]));
    }
}

} // verus!
