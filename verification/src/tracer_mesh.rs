//! Direct tracer-to-tracer network.
//!
//! The distributed key generation and the threshold ElGamal decryption run
//! among the `n_3` tracers only. The Combiner takes no part in either: it never sees a
//! round-1 broadcast, a Shamir share or a partial decryption. It only
//! receives each tracer's final `pk_k` and computes `pk_e = prod pk_k`.
//!
//! To that end every pair of tracers holds one link. Tracer `k` listens on
//! `base_port + k`; it dials every lower-indexed tracer and accepts a
//! connection from every higher-indexed one, which yields exactly one link
//! per pair without any coordination.
//!
//! Opening and using the links is left to the caller: the mesh says what to
//! do next, and is told what came of it.
use std::collections::BTreeMap;
use vstd::pervasive::cloned;
use vstd::prelude::*;
use vstd::string::StringExecFns;

use crate::authority::ActorKeys;
use crate::bytes::same_bytes;
use crate::crypto::{BroadcastPackage, SecurePackage};
use crate::network::{Message, Role};
use crate::ordered::{keys_in_order, lemma_ids_below, lists_keys};
use crate::text::{
    decimal, decimal_round_trip, decimal_value, decimals_are_digits, usize_text,
};

verus! {

broadcast use vstd::std_specs::btree::group_btree_axioms;

/// Tracer `k` listens on `127.0.0.1:(TRACER_BASE_PORT + k)`.
pub const TRACER_BASE_PORT: u16 = 8200;

/// Address tracer `index` listens on for its peers.
pub open spec fn spec_tracer_addr(base_port: u16, index: usize) -> Seq<char> {
    "127.0.0.1:"@ + decimal((base_port + index) as nat)
}

/// Address tracer `index` listens on for its peers.
pub fn tracer_addr(base_port: u16, index: usize) -> (addr: String)
    requires
        base_port + index <= usize::MAX,
    ensures
        addr@ == spec_tracer_addr(base_port, index),
{
    String::from_str("127.0.0.1:").concat(usize_text(base_port as usize + index).as_str())
}

/// Whether the link between two tracers is opened by the first: the one with
/// the higher index dials.
pub open spec fn dials(index: int, peer: int) -> bool {
    peer < index
}

/// Of any two tracers exactly one dials the other.
pub proof fn one_link_per_pair(a: int, b: int)
    requires
        a != b,
    ensures
        dials(a, b) != dials(b, a),
{
}

/// What a tracer has to do next to complete its mesh.
#[derive(Debug, Clone, Copy, PartialEq, Eq, Structural)]
pub enum MeshStep {
    /// Dial this tracer, until it answers, and send it a `Hello`.
    Dial(usize),
    /// Accept a connection and read its first message.
    Accept,
    /// Nothing: every link is open.
    Ready,
}

/// The links from one tracer to every other tracer, as far as they are open.
pub struct TracerMesh<L> {
    /// 0-based id of the tracer owning this mesh.
    pub index: usize,
    /// Number of tracers.
    pub n3: usize,
    /// Lower-indexed tracers dialed so far.
    pub dialed: usize,
    /// One link per peer, keyed by the peer's 0-based id.
    pub peers: BTreeMap<usize, L>,
}

impl<L> TracerMesh<L> {
    /// Links lead to other tracers only, and those to lower-indexed ones were
    /// opened in order.
    pub open spec fn wf(&self) -> bool {
        &&& self.index < self.n3
        &&& self.dialed <= self.index
        &&& forall|id: usize| #[trigger]
            self.peers@.contains_key(id) ==> id < self.n3 && id != self.index && (id < self.index
                ==> id < self.dialed)
        &&& forall|id: usize| id < self.dialed ==> #[trigger] self.peers@.contains_key(id)
    }

    /// A mesh without any links yet, for tracer `index` of `n3`.
    pub fn begin(index: usize, n3: usize) -> (res: Result<Self, String>)
        ensures
            match res {
                Ok(mesh) => {
                    &&& index < n3
                    &&& mesh.wf()
                    &&& mesh.index == index
                    &&& mesh.n3 == n3
                    &&& mesh.dialed == 0
                    &&& mesh.peers@ == Map::<usize, L>::empty()
                },
                Err(e) => {
                    &&& index >= n3
                    &&& e@ == "Tracer index "@ + decimal(index as nat) + " out of range (n_3 = "@
                        + decimal(n3 as nat) + ")"@
                },
            },
    {
        if index >= n3 {
            let mut text: String = String::from_str("Tracer index ");
            text.append(usize_text(index).as_str());
            text.append(" out of range (n_3 = ");
            text.append(usize_text(n3).as_str());
            text.append(")");
            return Err(text);
        }
        Ok(TracerMesh { index, n3, dialed: 0, peers: BTreeMap::new() })
    }

    /// Where to listen, if any tracer is going to dial this one. To be bound
    /// before dialing anyone, so that higher-indexed tracers dialing this one
    /// are queued instead of being refused.
    pub fn listen_addr(&self, base_port: u16) -> (addr: Option<String>)
        requires
            self.wf(),
            base_port + self.index <= usize::MAX,
        ensures
            match addr {
                Some(addr) => addr@ == spec_tracer_addr(base_port, self.index) && exists|id: int|
                    0 <= id < self.n3 && #[trigger] dials(id, self.index as int),
                None => forall|id: int|
                    0 <= id < self.n3 ==> !#[trigger] dials(id, self.index as int),
            },
    {
        if self.index < self.n3 - 1 {
            proof {
                assert(dials(self.index + 1, self.index as int));
            }
            Some(tracer_addr(base_port, self.index))
        } else {
            None
        }
    }

    /// What to do next: first dial every lower-indexed tracer in order, then
    /// accept every higher-indexed one.
    pub open spec fn step(&self) -> MeshStep {
        if self.dialed < self.index {
            MeshStep::Dial(self.dialed)
        } else if self.peers@.len() < self.n3 - 1 {
            MeshStep::Accept
        } else {
            MeshStep::Ready
        }
    }

    /// What to do next.
    pub fn next_step(&self) -> (step: MeshStep)
        requires
            self.wf(),
        ensures
            step == self.step(),
            step matches MeshStep::Dial(peer) ==> dials(self.index as int, peer as int)
                && !self.peers@.contains_key(peer),
    {
        if self.dialed < self.index {
            MeshStep::Dial(self.dialed)
        } else if self.peers.len() < self.n3 - 1 {
            MeshStep::Accept
        } else {
            MeshStep::Ready
        }
    }

    /// The tracer that was to be dialed has answered.
    pub fn link_dialed(&mut self, link: L)
        requires
            old(self).wf(),
            old(self).step() is Dial,
        ensures
            final(self).wf(),
            final(self).index == old(self).index,
            final(self).n3 == old(self).n3,
            final(self).dialed == old(self).dialed + 1,
            final(self).peers@ == old(self).peers@.insert(old(self).dialed, link),
    {
        let peer: usize = self.dialed;
        self.peers.insert(peer, link);
        self.dialed = peer + 1;
    }

    /// The id under which a connection that opened with `hello` is taken: that
    /// of a tracer which has yet to dial this one, under the identity key that
    /// the Authority issued to it.
    pub open spec fn admits(&self, roster: Seq<ActorKeys>, hello: Message) -> Option<usize> {
        match hello {
            Message::Hello { id, role, pk, identity_pk } => if role == Role::Tracer && dials(
                id as int,
                self.index as int,
            ) && id < self.n3 && !self.peers@.contains_key(id) && identity_pk@
                == roster[id as int].identity_pk@ {
                Some(id)
            } else {
                None
            },
            _ => None,
        }
    }

    /// Takes or rejects a connection that opened with `hello`.
    ///
    /// The `Hello` only routes the link to the right peer id; it is not what
    /// authenticates the peer. Everything sent over the mesh afterwards is
    /// signed with the sender's identity key and checked against the
    /// Authority-issued roster, so a connection claiming a wrong id cannot
    /// inject anything that will be accepted.
    pub fn accept(&mut self, roster: &Vec<ActorKeys>, hello: &Message, link: L) -> (taken: bool)
        requires
            old(self).wf(),
            roster@.len() == old(self).n3,
        ensures
            final(self).wf(),
            final(self).index == old(self).index,
            final(self).n3 == old(self).n3,
            final(self).dialed == old(self).dialed,
            match old(self).admits(roster@, *hello) {
                Some(id) => taken && final(self).peers@ == old(self).peers@.insert(id, link),
                None => !taken && final(self).peers@ == old(self).peers@,
            },
    {
        match hello {
            Message::Hello { id, role, pk: _, identity_pk } => {
                if *role == Role::Tracer && *id > self.index && *id < self.n3
                    && !self.peers.contains_key(id) && same_bytes(
                    identity_pk.as_slice(),
                    roster[*id].identity_pk.serialize().as_slice(),
                ) {
                    self.peers.insert(*id, link);
                    true
                } else {
                    false
                }
            },
            _ => false,
        }
    }

    /// Number of open links; `n_3 - 1` once the mesh is complete.
    pub fn peer_count(&self) -> (count: usize)
        ensures
            count == self.peers@.len(),
    {
        self.peers.len()
    }

    /// Ids of the connected peers, in ascending order.
    pub fn peer_ids(&self) -> (ids: Vec<usize>)
        ensures
            lists_keys(ids@, self.peers@),
    {
        keys_in_order(&self.peers)
    }

    /// Whether `jobs` sends every peer, by ascending peer id, the message that
    /// is addressed to it, and nobody else anything.
    pub open spec fn plans<M>(&self, outgoing: Map<usize, M>, jobs: Seq<(usize, M)>) -> bool {
        exists|ids: Seq<usize>| #[trigger]
            lists_keys(ids, self.peers@) && jobs.len() == ids.len() && forall|i: int|
                0 <= i < ids.len() ==> (#[trigger] jobs[i]).0 == ids[i] && outgoing.contains_key(
                    ids[i],
                ) && jobs[i].1 == outgoing[ids[i]]
    }

    /// Plans one communication round: which message goes to which peer, by
    /// ascending peer id. Every peer has to get one.
    ///
    /// Each link is then to be written and read at the same time: if every
    /// tracer first sent everything and only then started reading, large
    /// payloads could fill the buffers on both ends and deadlock.
    pub fn exchange_plan<M>(&self, outgoing: BTreeMap<usize, M>) -> (res: Result<
        Vec<(usize, M)>,
        String,
    >)
        ensures
            match res {
                Ok(jobs) => self.plans(outgoing@, jobs@),
                Err(e) => exists|peer: usize|
                    {
                        &&& #[trigger] self.peers@.contains_key(peer)
                        &&& !outgoing@.contains_key(peer)
                        &&& forall|id: usize|
                            id < peer && self.peers@.contains_key(id)
                                ==> #[trigger] outgoing@.contains_key(id)
                        &&& e@ == "No outgoing message for tracer #"@ + decimal(peer as nat)
                    },
            },
    {
        let ghost messages = outgoing@;
        let mut rest: BTreeMap<usize, M> = outgoing;
        let ids: Vec<usize> = self.peer_ids();
        let mut jobs: Vec<(usize, M)> = Vec::new();
        let mut i: usize = 0;
        while i < ids.len()
            invariant
                i <= ids@.len(),
                messages == outgoing@,
                lists_keys(ids@, self.peers@),
                jobs@.len() == i,
                forall|j: int|
                    0 <= j < i ==> (#[trigger] jobs@[j]).0 == ids@[j] && messages.contains_key(
                        ids@[j],
                    ) && jobs@[j].1 == messages[ids@[j]],
                forall|j: int| i <= j < ids@.len() ==> (messages.contains_key(#[trigger] ids@[j])
                    <==> rest@.contains_key(ids@[j])),
                forall|j: int|
                    i <= j < ids@.len() && rest@.contains_key(#[trigger] ids@[j])
                        ==> rest@[ids@[j]] == messages[ids@[j]],
            decreases ids@.len() - i,
        {
            let peer: usize = ids[i];
            let ghost before = rest@;
            match rest.remove(&peer) {
                Some(message) => {
                    proof {
                        assert(before.contains_key(ids@[i as int]));
                        assert(message == before[peer]);
                        assert(rest@ == before.remove(peer));
                    }
                    jobs.push((peer, message));
                },
                None => {
                    proof {
                        assert(ids@.to_set().contains(peer));
                        assert forall|id: usize|
                            id < peer && self.peers@.contains_key(
                                id,
                            ) implies #[trigger] messages.contains_key(id) by {
                            assert(ids@.to_set().contains(id));
                            let j = choose|j: int| 0 <= j < ids@.len() && ids@[j] == id;
                            assert(jobs@[j].0 == id);
                        }
                    }
                    return Err(
                        String::from_str("No outgoing message for tracer #").concat(
                            usize_text(peer).as_str(),
                        ),
                    );
                },
            }
            i = i + 1;
        }
        proof {
            assert(lists_keys(ids@, self.peers@));
        }
        Ok(jobs)
    }

    /// Addresses the same message to every peer.
    pub fn broadcast_plan<M: Clone>(&self, msg: &M) -> (outgoing: BTreeMap<usize, M>)
        ensures
            outgoing@.dom() == self.peers@.dom(),
            forall|id: usize| #[trigger]
                outgoing@.contains_key(id) ==> cloned(*msg, outgoing@[id]),
    {
        let ids: Vec<usize> = self.peer_ids();
        let mut outgoing: BTreeMap<usize, M> = BTreeMap::new();
        let mut i: usize = 0;
        proof {
            assert(ids@.take(0).to_set() =~= outgoing@.dom());
        }
        while i < ids.len()
            invariant
                i <= ids@.len(),
                outgoing@.dom() == ids@.take(i as int).to_set(),
                forall|id: usize| #[trigger]
                    outgoing@.contains_key(id) ==> cloned(*msg, outgoing@[id]),
            decreases ids@.len() - i,
        {
            outgoing.insert(ids[i], msg.clone());
            proof {
                assert(ids@.take(i + 1) =~= ids@.take(i as int).push(ids@[i as int]));
                ids@.take(i as int).lemma_push_to_set_commute(ids@[i as int]);
            }
            i = i + 1;
        }
        proof {
            assert(ids@.take(ids@.len() as int) =~= ids@);
        }
        outgoing
    }
}

/// A mesh that has nothing left to do links its tracer to every other one,
/// and to nobody else.
pub proof fn ready_mesh_reaches_everyone<L>(mesh: TracerMesh<L>)
    requires
        mesh.wf(),
        mesh.step() is Ready,
    ensures
        mesh.peers@.len() == mesh.n3 - 1,
        forall|id: usize| #[trigger]
            mesh.peers@.contains_key(id) <==> (id < mesh.n3 && id != mesh.index),
{
    let ids = mesh.peers@.dom().insert(mesh.index);
    assert forall|id: usize| #[trigger] ids.contains(id) implies id < mesh.n3 by {
        if id != mesh.index {
            assert(mesh.peers@.contains_key(id));
        }
    }
    assert(!mesh.peers@.contains_key(mesh.index));
    lemma_ids_below(ids, mesh.n3 as nat);
    assert forall|id: usize| id < mesh.n3 && id != mesh.index implies #[trigger] mesh.peers@.contains_key(
        id,
    ) by {
        assert(ids.contains(id));
    }
}

/// A single tracer needs no peers: its mesh is complete from the start.
pub proof fn single_tracer_is_ready<L>(mesh: TracerMesh<L>)
    requires
        mesh.wf(),
        mesh.n3 == 1,
    ensures
        mesh.step() is Ready,
{
}

/// Whether tracer `from` sends tracer `to` something.
pub open spec fn sends_to<M>(plans: Seq<Seq<(usize, M)>>, from: usize, to: usize, j: int) -> bool {
    &&& from < plans.len()
    &&& 0 <= j < plans[from as int].len()
    &&& plans[from as int][j].0 == to
}

/// What reaches tracer `to` in a communication round, by sender, when every
/// link carries what is planned for it.
pub open spec fn arrives<M>(plans: Seq<Seq<(usize, M)>>, to: usize) -> Map<usize, M> {
    Map::new(
        |from: usize| exists|j: int| sends_to(plans, from, to, j),
        |from: usize| plans[from as int][choose|j: int| sends_to(plans, from, to, j)].1,
    )
}

/// A plan addresses peers only, each of them once, with the message that is
/// meant for it.
proof fn lemma_plan<L, M>(mesh: TracerMesh<L>, outgoing: Map<usize, M>, jobs: Seq<(usize, M)>)
    requires
        mesh.plans(outgoing, jobs),
    ensures
        forall|j: int|
            0 <= j < jobs.len() ==> mesh.peers@.contains_key((#[trigger] jobs[j]).0)
                && jobs[j].1 == outgoing[jobs[j].0],
        forall|i: int, j: int|
            0 <= i < j < jobs.len() ==> (#[trigger] jobs[i]).0 < (#[trigger] jobs[j]).0,
        forall|peer: usize| #[trigger]
            mesh.peers@.contains_key(peer) ==> exists|j: int|
                0 <= j < jobs.len() && (#[trigger] jobs[j]).0 == peer,
{
    let ids = choose|ids: Seq<usize>| #[trigger]
        lists_keys(ids, mesh.peers@) && jobs.len() == ids.len() && forall|i: int|
            0 <= i < ids.len() ==> (#[trigger] jobs[i]).0 == ids[i] && outgoing.contains_key(ids[i])
                && jobs[i].1 == outgoing[ids[i]];
    assert forall|j: int| 0 <= j < jobs.len() implies mesh.peers@.contains_key(
        (#[trigger] jobs[j]).0,
    ) by {
        assert(ids.to_set().contains(ids[j]));
    }
    assert forall|peer: usize| #[trigger] mesh.peers@.contains_key(peer) implies exists|j: int|
        0 <= j < jobs.len() && (#[trigger] jobs[j]).0 == peer by {
        assert(ids.to_set().contains(peer));
        let j = choose|j: int| 0 <= j < ids.len() && ids[j] == peer;
        assert(jobs[j].0 == peer);
    }
}

/// Of two tracers with complete meshes, each sends the other exactly one
/// message: the one addressed to it.
pub proof fn peers_send_each_other_one_message<L, M>(
    a: TracerMesh<L>,
    b: TracerMesh<L>,
    outgoing: Map<usize, M>,
    jobs: Seq<(usize, M)>,
)
    requires
        a.wf(),
        b.wf(),
        a.n3 == b.n3,
        a.index != b.index,
        a.step() is Ready,
        a.plans(outgoing, jobs),
    ensures
        exists|j: int|
            {
                &&& 0 <= j < jobs.len()
                &&& (#[trigger] jobs[j]).0 == b.index
                &&& jobs[j].1 == outgoing[b.index]
                &&& forall|k: int|
                    0 <= k < jobs.len() && (#[trigger] jobs[k]).0 == b.index ==> k == j
            },
{
    ready_mesh_reaches_everyone(a);
    lemma_plan(a, outgoing, jobs);
    assert(a.peers@.contains_key(b.index));
    let j = choose|j: int| 0 <= j < jobs.len() && (#[trigger] jobs[j]).0 == b.index;
    assert forall|k: int| 0 <= k < jobs.len() && (#[trigger] jobs[k]).0 == b.index implies k == j by {
        if k < j {
            assert(jobs[k].0 < jobs[j].0);
        }
        if j < k {
            assert(jobs[j].0 < jobs[k].0);
        }
    }
}

/// In a communication round over a complete mesh every tracer gets exactly one
/// message from every other tracer, the one addressed to it, and nothing from
/// anyone else. What is addressed to somebody who is no peer is sent to
/// nobody.
pub proof fn messages_reach_their_recipients<L, M>(
    meshes: Seq<TracerMesh<L>>,
    outgoing: Seq<Map<usize, M>>,
    plans: Seq<Seq<(usize, M)>>,
    to: usize,
)
    requires
        outgoing.len() == meshes.len(),
        plans.len() == meshes.len(),
        forall|i: int|
            0 <= i < meshes.len() ==> {
                &&& (#[trigger] meshes[i]).wf()
                &&& meshes[i].index == i
                &&& meshes[i].n3 == meshes.len()
                &&& meshes[i].step() is Ready
                &&& meshes[i].plans(outgoing[i], plans[i])
            },
        to < meshes.len(),
    ensures
        forall|from: usize| #[trigger]
            arrives(plans, to).contains_key(from) <==> from < meshes.len() && from != to,
        arrives(plans, to).dom() == meshes[to as int].peers@.dom(),
        arrives(plans, to).len() == meshes.len() - 1,
        forall|from: usize|
            from < meshes.len() && from != to ==> #[trigger] arrives(plans, to)[from]
                == outgoing[from as int][to],
        forall|from: int, j: int|
            0 <= from < meshes.len() && 0 <= j < plans[from].len() ==> (
            #[trigger] plans[from][j]).0 < meshes.len() && plans[from][j].0 != from,
{
    let got = arrives(plans, to);
    assert forall|from: usize| #[trigger] got.contains_key(from) <==> from < meshes.len() && from
        != to by {
        if from < meshes.len() {
            let mesh = meshes[from as int];
            ready_mesh_reaches_everyone(mesh);
            lemma_plan(mesh, outgoing[from as int], plans[from as int]);
            if from != to {
                assert(mesh.peers@.contains_key(to));
                let j = choose|j: int|
                    0 <= j < plans[from as int].len() && (#[trigger] plans[from as int][j]).0 == to;
                assert(sends_to(plans, from, to, j));
            } else if got.contains_key(from) {
                let j = choose|j: int| sends_to(plans, from, to, j);
                assert(mesh.peers@.contains_key(plans[from as int][j].0));
            }
        }
    }
    assert forall|from: usize| from < meshes.len() && from != to implies #[trigger] got[from]
        == outgoing[from as int][to] by {
        assert(got.contains_key(from));
        let mesh = meshes[from as int];
        lemma_plan(mesh, outgoing[from as int], plans[from as int]);
        let j = choose|j: int| sends_to(plans, from, to, j);
        assert(sends_to(plans, from, to, j));
        assert(plans[from as int][j].1 == outgoing[from as int][plans[from as int][j].0]);
    }
    assert forall|from: int, j: int| 0 <= from < meshes.len() && 0 <= j < plans[from].len() implies (
    #[trigger] plans[from][j]).0 < meshes.len() && plans[from][j].0 != from by {
        let mesh = meshes[from];
        lemma_plan(mesh, outgoing[from], plans[from]);
        assert(mesh.peers@.contains_key(plans[from][j].0));
    }
    let own = meshes[to as int];
    ready_mesh_reaches_everyone(own);
    assert forall|from: usize| #[trigger] got.dom().contains(from) <==> own.peers@.dom().contains(
        from,
    ) by {
        assert(got.contains_key(from) <==> own.peers@.contains_key(from));
    }
    assert(got.dom() =~= own.peers@.dom());
}

/// Tracer `index` listens on the local host, on the port that many above the
/// base port.
pub proof fn addresses_name_the_port(base_port: u16, index: usize)
    ensures
        spec_tracer_addr(base_port, index).len() > 10,
        spec_tracer_addr(base_port, index).take(10) == "127.0.0.1:"@,
        decimal_value(spec_tracer_addr(base_port, index).skip(10)) == Some(
            (base_port + index) as nat,
        ),
{
    reveal_strlit("127.0.0.1:");
    let n: nat = (base_port + index) as nat;
    let addr = spec_tracer_addr(base_port, index);
    decimals_are_digits(n);
    decimal_round_trip(n);
    assert(addr.take(10) =~= "127.0.0.1:"@);
    assert(addr.skip(10) =~= decimal(n));
}

/// A connection is taken exactly when it says to come from a higher-indexed
/// tracer that has no link yet, under that tracer's identity key.
pub proof fn higher_tracers_are_let_in_once<L>(
    mesh: TracerMesh<L>,
    roster: Seq<ActorKeys>,
    id: usize,
    role: Role,
    pk: Vec<u8>,
    identity_pk: Vec<u8>,
    secure: SecurePackage,
    broadcast: BroadcastPackage,
)
    ensures
        mesh.admits(roster, Message::Hello { id, role, pk, identity_pk }) == Some(id) <==> role
            == Role::Tracer && mesh.index < id < mesh.n3 && !mesh.peers@.contains_key(id)
            && identity_pk@ == roster[id as int].identity_pk@,
        mesh.admits(roster, Message::Hello { id, role, pk, identity_pk }) is Some ==> mesh.admits(
            roster,
            Message::Hello { id, role, pk, identity_pk },
        ) == Some(id),
        mesh.admits(roster, Message::Secure { package: secure }) is None,
        mesh.admits(roster, Message::Broadcast { package: broadcast }) is None,
{
}

/// As long as a link is missing there is something to do: dial the first
/// lower-indexed tracer without a link, or, once there is none, accept.
pub proof fn missing_links_are_sought<L>(mesh: TracerMesh<L>, missing: usize)
    requires
        mesh.wf(),
        missing < mesh.n3,
        missing != mesh.index,
        !mesh.peers@.contains_key(missing),
    ensures
        mesh.step() !is Ready,
        missing < mesh.index ==> mesh.step() is Dial,
        mesh.step() matches MeshStep::Dial(peer) ==> peer < mesh.index && !mesh.peers@.contains_key(
            peer,
        ) && forall|id: usize| id < peer ==> #[trigger] mesh.peers@.contains_key(id),
        mesh.step() is Accept ==> forall|id: usize|
            id < mesh.index ==> #[trigger] mesh.peers@.contains_key(id),
{
    if mesh.step() is Ready {
        ready_mesh_reaches_everyone(mesh);
        assert(mesh.peers@.contains_key(missing));
    }
}

/// Once every other tracer is linked there is nothing left to do.
pub proof fn complete_mesh_is_ready<L>(mesh: TracerMesh<L>)
    requires
        mesh.wf(),
        forall|id: usize|
            id < mesh.n3 && id != mesh.index ==> #[trigger] mesh.peers@.contains_key(id),
    ensures
        mesh.step() is Ready,
{
    if mesh.dialed < mesh.index {
        assert(mesh.peers@.contains_key(mesh.dialed));
    }
    let ids = mesh.peers@.dom().insert(mesh.index);
    let all = Seq::new(mesh.n3 as nat, |k: int| k as usize);
    assert(all.no_duplicates());
    all.unique_seq_to_set();
    assert forall|id: usize| #[trigger] all.to_set().contains(id) implies ids.contains(id) by {
        let k = choose|k: int| 0 <= k < all.len() && all[k] == id;
        if id != mesh.index {
            assert(mesh.peers@.contains_key(id));
        }
    }
    assert(all.to_set().subset_of(ids));
    vstd::set_lib::lemma_len_subset(all.to_set(), ids);
}

} // verus!
