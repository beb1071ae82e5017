//! Registration: who has connected to a server that waits for every actor.
use vstd::prelude::*;

use crate::authority::ActorKeys;
use crate::keys::{Error, PublicKey};
use crate::network::Role;
use crate::primitives::public_key_encoding;

verus! {

/// What became of an actor that asked to be registered.
#[derive(Debug, Clone, Copy, PartialEq, Eq, Structural)]
pub enum Admission {
    /// It has its seat now.
    Admitted,
    /// No actor of its role has such an id.
    OutOfBounds,
    /// Its seat was taken before.
    Taken,
    /// Nobody of its role is expected here.
    Unexpected,
}

/// Seats for every signer and tracer, and for the combiner where one is
/// expected.
pub struct Lobby<T> {
    pub signers: Vec<Option<T>>,
    pub tracers: Vec<Option<T>>,
    pub combiner: Option<T>,
    pub expects_combiner: bool,
    pub connected: usize,
}

/// How many seats are taken.
pub open spec fn taken<T>(seats: Seq<Option<T>>) -> nat
    decreases seats.len(),
{
    if seats.len() == 0 {
        0
    } else {
        taken(seats.drop_last()) + if seats.last() is Some {
            1nat
        } else {
            0nat
        }
    }
}

/// Whether every seat is taken.
pub open spec fn full<T>(seats: Seq<Option<T>>) -> bool {
    forall|i: int| 0 <= i < seats.len() ==> (#[trigger] seats[i]) is Some
}

proof fn lemma_taken<T>(seats: Seq<Option<T>>)
    ensures
        taken(seats) <= seats.len(),
        taken(seats) == seats.len() <==> full(seats),
    decreases seats.len(),
{
    if seats.len() > 0 {
        lemma_taken(seats.drop_last());
        if full(seats.drop_last()) && seats.last() is Some {
            assert forall|i: int| 0 <= i < seats.len() implies (#[trigger] seats[i]) is Some by {
                if i < seats.len() - 1 {
                    assert(seats.drop_last()[i] is Some);
                }
            }
        }
        if full(seats) {
            assert forall|i: int| 0 <= i < seats.len() - 1 implies (
            #[trigger] seats.drop_last()[i]) is Some by {
                assert(seats[i] is Some);
            }
            assert(seats[seats.len() - 1] is Some);
        }
    }
}

proof fn lemma_take_seat<T>(seats: Seq<Option<T>>, id: int, seat: T)
    requires
        0 <= id < seats.len(),
        seats[id] is None,
    ensures
        taken(seats.update(id, Some(seat))) == taken(seats) + 1,
    decreases seats.len(),
{
    let after = seats.update(id, Some(seat));
    if id == seats.len() - 1 {
        assert(after.drop_last() =~= seats.drop_last());
    } else {
        assert(after.drop_last() =~= seats.drop_last().update(id, Some(seat)));
        lemma_take_seat(seats.drop_last(), id, seat);
    }
}

proof fn lemma_empty_seats<T>(seats: Seq<Option<T>>)
    requires
        forall|i: int| 0 <= i < seats.len() ==> (#[trigger] seats[i]) is None,
    ensures
        taken(seats) == 0,
    decreases seats.len(),
{
    if seats.len() > 0 {
        lemma_empty_seats(seats.drop_last());
    }
}

fn empty_seats<T>(count: usize) -> (seats: Vec<Option<T>>)
    ensures
        seats@.len() == count,
        forall|i: int| 0 <= i < count ==> (#[trigger] seats@[i]) is None,
{
    let mut seats: Vec<Option<T>> = Vec::new();
    while seats.len() < count
        invariant
            seats@.len() <= count,
            forall|i: int| 0 <= i < seats@.len() ==> (#[trigger] seats@[i]) is None,
        decreases count - seats@.len(),
    {
        seats.push(None);
    }
    seats
}

impl<T> Lobby<T> {
    /// The number of actors that are expected.
    pub open spec fn expected(&self) -> nat {
        self.signers@.len() + self.tracers@.len() + if self.expects_combiner {
            1nat
        } else {
            0nat
        }
    }

    /// The count of actors is right, and fits.
    pub open spec fn wf(&self) -> bool {
        &&& self.connected == taken(self.signers@) + taken(self.tracers@) + if self.combiner is Some {
            1nat
        } else {
            0nat
        }
        &&& self.combiner is Some ==> self.expects_combiner
        &&& self.expected() <= usize::MAX
    }

    /// A lobby that waits for `n` signers, `n3` tracers and maybe a combiner.
    pub fn new(n: usize, n3: usize, expects_combiner: bool) -> (lobby: Self)
        requires
            n + n3 + 1 <= usize::MAX,
        ensures
            lobby.wf(),
            lobby.connected == 0,
            lobby.signers@.len() == n,
            lobby.tracers@.len() == n3,
            lobby.combiner is None,
            lobby.expects_combiner == expects_combiner,
            forall|i: int| 0 <= i < n ==> (#[trigger] lobby.signers@[i]) is None,
            forall|i: int| 0 <= i < n3 ==> (#[trigger] lobby.tracers@[i]) is None,
    {
        let signers: Vec<Option<T>> = empty_seats(n);
        let tracers: Vec<Option<T>> = empty_seats(n3);
        proof {
            lemma_empty_seats(signers@);
            lemma_empty_seats(tracers@);
        }
        Lobby { signers, tracers, combiner: None, expects_combiner, connected: 0 }
    }

    /// What the request of an actor comes to.
    pub open spec fn admission(&self, role: Role, id: usize) -> Admission {
        match role {
            Role::Signer => if id >= self.signers@.len() {
                Admission::OutOfBounds
            } else if self.signers@[id as int] is Some {
                Admission::Taken
            } else {
                Admission::Admitted
            },
            Role::Tracer => if id >= self.tracers@.len() {
                Admission::OutOfBounds
            } else if self.tracers@[id as int] is Some {
                Admission::Taken
            } else {
                Admission::Admitted
            },
            Role::Combiner => if !self.expects_combiner {
                Admission::Unexpected
            } else if self.combiner is Some {
                Admission::Taken
            } else {
                Admission::Admitted
            },
        }
    }

    /// Registers an actor under its role and id. The combiner has no id.
    pub fn register(&mut self, role: Role, id: usize, seat: T) -> (admission: Admission)
        requires
            old(self).wf(),
        ensures
            final(self).wf(),
            admission == old(self).admission(role, id),
            final(self).expects_combiner == old(self).expects_combiner,
            final(self).connected == old(self).connected + if admission == Admission::Admitted {
                1int
            } else {
                0int
            },
            final(self).signers@ == if admission == Admission::Admitted && role == Role::Signer {
                old(self).signers@.update(id as int, Some(seat))
            } else {
                old(self).signers@
            },
            final(self).tracers@ == if admission == Admission::Admitted && role == Role::Tracer {
                old(self).tracers@.update(id as int, Some(seat))
            } else {
                old(self).tracers@
            },
            final(self).combiner == if admission == Admission::Admitted && role == Role::Combiner {
                Some(seat)
            } else {
                old(self).combiner
            },
    {
        proof {
            lemma_taken(self.signers@);
            lemma_taken(self.tracers@);
        }
        match role {
            Role::Signer => {
                if id >= self.signers.len() {
                    return Admission::OutOfBounds;
                }
                if self.signers[id].is_some() {
                    return Admission::Taken;
                }
                proof {
                    lemma_take_seat(self.signers@, id as int, seat);
                    lemma_taken(self.signers@.update(id as int, Some(seat)));
                }
                self.signers.set(id, Some(seat));
            },
            Role::Tracer => {
                if id >= self.tracers.len() {
                    return Admission::OutOfBounds;
                }
                if self.tracers[id].is_some() {
                    return Admission::Taken;
                }
                proof {
                    lemma_take_seat(self.tracers@, id as int, seat);
                    lemma_taken(self.tracers@.update(id as int, Some(seat)));
                }
                self.tracers.set(id, Some(seat));
            },
            Role::Combiner => {
                if !self.expects_combiner {
                    return Admission::Unexpected;
                }
                if self.combiner.is_some() {
                    return Admission::Taken;
                }
                self.combiner = Some(seat);
            },
        }
        self.connected = self.connected + 1;
        Admission::Admitted
    }

    /// Whether nobody is missing.
    pub fn is_complete(&self) -> (complete: bool)
        requires
            self.wf(),
        ensures
            complete == (full(self.signers@) && full(self.tracers@) && (self.expects_combiner
                ==> self.combiner is Some)),
    {
        proof {
            lemma_taken(self.signers@);
            lemma_taken(self.tracers@);
        }
        let mut expected: usize = self.signers.len() + self.tracers.len();
        if self.expects_combiner {
            expected = expected + 1;
        }
        self.connected == expected
    }
}

/// The network keys that an actor announces when it registers, unless one of
/// them is no key.
pub fn announced_keys(pk: &[u8], identity_pk: &[u8]) -> (res: Result<ActorKeys, Error>)
    ensures
        match res {
            Ok(keys) => {
                &&& public_key_encoding(pk@) == Some(keys.transport_pk@)
                &&& public_key_encoding(identity_pk@) == Some(keys.identity_pk@)
            },
            Err(e) => {
                &&& e == Error::InvalidPublicKey
                &&& public_key_encoding(pk@) is None || public_key_encoding(identity_pk@) is None
            },
        },
{
    let transport_pk: PublicKey = match PublicKey::from_slice(pk) {
        Ok(transport_pk) => transport_pk,
        Err(e) => {
            return Err(e);
        },
    };
    match PublicKey::from_slice(identity_pk) {
        Ok(identity_pk) => Ok(ActorKeys { identity_pk, transport_pk }),
        Err(e) => Err(e),
    }
}

/// The keys of everyone seated, in order of the ids, once nobody is missing.
pub fn roster<L>(seats: &Vec<Option<(L, ActorKeys)>>) -> (res: Option<Vec<ActorKeys>>)
    ensures
        match res {
            Some(keys) => {
                &&& full(seats@)
                &&& keys@.len() == seats@.len()
                &&& forall|i: int|
                    0 <= i < keys@.len() ==> (#[trigger] keys@[i]) == (seats@[i]->0).1
            },
            None => !full(seats@),
        },
{
    let mut keys: Vec<ActorKeys> = Vec::new();
    let mut i: usize = 0;
    while i < seats.len()
        invariant
            i <= seats@.len(),
            keys@.len() == i,
            forall|j: int| 0 <= j < i ==> (#[trigger] seats@[j]) is Some,
            forall|j: int| 0 <= j < i ==> (#[trigger] keys@[j]) == (seats@[j]->0).1,
        decreases seats@.len() - i,
    {
        match &seats[i] {
            Some(seat) => {
                keys.push(seat.1);
            },
            None => {
                return None;
            },
        }
        i = i + 1;
    }
    Some(keys)
}

/// A signer or tracer gets its seat exactly when there is one with its id and
/// it is free; the combiner exactly when one is expected and none has come.
pub proof fn free_seats_are_given<T>(lobby: Lobby<T>, id: usize)
    ensures
        lobby.admission(Role::Signer, id) == Admission::Admitted <==> id < lobby.signers@.len()
            && lobby.signers@[id as int] is None,
        lobby.admission(Role::Signer, id) == Admission::OutOfBounds <==> id >= lobby.signers@.len(),
        lobby.admission(Role::Signer, id) == Admission::Taken <==> id < lobby.signers@.len()
            && lobby.signers@[id as int] is Some,
        lobby.admission(Role::Tracer, id) == Admission::Admitted <==> id < lobby.tracers@.len()
            && lobby.tracers@[id as int] is None,
        lobby.admission(Role::Tracer, id) == Admission::OutOfBounds <==> id >= lobby.tracers@.len(),
        lobby.admission(Role::Tracer, id) == Admission::Taken <==> id < lobby.tracers@.len()
            && lobby.tracers@[id as int] is Some,
        lobby.admission(Role::Combiner, id) == Admission::Admitted <==> lobby.expects_combiner
            && lobby.combiner is None,
        lobby.admission(Role::Combiner, id) == Admission::Unexpected <==> !lobby.expects_combiner,
{
}

/// Seats are full exactly when none of them is free.
pub proof fn full_means_nobody_is_missing<T>(seats: Seq<Option<T>>)
    ensures
        full(seats) <==> !exists|i: int| 0 <= i < seats.len() && (#[trigger] seats[i]) is None,
        taken(seats) <= seats.len(),
        full(seats) <==> taken(seats) == seats.len(),
{
    lemma_taken(seats);
}

/// As many are expected as there are seats for signers and tracers, and the
/// combiner where one is expected.
pub proof fn every_seat_is_expected_to_be_taken<T>(lobby: Lobby<T>)
    ensures
        lobby.expects_combiner ==> lobby.expected() == lobby.signers@.len() + lobby.tracers@.len()
            + 1,
        !lobby.expects_combiner ==> lobby.expected() == lobby.signers@.len() + lobby.tracers@.len(),
{
}

/// As many have come as are expected exactly when no signer, no tracer and no
/// expected combiner is missing.
pub proof fn everyone_has_come_or_someone_is_missing<T>(lobby: Lobby<T>)
    requires
        lobby.wf(),
    ensures
        lobby.connected == lobby.expected() <==> {
            &&& forall|i: int| 0 <= i < lobby.signers@.len() ==> (#[trigger] lobby.signers@[i]) is Some
            &&& forall|i: int| 0 <= i < lobby.tracers@.len() ==> (#[trigger] lobby.tracers@[i]) is Some
            &&& lobby.expects_combiner ==> lobby.combiner is Some
        },
        lobby.connected <= lobby.expected(),
{
    lemma_taken(lobby.signers@);
    lemma_taken(lobby.tracers@);
}

} // verus!
