//! Offers of one viewer are negotiated one after another.

use vstd::prelude::*;

use crate::table::Table;

verus! {

/// A viewer's gate and the number of offers that hold it or wait for it.
#[derive(Clone, Copy, Debug, PartialEq, Eq, Structural)]
pub struct OfferGate {
    pub gate: u64,
    pub users: u64,
}

/// Gates of the viewers whose offers are under way. A gate is a number; the program keeps a
/// lock under it.
#[derive(Debug)]
pub struct OfferGates {
    pub gates: Table<String, OfferGate>,
    pub next: u64,
}

pub struct GatesView {
    pub gates: Map<Seq<char>, OfferGate>,
    pub next: u64,
}

impl View for OfferGates {
    type V = GatesView;

    open spec fn view(&self) -> GatesView {
        GatesView { gates: self.gates@, next: self.next }
    }
}

impl GatesView {
    /// Every gate is in use and older than the next one, and no two viewers share one.
    pub open spec fn wf(self) -> bool {
        &&& forall|client: Seq<char>| #[trigger]
            self.gates.contains_key(client) ==> self.gates[client].users > 0
                && self.gates[client].gate < self.next
        &&& forall|a: Seq<char>, b: Seq<char>|
            #![trigger self.gates.contains_key(a), self.gates.contains_key(b)]
            self.gates.contains_key(a) && self.gates.contains_key(b) && self.gates[a].gate
                == self.gates[b].gate ==> a == b
    }

    /// Which gate a viewer's next offer meets.
    pub open spec fn gate_of(self, client: Seq<char>) -> u64 {
        if self.gates.contains_key(client) {
            self.gates[client].gate
        } else {
            self.next
        }
    }

    /// One more offer of a viewer is under way.
    pub open spec fn entered(self, client: Seq<char>) -> Self {
        GatesView {
            gates: self.gates.insert(
                client,
                OfferGate {
                    gate: self.gate_of(client),
                    users: if self.gates.contains_key(client) {
                        (self.gates[client].users + 1) as u64
                    } else {
                        1
                    },
                },
            ),
            next: if self.gates.contains_key(client) {
                self.next
            } else {
                (self.next + 1) as u64
            },
        }
    }

    /// One offer of a viewer less is under way.
    pub open spec fn left(self, client: Seq<char>) -> Self {
        GatesView {
            gates: if !self.gates.contains_key(client) {
                self.gates
            } else if self.gates[client].users == 1 {
                self.gates.remove(client)
            } else {
                self.gates.insert(
                    client,
                    OfferGate {
                        users: (self.gates[client].users - 1) as u64,
                        ..self.gates[client]
                    },
                )
            },
            ..self
        }
    }
}

impl OfferGates {
    pub fn new() -> (r: Self)
        ensures
            r@.gates == Map::<Seq<char>, OfferGate>::empty(),
            r@.next == 0,
            r@.wf(),
    {
        OfferGates { gates: Table::new(), next: 0 }
    }

    /// Which gate an offer of a viewer has to pass: the one that its other offers use, if there
    /// are any.
    pub fn enter(&mut self, client_id: &str) -> (r: u64)
        requires
            old(self)@.wf(),
            old(self)@.next < u64::MAX,
            old(self)@.gates.contains_key(client_id@) ==> old(self)@.gates[client_id@].users
                < u64::MAX,
        ensures
            final(self)@.wf(),
            r == old(self)@.gate_of(client_id@),
            final(self)@ == old(self)@.entered(client_id@),
    {
        let key = client_id.to_owned();
        let known = match self.gates.get(&key) {
            Some(gate) => Some(*gate),
            None => None,
        };
        let entered = match known {
            Some(gate) => OfferGate { gate: gate.gate, users: gate.users + 1 },
            None => {
                let gate = self.next;
                self.next = gate + 1;
                OfferGate { gate, users: 1 }
            },
        };
        let _ = self.gates.insert(key, entered);
        entered.gate
    }

    /// An offer of a viewer has passed its gate or given up. A gate that nobody uses is forgotten.
    pub fn leave(&mut self, client_id: &str)
        requires
            old(self)@.wf(),
        ensures
            final(self)@.wf(),
            final(self)@ == old(self)@.left(client_id@),
    {
        let key = client_id.to_owned();
        let known = match self.gates.get(&key) {
            Some(gate) => Some(*gate),
            None => None,
        };
        if let Some(gate) = known {
            assert(self@.gates.contains_key(client_id@));
            if gate.users == 1 {
                let _ = self.gates.remove(&key);
            } else {
                let left = OfferGate { gate: gate.gate, users: gate.users - 1 };
                let _ = self.gates.insert(key, left);
            }
        }
    }
}

/// While an offer of a viewer is under way, its next offer meets the same gate; another viewer's
/// does not.
pub proof fn lemma_offers_share_a_gate(v: GatesView, client: Seq<char>, other: Seq<char>)
    requires
        v.wf(),
        v.gates.contains_key(client),
        other != client,
    ensures
        v.gate_of(client) == v.gates[client].gate,
        v.gate_of(other) != v.gate_of(client),
{
}

/// An offer that has passed leaves nothing behind: the viewers with a gate are those who had one
/// before it came.
pub proof fn lemma_leaving_undoes_entering(v: GatesView, client: Seq<char>)
    requires
        v.wf(),
        v.gates.contains_key(client) ==> v.gates[client].users < u64::MAX,
    ensures
        v.entered(client).left(client).gates == v.gates,
{
    assert(v.entered(client).left(client).gates =~= v.gates);
}

} // verus!
