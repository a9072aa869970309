//! The static membership of the cluster.

use vstd::prelude::*;

verus! {

/// A replica's transport address: an IPv4 host and a port.
#[derive(Debug, Clone, Copy)]
pub struct Address {
    pub host: [u8; 4],
    pub port: u16,
}

/// The replicas of the cluster: replica `replicas[i]` listens at `addresses[i]`.
pub struct ReplicaConfig {
    pub addresses: Vec<Address>,
    pub replicas: Vec<usize>,
}

impl ReplicaConfig {
    /// The number of replicas.
    pub open spec fn size(&self) -> nat {
        self.replicas@.len()
    }

    /// A usable configuration: at least one replica, one address per replica, and the
    /// replica at position `i` has id `i`.
    pub open spec fn wf(&self) -> bool {
        &&& self.replicas@.len() >= 1
        &&& self.addresses@.len() == self.replicas@.len()
        &&& forall|i: int| 0 <= i < self.replicas@.len() ==> self.replicas@[i] == i
    }

    /// A configuration without replicas.
    pub fn new() -> (r: ReplicaConfig)
        ensures
            r.addresses@ == Seq::<Address>::empty(),
            r.replicas@ == Seq::<usize>::empty(),
    {
        ReplicaConfig { addresses: Vec::new(), replicas: Vec::new() }
    }

    /// Adds replica `id`, listening at `address`.
    pub fn append_new(&mut self, id: usize, address: Address)
        ensures
            final(self).addresses@ == old(self).addresses@.push(address),
            final(self).replicas@ == old(self).replicas@.push(id),
    {
        self.addresses.push(address);
        self.replicas.push(id);
    }

    /// The address of replica `replica_id`.
    pub fn get_replica_address(&self, replica_id: usize) -> (r: Address)
        requires
            replica_id < self.addresses@.len(),
        ensures
            r == self.addresses@[replica_id as int],
    {
        self.addresses[replica_id]
    }

    /// The primary of view `view_number`: the replica at position `view_number mod N`.
    pub fn primary_id(&self, view_number: usize) -> (r: usize)
        requires
            self.replicas@.len() >= 1,
        ensures
            r == self.replicas@[(view_number as int) % (self.replicas@.len() as int)],
    {
        let idx = view_number % self.replicas.len();
        self.replicas[idx]
    }

    /// Whether this configuration is usable (see `wf`).
    pub fn is_valid(&self) -> (r: bool)
        ensures
            r == self.wf(),
    {
        if self.replicas.len() == 0 || self.addresses.len() != self.replicas.len() {
            return false;
        }
        let mut i: usize = 0;
        while i < self.replicas.len()
            invariant
                i <= self.replicas@.len(),
                forall|j: int| 0 <= j < i ==> self.replicas@[j] == j,
            decreases self.replicas@.len() - i,
        {
            if self.replicas[i] != i {
                return false;
            }
            i = i + 1;
        }
        true
    }
}

} // verus!
