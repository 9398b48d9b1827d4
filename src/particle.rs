use vstd::prelude::*;

verus! {

/// A TTL-bounded script with its data, as received from the transport.
pub struct Particle {
    pub id: String,
    pub init_peer_id: String,
    /// Creation time, in milliseconds.
    pub timestamp: u64,
    /// Time to live, in milliseconds.
    pub ttl: u32,
    pub script: String,
    pub signature: Vec<u8>,
    pub data: Vec<u8>,
}

/// The mathematical value of a particle.
pub struct ParticleView {
    pub id: Seq<char>,
    pub init_peer_id: Seq<char>,
    pub timestamp: u64,
    pub ttl: u32,
    pub script: Seq<char>,
    pub signature: Seq<u8>,
    pub data: Seq<u8>,
}

impl ParticleView {
    /// The instant from which the particle is expired.
    pub open spec fn deadline(self) -> int {
        self.timestamp + self.ttl
    }

    pub open spec fn expired_at(self, now: u64) -> bool {
        now >= self.deadline()
    }
}

impl View for Particle {
    type V = ParticleView;

    open spec fn view(&self) -> ParticleView {
        ParticleView {
            id: self.id@,
            init_peer_id: self.init_peer_id@,
            timestamp: self.timestamp,
            ttl: self.ttl,
            script: self.script@,
            signature: self.signature@,
            data: self.data@,
        }
    }
}

impl Particle {
    /// Whether the particle is expired at `now` (milliseconds).
    pub fn is_expired(&self, now: u64) -> (r: bool)
        ensures
            r == self@.expired_at(now),
    {
        now >= self.timestamp && now - self.timestamp >= self.ttl as u64
    }

    /// A copy of the particle.
    pub fn duplicate(&self) -> (r: Particle)
        ensures
            r@ == self@,
    {
        let signature = self.signature.clone();
        let data = self.data.clone();
        proof {
            assert(signature@ =~= self.signature@);
            assert(data@ =~= self.data@);
        }
        Particle {
            id: self.id.clone(),
            init_peer_id: self.init_peer_id.clone(),
            timestamp: self.timestamp,
            ttl: self.ttl,
            script: self.script.clone(),
            signature,
            data,
        }
    }

    /// The same particle carrying `data` in place of its own.
    pub fn with_data(self, data: Vec<u8>) -> (r: Particle)
        ensures
            r@ == (ParticleView { data: data@, ..self@ }),
    {
        Particle { data, ..self }
    }
}

/// Identifies the execution state of one particle on one receiving peer.
pub struct ActorKey {
    pub particle_id: String,
    pub peer_id: String,
}

impl View for ActorKey {
    type V = (Seq<char>, Seq<char>);

    open spec fn view(&self) -> (Seq<char>, Seq<char>) {
        (self.particle_id@, self.peer_id@)
    }
}

impl ActorKey {
    pub fn new(particle_id: String, peer_id: String) -> (r: ActorKey)
        ensures
            r@ == (particle_id@, peer_id@),
    {
        ActorKey { particle_id, peer_id }
    }

    /// Whether this key is the pair (`particle_id`, `peer_id`).
    pub fn matches(&self, particle_id: &String, peer_id: &String) -> (r: bool)
        ensures
            r == (self@ == (particle_id@, peer_id@)),
    {
        self.particle_id == *particle_id && self.peer_id == *peer_id
    }

    /// A copy of the key.
    pub fn duplicate(&self) -> (r: ActorKey)
        ensures
            r@ == self@,
    {
        ActorKey { particle_id: self.particle_id.clone(), peer_id: self.peer_id.clone() }
    }
}

} // verus!
