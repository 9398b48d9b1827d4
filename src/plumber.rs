use vstd::prelude::*;

use crate::particle::{ActorKey, Particle, ParticleView};

verus! {

/// Why a particle was refused admission.
#[derive(Debug, Clone, Copy, PartialEq, Eq, Structural)]
pub enum Rejected {
    /// The particle's deadline had passed on arrival.
    Expired,
    /// The number of live actors had reached the admission limit.
    AdmissionLimit,
}

/// What became of a finished interpreter run.
#[derive(Debug, Clone, Copy, PartialEq, Eq, Structural)]
pub enum Completion {
    /// The run's results stand.
    Applied,
    /// The particle expired while it ran: its results are dropped.
    Discarded,
    /// No run was in flight for the key.
    Unknown,
}

/// Counters of the admission decisions, saturating at `u64::MAX`.
#[derive(Debug, Clone, Copy, PartialEq, Eq, Structural)]
pub struct AdmissionMetrics {
    pub accepted: u64,
    pub expired: u64,
    pub limited: u64,
}

pub open spec fn bump(x: u64) -> u64 {
    if x < u64::MAX {
        (x + 1) as u64
    } else {
        x
    }
}

fn bump_exec(x: u64) -> (r: u64)
    ensures
        r == bump(x),
{
    if x < u64::MAX {
        x + 1
    } else {
        x
    }
}

/// Per-key execution state.
pub struct Actor {
    pub key: ActorKey,
    /// Creation time of the first particle seen for the key.
    pub timestamp: u64,
    /// Time to live of the first particle seen for the key.
    pub ttl: u32,
    /// Arrivals waiting for the next run, oldest first.
    pub queue: Vec<Particle>,
    /// Whether a run is in flight for the key.
    pub busy: bool,
}

pub struct ActorView {
    pub key: (Seq<char>, Seq<char>),
    pub timestamp: u64,
    pub ttl: u32,
    pub queue: Seq<ParticleView>,
    pub busy: bool,
}

/// One interpreter run handed out by `poll`.
pub struct Execution {
    pub key: ActorKey,
    /// The latest arrival: its data supersedes the earlier ones.
    pub particle: Particle,
    /// How many arrivals this run folds together.
    pub coalesced: usize,
}

pub struct ExecutionView {
    pub key: (Seq<char>, Seq<char>),
    pub particle: ParticleView,
    pub coalesced: nat,
}

impl View for Execution {
    type V = ExecutionView;

    open spec fn view(&self) -> ExecutionView {
        ExecutionView { key: self.key@, particle: self.particle@, coalesced: self.coalesced as nat }
    }
}

impl View for Actor {
    type V = ActorView;

    open spec fn view(&self) -> ActorView {
        ActorView {
            key: self.key@,
            timestamp: self.timestamp,
            ttl: self.ttl,
            queue: self.queue@.map_values(|p: Particle| p@),
            busy: self.busy,
        }
    }
}

impl ActorView {
    pub open spec fn expired_at(self, now: u64) -> bool {
        now >= self.timestamp + self.ttl
    }

    /// Idle, and its deadline not reached: the next poll starts a run for it.
    pub open spec fn is_ready(self, now: u64) -> bool {
        !self.busy && !self.expired_at(now)
    }

    /// Kept by a poll at `now`: actors that are idle and expired retire.
    pub open spec fn is_retained(self, now: u64) -> bool {
        self.busy || !self.expired_at(now)
    }

    /// The actor once a poll has considered it.
    pub open spec fn dispatched(self) -> ActorView {
        if self.busy {
            self
        } else {
            ActorView { busy: true, queue: Seq::empty(), ..self }
        }
    }

    /// The run that a poll starts for this actor: all queued arrivals at once.
    pub open spec fn execution(self) -> ExecutionView {
        ExecutionView { key: self.key, particle: self.queue.last(), coalesced: self.queue.len() }
    }
}

pub open spec fn new_actor(p: ParticleView, peer: Seq<char>) -> ActorView {
    ActorView { key: (p.id, peer), timestamp: p.timestamp, ttl: p.ttl, queue: seq![p], busy: false }
}

pub open spec fn ready_at(now: u64) -> spec_fn(ActorView) -> bool {
    |a: ActorView| a.is_ready(now)
}

pub open spec fn retained_at(now: u64) -> spec_fn(ActorView) -> bool {
    |a: ActorView| a.is_retained(now)
}

pub open spec fn retired_at(now: u64) -> spec_fn(ActorView) -> bool {
    |a: ActorView| !a.is_retained(now)
}

pub open spec fn has_key(actors: Seq<ActorView>, k: (Seq<char>, Seq<char>)) -> bool {
    exists|i: int| 0 <= i < actors.len() && actors[i].key == k
}

pub open spec fn index_of(actors: Seq<ActorView>, k: (Seq<char>, Seq<char>)) -> int {
    choose|i: int| 0 <= i < actors.len() && actors[i].key == k
}

/// No two actors share a key, and an idle actor has something to run.
pub open spec fn actors_wf(actors: Seq<ActorView>) -> bool {
    &&& forall|i: int, j: int|
        0 <= i < j < actors.len() ==> #[trigger] actors[i].key != #[trigger] actors[j].key
    &&& forall|i: int| 0 <= i < actors.len() && !(#[trigger] actors[i]).busy ==> actors[i].queue.len() > 0
}

pub struct PlumberView {
    pub actors: Seq<ActorView>,
    pub limit: nat,
    pub metrics: AdmissionMetrics,
}

impl PlumberView {
    pub open spec fn wf(self) -> bool {
        actors_wf(self.actors)
    }
}

/// The effect of `ingest` on the scheduler's state.
pub open spec fn ingest_spec(v: PlumberView, p: ParticleView, peer: Seq<char>, now: u64) -> (
    PlumberView,
    Result<(), Rejected>,
) {
    let k = (p.id, peer);
    let m = v.metrics;
    if p.expired_at(now) {
        (
            PlumberView { metrics: AdmissionMetrics { expired: bump(m.expired), ..m }, ..v },
            Err(Rejected::Expired),
        )
    } else if has_key(v.actors, k) {
        let i = index_of(v.actors, k);
        let a = v.actors[i];
        (
            PlumberView {
                actors: v.actors.update(i, ActorView { queue: a.queue.push(p), ..a }),
                metrics: AdmissionMetrics { accepted: bump(m.accepted), ..m },
                ..v
            },
            Ok(()),
        )
    } else if v.actors.len() >= v.limit {
        (
            PlumberView { metrics: AdmissionMetrics { limited: bump(m.limited), ..m }, ..v },
            Err(Rejected::AdmissionLimit),
        )
    } else {
        (
            PlumberView {
                actors: v.actors.push(new_actor(p, peer)),
                metrics: AdmissionMetrics { accepted: bump(m.accepted), ..m },
                ..v
            },
            Ok(()),
        )
    }
}

pub open spec fn dispatch_fn() -> spec_fn(ActorView) -> ActorView {
    |a: ActorView| a.dispatched()
}

pub open spec fn execution_fn() -> spec_fn(ActorView) -> ExecutionView {
    |a: ActorView| a.execution()
}

pub open spec fn key_fn() -> spec_fn(ActorView) -> (Seq<char>, Seq<char>) {
    |a: ActorView| a.key
}

/// The state after a poll at `now`: expired idle actors retire, ready ones become busy.
pub open spec fn poll_state(v: PlumberView, now: u64) -> PlumberView {
    PlumberView { actors: v.actors.filter(retained_at(now)).map_values(dispatch_fn()), ..v }
}

/// The runs that a poll at `now` starts, in the order of the actors.
pub open spec fn poll_executions(v: PlumberView, now: u64) -> Seq<ExecutionView> {
    v.actors.filter(ready_at(now)).map_values(execution_fn())
}

/// The keys of the actors that a poll at `now` retires.
pub open spec fn poll_retired(v: PlumberView, now: u64) -> Seq<(Seq<char>, Seq<char>)> {
    v.actors.filter(retired_at(now)).map_values(key_fn())
}

/// The effect of `complete` on the scheduler's state.
pub open spec fn complete_spec(v: PlumberView, k: (Seq<char>, Seq<char>), now: u64) -> (
    PlumberView,
    Completion,
) {
    if has_key(v.actors, k) && v.actors[index_of(v.actors, k)].busy {
        let i = index_of(v.actors, k);
        let a = v.actors[i];
        let c = if a.expired_at(now) {
            Completion::Discarded
        } else {
            Completion::Applied
        };
        if a.queue.len() == 0 {
            (PlumberView { actors: v.actors.remove(i), ..v }, c)
        } else {
            (PlumberView { actors: v.actors.update(i, ActorView { busy: false, ..a }), ..v }, c)
        }
    } else {
        (v, Completion::Unknown)
    }
}

/// What one poll hands out.
pub struct Poll {
    pub executions: Vec<Execution>,
    /// Keys of the actors retired on their deadline.
    pub expired: Vec<ActorKey>,
}

/// Groups arriving particles by key and hands out at most one run per key at a time.
/// Its admission limit bounds the number of live actors: a particle for a key without
/// an actor is refused once that many keys are live.
pub struct Plumber {
    actors: Vec<Actor>,
    admission_limit: usize,
    metrics: AdmissionMetrics,
}

pub open spec fn actor_views(s: Seq<Actor>) -> Seq<ActorView> {
    s.map_values(|a: Actor| a@)
}

pub open spec fn execution_views(s: Seq<Execution>) -> Seq<ExecutionView> {
    s.map_values(|e: Execution| e@)
}

pub open spec fn key_views(s: Seq<ActorKey>) -> Seq<(Seq<char>, Seq<char>)> {
    s.map_values(|k: ActorKey| k@)
}

impl View for Plumber {
    type V = PlumberView;

    closed spec fn view(&self) -> PlumberView {
        PlumberView {
            actors: actor_views(self.actors@),
            limit: self.admission_limit as nat,
            metrics: self.metrics,
        }
    }
}

/// Taking one more element of `s` into account extends a filtered map by at most that element.
pub(crate) proof fn lemma_filter_map_step<A, B>(s: Seq<A>, k: int, p: spec_fn(A) -> bool, f: spec_fn(A) -> B)
    requires
        0 <= k < s.len(),
    ensures
        s.subrange(0, k + 1).filter(p).map_values(f) == if p(s[k]) {
            s.subrange(0, k).filter(p).map_values(f).push(f(s[k]))
        } else {
            s.subrange(0, k).filter(p).map_values(f)
        },
{
    assert(s.subrange(0, k + 1) =~= s.subrange(0, k).push(s[k]));
    s.subrange(0, k).lemma_filter_push(s[k], p);
    if p(s[k]) {
        assert(s.subrange(0, k).filter(p).push(s[k]).map_values(f) =~= s.subrange(0, k).filter(
            p,
        ).map_values(f).push(f(s[k])));
    }
}

/// With unique keys, the index chosen for a key is the one where it stands.
proof fn lemma_index_of(actors: Seq<ActorView>, i: int)
    requires
        actors_wf(actors),
        0 <= i < actors.len(),
    ensures
        has_key(actors, actors[i].key),
        index_of(actors, actors[i].key) == i,
{
    let k = actors[i].key;
    assert(has_key(actors, k));
    let j = index_of(actors, k);
    if j < i {
        assert(actors[j].key != actors[i].key);
    } else if i < j {
        assert(actors[i].key != actors[j].key);
    }
}

impl Plumber {
    pub closed spec fn wf(&self) -> bool {
        self@.wf()
    }

    /// An empty scheduler that admits up to `admission_limit` live actors.
    pub fn new(admission_limit: usize) -> (r: Plumber)
        ensures
            r.wf(),
            r@.actors == Seq::<ActorView>::empty(),
            r@.limit == admission_limit,
            r@.metrics == (AdmissionMetrics { accepted: 0, expired: 0, limited: 0 }),
    {
        let r = Plumber {
            actors: Vec::new(),
            admission_limit,
            metrics: AdmissionMetrics { accepted: 0, expired: 0, limited: 0 },
        };
        assert(r@.actors =~= Seq::<ActorView>::empty());
        r
    }

    pub fn metrics(&self) -> (r: AdmissionMetrics)
        ensures
            r == self@.metrics,
    {
        self.metrics
    }

    /// The number of live actors.
    pub fn actor_count(&self) -> (r: usize)
        ensures
            r == self@.actors.len(),
    {
        self.actors.len()
    }

    fn find(&self, particle_id: &String, peer_id: &String) -> (r: Option<usize>)
        ensures
            match r {
                Some(i) => i < self@.actors.len() && self@.actors[i as int].key == (
                    particle_id@,
                    peer_id@,
                ),
                None => !has_key(self@.actors, (particle_id@, peer_id@)),
            },
    {
        let mut i: usize = 0;
        while i < self.actors.len()
            invariant
                i <= self.actors.len(),
                forall|j: int| 0 <= j < i ==> self@.actors[j].key != (particle_id@, peer_id@),
            decreases self.actors.len() - i,
        {
            if self.actors[i].key.matches(particle_id, peer_id) {
                return Some(i);
            }
            i += 1;
        }
        None
    }

    /// Admits `particle`, arrived for the local peer `peer_id` at `now`, into the queue of its key.
    pub fn ingest(&mut self, particle: Particle, peer_id: &String, now: u64) -> (r: Result<
        (),
        Rejected,
    >)
        requires
            old(self).wf(),
        ensures
            final(self).wf(),
            (final(self)@, r) == ingest_spec(old(self)@, particle@, peer_id@, now),
    {
        let ghost v0 = self@;
        let ghost pv = particle@;
        if particle.is_expired(now) {
            self.metrics.expired = bump_exec(self.metrics.expired);
            return Err(Rejected::Expired);
        }
        match self.find(&particle.id, peer_id) {
            Some(i) => {
                proof {
                    lemma_index_of(v0.actors, i as int);
                }
                let ghost a0 = v0.actors[i as int];
                self.actors[i].queue.push(particle);
                self.metrics.accepted = bump_exec(self.metrics.accepted);
                proof {
                    assert(self.actors@[i as int]@.queue =~= a0.queue.push(pv));
                    assert(self@.actors =~= v0.actors.update(
                        i as int,
                        ActorView { queue: a0.queue.push(pv), ..a0 },
                    ));
                }
                Ok(())
            },
            None => {
                if self.actors.len() >= self.admission_limit {
                    self.metrics.limited = bump_exec(self.metrics.limited);
                    return Err(Rejected::AdmissionLimit);
                }
                let key = ActorKey::new(particle.id.clone(), peer_id.clone());
                let timestamp = particle.timestamp;
                let ttl = particle.ttl;
                let mut queue: Vec<Particle> = Vec::new();
                queue.push(particle);
                let actor = Actor { key, timestamp, ttl, queue, busy: false };
                proof {
                    assert(actor@.queue =~= seq![pv]);
                }
                self.actors.push(actor);
                self.metrics.accepted = bump_exec(self.metrics.accepted);
                proof {
                    assert(self@.actors =~= v0.actors.push(new_actor(pv, peer_id@)));
                    assert forall|j: int| 0 <= j < v0.actors.len() implies v0.actors[j].key != (
                        pv.id,
                        peer_id@,
                    ) by {}
                }
                Ok(())
            },
        }
    }

    /// Ends the run in flight for `key` at `now`: the actor goes idle, or retires
    /// when nothing waits for it.
    pub fn complete(&mut self, key: &ActorKey, now: u64) -> (r: Completion)
        requires
            old(self).wf(),
        ensures
            final(self).wf(),
            (final(self)@, r) == complete_spec(old(self)@, key@, now),
    {
        let ghost v0 = self@;
        match self.find(&key.particle_id, &key.peer_id) {
            Some(i) => {
                proof {
                    lemma_index_of(v0.actors, i as int);
                }
                if !self.actors[i].busy {
                    return Completion::Unknown;
                }
                let a = &self.actors[i];
                let c = if now >= a.timestamp && now - a.timestamp >= a.ttl as u64 {
                    Completion::Discarded
                } else {
                    Completion::Applied
                };
                if self.actors[i].queue.len() == 0 {
                    self.actors.remove(i);
                    proof {
                        assert(self@.actors =~= v0.actors.remove(i as int));
                        assert forall|x: int, y: int|
                            0 <= x < y < self@.actors.len() implies #[trigger] self@.actors[x].key
                            != #[trigger] self@.actors[y].key by {
                            let x0 = if x < i { x } else { x + 1 };
                            let y0 = if y < i { y } else { y + 1 };
                            assert(v0.actors[x0].key != v0.actors[y0].key);
                        }
                    }
                } else {
                    self.actors[i].busy = false;
                    proof {
                        let a0 = v0.actors[i as int];
                        assert(self@.actors =~= v0.actors.update(
                            i as int,
                            ActorView { busy: false, ..a0 },
                        ));
                    }
                }
                c
            },
            None => Completion::Unknown,
        }
    }

    /// Retires the idle actors whose deadline has passed at `now`, then starts one run
    /// for each idle actor left: the run takes every queued arrival at once and the
    /// actor becomes busy.
    pub fn poll(&mut self, now: u64) -> (r: Poll)
        requires
            old(self).wf(),
        ensures
            final(self).wf(),
            final(self)@ == poll_state(old(self)@, now),
            execution_views(r.executions@) == poll_executions(old(self)@, now),
            key_views(r.expired@) == poll_retired(old(self)@, now),
    {
        let ghost v0 = self@;
        let ghost orig = v0.actors;
        let mut rest: Vec<Actor> = Vec::new();
        std::mem::swap(&mut self.actors, &mut rest);
        let ghost n = rest.len() as int;
        let mut executions: Vec<Execution> = Vec::new();
        let mut expired: Vec<ActorKey> = Vec::new();
        let ghost mut k: int = 0;
        proof {
            assert(orig.subrange(0, 0) =~= Seq::<ActorView>::empty());
            assert(actor_views(rest@) =~= orig.subrange(0, n));
            assert(self@.actors =~= Seq::<ActorView>::empty());
            assert(execution_views(executions@) =~= Seq::<ExecutionView>::empty());
            assert(key_views(expired@) =~= Seq::<(Seq<char>, Seq<char>)>::empty());
        }
        while rest.len() > 0
            invariant
                0 <= k <= n,
                n == orig.len(),
                rest.len() == n - k,
                actors_wf(orig),
                actor_views(rest@) == orig.subrange(k, n),
                self.admission_limit == v0.limit,
                self.metrics == v0.metrics,
                self@.actors == orig.subrange(0, k).filter(retained_at(now)).map_values(
                    dispatch_fn(),
                ),
                execution_views(executions@) == orig.subrange(0, k).filter(ready_at(now)).map_values(
                    execution_fn(),
                ),
                key_views(expired@) == orig.subrange(0, k).filter(retired_at(now)).map_values(
                    key_fn(),
                ),
                actors_wf(self@.actors),
                forall|j: int|
                    0 <= j < self@.actors.len() ==> exists|x: int|
                        0 <= x < k && orig[x].key == #[trigger] self@.actors[j].key,
            decreases rest.len(),
        {
            let ghost kept0 = self@.actors;
            let ghost rest0 = rest@;
            let mut a = rest.remove(0);
            proof {
                assert(actor_views(rest0)[0] == orig[k]);
                assert forall|j: int| 0 <= j < rest@.len() implies #[trigger] actor_views(
                    rest@,
                )[j] == orig[k + 1 + j] by {
                    assert(rest@[j] == rest0[j + 1]);
                    assert(actor_views(rest0)[j + 1] == orig.subrange(k, n)[j + 1]);
                }
                assert(actor_views(rest@) =~= orig.subrange(k + 1, n));
                lemma_filter_map_step(orig, k, retained_at(now), dispatch_fn());
                lemma_filter_map_step(orig, k, ready_at(now), execution_fn());
                lemma_filter_map_step(orig, k, retired_at(now), key_fn());
                assert forall|x: int| 0 <= x < k implies orig[x].key != orig[k].key by {}
            }
            if a.busy {
                self.actors.push(a);
                proof {
                    assert(self@.actors =~= kept0.push(orig[k].dispatched()));
                }
            } else if now >= a.timestamp && now - a.timestamp >= a.ttl as u64 {
                expired.push(a.key);
            } else {
                let mut queue: Vec<Particle> = Vec::new();
                std::mem::swap(&mut a.queue, &mut queue);
                let coalesced = queue.len();
                let ghost qv = queue@;
                match queue.pop() {
                    Some(particle) => {
                        a.busy = true;
                        let key = a.key.duplicate();
                        let e = Execution { key, particle, coalesced };
                        proof {
                            assert(a@.queue =~= Seq::<ParticleView>::empty());
                            assert(e@ == orig[k].execution());
                        }
                        executions.push(e);
                        self.actors.push(a);
                        proof {
                            assert(self@.actors =~= kept0.push(orig[k].dispatched()));
                        }
                    },
                    None => {
                        a.queue = queue;
                        self.actors.push(a);
                    },
                }
            }
            proof {
                k = k + 1;
            }
        }
        proof {
            assert(orig.subrange(0, n) =~= orig);
        }
        Poll { executions, expired }
    }

    /// Whether a run is in flight for `key`.
    pub fn is_busy(&self, key: &ActorKey) -> (r: bool)
        requires
            self.wf(),
        ensures
            r == (has_key(self@.actors, key@) && self@.actors[index_of(self@.actors, key@)].busy),
    {
        match self.find(&key.particle_id, &key.peer_id) {
            Some(i) => {
                proof {
                    lemma_index_of(self@.actors, i as int);
                }
                self.actors[i].busy
            },
            None => false,
        }
    }

    /// How many arrivals wait for the next run of `key`.
    pub fn pending(&self, key: &ActorKey) -> (r: usize)
        requires
            self.wf(),
        ensures
            r == if has_key(self@.actors, key@) {
                self@.actors[index_of(self@.actors, key@)].queue.len()
            } else {
                0
            },
    {
        match self.find(&key.particle_id, &key.peer_id) {
            Some(i) => {
                proof {
                    lemma_index_of(self@.actors, i as int);
                }
                self.actors[i].queue.len()
            },
            None => 0,
        }
    }
}

} // verus!

verus! {

/// At any moment at most one run is in flight for a key: two busy actors with the
/// same key are the same actor.
pub proof fn lemma_one_run_per_key(v: PlumberView, i: int, j: int)
    requires
        v.wf(),
        0 <= i < v.actors.len(),
        0 <= j < v.actors.len(),
        v.actors[i].busy,
        v.actors[j].busy,
        v.actors[i].key == v.actors[j].key,
    ensures
        i == j,
{
    if i < j {
        assert(v.actors[i].key != v.actors[j].key);
    } else if j < i {
        assert(v.actors[j].key != v.actors[i].key);
    }
}

/// A poll starts no run for a key whose run is still in flight.
pub proof fn lemma_poll_skips_busy(v: PlumberView, now: u64, i: int)
    requires
        v.wf(),
        0 <= i < v.actors.len(),
        v.actors[i].busy,
    ensures
        forall|j: int|
            0 <= j < poll_executions(v, now).len() ==> #[trigger] poll_executions(v, now)[j].key
                != v.actors[i].key,
{
    let f = v.actors.filter(ready_at(now));
    assert forall|j: int| 0 <= j < poll_executions(v, now).len() implies #[trigger] poll_executions(
        v,
        now,
    )[j].key != v.actors[i].key by {
        v.actors.lemma_filter_pred(ready_at(now), j);
        assert(f.contains(f[j]));
        v.actors.lemma_filter_contains_rev(ready_at(now), f[j]);
        let x = choose|x: int| 0 <= x < v.actors.len() && v.actors[x] == f[j];
        if f[j].key == v.actors[i].key {
            if x < i {
                assert(v.actors[x].key != v.actors[i].key);
            } else if i < x {
                assert(v.actors[i].key != v.actors[x].key);
            }
        }
    }
}

/// A particle that arrives after its deadline changes nothing but the count of
/// expired arrivals.
pub proof fn lemma_expired_arrival_is_noop(v: PlumberView, p: ParticleView, peer: Seq<char>, now: u64)
    requires
        p.expired_at(now),
    ensures
        ingest_spec(v, p, peer, now).1 == Err::<(), Rejected>(Rejected::Expired),
        ingest_spec(v, p, peer, now).0.actors == v.actors,
        ingest_spec(v, p, peer, now).0.limit == v.limit,
        ingest_spec(v, p, peer, now).0.metrics == (AdmissionMetrics {
            expired: bump(v.metrics.expired),
            ..v.metrics
        }),
{
}

/// The scheduler after `p` has arrived `m` times.
pub open spec fn ingest_times(v: PlumberView, p: ParticleView, peer: Seq<char>, now: u64, m: nat) -> PlumberView
    decreases m,
{
    if m == 0 {
        v
    } else {
        ingest_spec(ingest_times(v, p, peer, now, (m - 1) as nat), p, peer, now).0
    }
}

proof fn lemma_ingest_times(v: PlumberView, p: ParticleView, peer: Seq<char>, now: u64, m: nat, i: int)
    requires
        v.wf(),
        0 <= i < v.actors.len(),
        v.actors[i].key == (p.id, peer),
        !p.expired_at(now),
    ensures
        ingest_times(v, p, peer, now, m).wf(),
        ingest_times(v, p, peer, now, m).actors == v.actors.update(
            i,
            ActorView { queue: v.actors[i].queue + Seq::new(m, |x: int| p), ..v.actors[i] },
        ),
    decreases m,
{
    if m == 0 {
        assert(v.actors[i].queue + Seq::new(0, |x: int| p) =~= v.actors[i].queue);
        assert(v.actors.update(i, v.actors[i]) =~= v.actors);
    } else {
        lemma_ingest_times(v, p, peer, now, (m - 1) as nat, i);
        let w = ingest_times(v, p, peer, now, (m - 1) as nat);
        lemma_index_of(w.actors, i);
        let a = w.actors[i];
        assert(a.queue.push(p) =~= v.actors[i].queue + Seq::new(m, |x: int| p));
        assert(w.actors.update(i, ActorView { queue: a.queue.push(p), ..a }) =~= v.actors.update(
            i,
            ActorView { queue: v.actors[i].queue + Seq::new(m, |x: int| p), ..v.actors[i] },
        ));
    }
}

/// With unique keys, a filter keeps an actor that passes it exactly once among the
/// actors of its key.
proof fn lemma_filter_unique_key(s: Seq<ActorView>, pred: spec_fn(ActorView) -> bool, i: int)
    requires
        actors_wf(s),
        0 <= i < s.len(),
        pred(s[i]),
    ensures
        exists|j: int|
            0 <= j < s.filter(pred).len() && s.filter(pred)[j] == s[i] && forall|j2: int|
                0 <= j2 < s.filter(pred).len() && (#[trigger] s.filter(pred)[j2]).key == s[i].key
                    ==> j2 == j,
    decreases s.len(),
{
    let t = s.drop_last();
    let last = s.last();
    assert(s =~= t.push(last));
    t.lemma_filter_push(last, pred);
    assert(actors_wf(t)) by {
        assert forall|a: int, b: int| 0 <= a < b < t.len() implies #[trigger] t[a].key
            != #[trigger] t[b].key by {
            assert(s[a].key != s[b].key);
        }
    }
    let ft = t.filter(pred);
    if i == s.len() - 1 {
        let j = ft.len() as int;
        assert(s.filter(pred)[j] == s[i]);
        assert forall|j2: int|
            0 <= j2 < s.filter(pred).len() && (#[trigger] s.filter(pred)[j2]).key == s[i].key
                implies j2 == j by {
            if j2 < j {
                assert(ft.contains(ft[j2]));
                t.lemma_filter_contains_rev(pred, ft[j2]);
                let x = choose|x: int| 0 <= x < t.len() && t[x] == ft[j2];
                assert(s[x].key != s[i].key);
            }
        }
    } else {
        lemma_filter_unique_key(t, pred, i);
        let j = choose|j: int|
            0 <= j < ft.len() && ft[j] == t[i] && forall|j2: int|
                0 <= j2 < ft.len() && (#[trigger] ft[j2]).key == t[i].key ==> j2 == j;
        assert(s.filter(pred)[j] == s[i]);
        assert forall|j2: int|
            0 <= j2 < s.filter(pred).len() && (#[trigger] s.filter(pred)[j2]).key == s[i].key
                implies j2 == j by {
            if j2 == ft.len() {
                assert(s[i].key != s[s.len() - 1].key);
            } else {
                assert(ft[j2].key == t[i].key);
            }
        }
    }
}

/// Arrivals of a particle while its run is in flight fold into one run: after the
/// run completes, the next poll starts exactly one run for the key, carrying all
/// `m` arrivals.
pub proof fn lemma_coalescing(
    v: PlumberView,
    p: ParticleView,
    peer: Seq<char>,
    i: int,
    m: nat,
    now: u64,
    later: u64,
)
    requires
        v.wf(),
        0 <= i < v.actors.len(),
        v.actors[i].key == (p.id, peer),
        v.actors[i].busy,
        v.actors[i].queue.len() == 0,
        m >= 1,
        !p.expired_at(now),
        !v.actors[i].expired_at(later),
    ensures
        ({
            let w = complete_spec(ingest_times(v, p, peer, now, m), (p.id, peer), later).0;
            let runs = poll_executions(w, later);
            exists|j: int|
                0 <= j < runs.len() && runs[j].key == (p.id, peer) && runs[j].coalesced == m
                    && runs[j].particle == p && forall|j2: int|
                    0 <= j2 < runs.len() && (#[trigger] runs[j2]).key == (p.id, peer) ==> j2 == j
        }),
{
    let k = (p.id, peer);
    lemma_ingest_times(v, p, peer, now, m, i);
    let u = ingest_times(v, p, peer, now, m);
    lemma_index_of(u.actors, i);
    let a = u.actors[i];
    assert(a.queue =~= Seq::new(m, |x: int| p));
    let w = complete_spec(u, k, later).0;
    assert(w.actors == u.actors.update(i, ActorView { busy: false, ..a }));
    assert(actors_wf(w.actors)) by {
        assert forall|x: int, y: int| 0 <= x < y < w.actors.len() implies #[trigger] w.actors[x].key
            != #[trigger] w.actors[y].key by {
            assert(u.actors[x].key != u.actors[y].key);
        }
    }
    assert(ready_at(later)(w.actors[i]));
    lemma_filter_unique_key(w.actors, ready_at(later), i);
    let f = w.actors.filter(ready_at(later));
    let j = choose|j: int|
        0 <= j < f.len() && f[j] == w.actors[i] && forall|j2: int|
            0 <= j2 < f.len() && (#[trigger] f[j2]).key == w.actors[i].key ==> j2 == j;
    let runs = poll_executions(w, later);
    assert(runs[j] == w.actors[i].execution());
    assert forall|j2: int| 0 <= j2 < runs.len() && (#[trigger] runs[j2]).key == k implies j2 == j by {
        assert(f[j2].key == k);
    }
}

} // verus!
