use vstd::prelude::*;

use crate::data_store::{DataKey, ParticleDataStore};
use crate::effects::{
    is_loopback, is_send, looped_particle, outbound_views, particle_views, route, route_spec,
    split_loopback, string_views, CallRequest, Outbound, OutboundView,
};
use crate::particle::{ActorKey, Particle, ParticleView};
use crate::plumber::{
    complete_spec, execution_views, ingest_spec, key_views, lemma_filter_map_step,
    poll_executions, poll_retired, poll_state, Completion, Execution, ExecutionView, Plumber,
    AdmissionMetrics, PlumberView, Rejected,
};
use crate::registry::{
    has_reg, resolve_all, FunctionRegistry, Registration, RegistrationView, ResolvedCall,
};
use crate::stats::InterpretationStats;
use crate::vm_pool::{has_state, RunOutcome, SlotState, VmPool};

verus! {

/// A run ready to go to an interpreter worker.
pub struct Launch {
    pub execution: Execution,
    pub slot: usize,
    /// The slot has no instance yet: the worker builds one first.
    pub create: bool,
    pub prev_data: Vec<u8>,
}

/// What one tick hands out.
pub struct Tick {
    pub launches: Vec<Launch>,
    /// Actors retired on their deadline, and runs dropped before they started.
    pub expired: Vec<ActorKey>,
}

/// What the interpreter worker reports of one run.
pub enum Interpretation {
    Returned {
        ret_code: i32,
        new_data: Vec<u8>,
        next_peers: Vec<String>,
        call_requests: Vec<CallRequest>,
    },
    /// The run did not return: it timed out or its instance failed.
    Aborted(RunOutcome),
}

/// What finishing a run gives back.
pub struct Finished {
    /// The sends to remote peers; particles for the local peer were re-admitted.
    pub sends: Vec<Outbound>,
    pub completion: Completion,
    /// The slot's instance must be replaced before `restore_slot`.
    pub quarantined: bool,
    pub stats: InterpretationStats,
    /// The host calls the run asked for, resolved, in the interpreter's order.
    pub calls: Vec<ResolvedCall>,
}

pub struct DispatcherView {
    pub local_peer: Seq<char>,
    /// Runs handed out by the scheduler that wait for a free slot, oldest first.
    pub waiting: Seq<ExecutionView>,
    pub plumber: PlumberView,
    pub pool: Seq<SlotState>,
    pub store: Map<DataKey, Seq<u8>>,
    pub registry: Seq<RegistrationView>,
}

/// The prev-data that a run of `k` starts from.
pub open spec fn prev_data_of(m: Map<DataKey, Seq<u8>>, k: DataKey) -> Seq<u8> {
    if m.contains_key(k) {
        m[k]
    } else {
        Seq::empty()
    }
}

/// The scheduler after admitting each of `ps` in turn.
pub open spec fn ingest_all(v: PlumberView, ps: Seq<ParticleView>, peer: Seq<char>, now: u64) -> PlumberView
    decreases ps.len(),
{
    if ps.len() == 0 {
        v
    } else {
        ingest_spec(ingest_all(v, ps.drop_last(), peer, now), ps.last(), peer, now).0
    }
}

pub open spec fn live_run_at(now: u64) -> spec_fn(ExecutionView) -> bool {
    |e: ExecutionView| !e.particle.expired_at(now)
}

pub open spec fn expired_run_at(now: u64) -> spec_fn(ExecutionView) -> bool {
    |e: ExecutionView| e.particle.expired_at(now)
}

pub open spec fn run_key_fn() -> spec_fn(ExecutionView) -> DataKey {
    |e: ExecutionView| e.key
}

pub open spec fn launch_views(s: Seq<Launch>) -> Seq<ExecutionView> {
    s.map_values(|l: Launch| l.execution@)
}

/// The store once the blobs of each of `ks` are removed.
pub open spec fn remove_all(m: Map<DataKey, Seq<u8>>, ks: Seq<DataKey>) -> Map<DataKey, Seq<u8>>
    decreases ks.len(),
{
    if ks.len() == 0 {
        m
    } else {
        remove_all(m, ks.drop_last()).remove(ks.last())
    }
}

/// The scheduler once the run of each of `ks` is completed in turn.
pub open spec fn complete_all(v: PlumberView, ks: Seq<DataKey>, now: u64) -> PlumberView
    decreases ks.len(),
{
    if ks.len() == 0 {
        v
    } else {
        complete_spec(complete_all(v, ks.drop_last(), now), ks.last(), now).0
    }
}

/// How the slot's run ended.
pub open spec fn outcome_of(i: Interpretation) -> RunOutcome {
    match i {
        Interpretation::Returned { .. } => RunOutcome::Returned,
        Interpretation::Aborted(o) => o,
    }
}

/// The single owner of the node's scheduling state: the scheduler, the interpreter
/// pool and the prev-data store.
pub struct Dispatcher {
    local_peer: String,
    plumber: Plumber,
    pool: VmPool,
    store: ParticleDataStore,
    registry: FunctionRegistry,
    waiting: Vec<Execution>,
}

impl View for Dispatcher {
    type V = DispatcherView;

    closed spec fn view(&self) -> DispatcherView {
        DispatcherView {
            local_peer: self.local_peer@,
            waiting: execution_views(self.waiting@),
            plumber: self.plumber@,
            pool: self.pool@,
            store: self.store@,
            registry: self.registry@,
        }
    }
}

impl Dispatcher {
    pub closed spec fn wf(&self) -> bool {
        &&& self.plumber.wf()
        &&& self.store.wf()
        &&& self.registry.wf()
    }

    /// A node for `local_peer` with `pool_size` interpreter slots, admitting up to
    /// `admission_limit` live actors.
    pub fn new(local_peer: String, pool_size: usize, admission_limit: usize) -> (r: Dispatcher)
        ensures
            r.wf(),
            r@.local_peer == local_peer@,
            r@.plumber.actors.len() == 0,
            r@.plumber.limit == admission_limit,
            r@.pool == Seq::new(pool_size as nat, |i: int| SlotState::Vacant),
            r@.store == Map::<DataKey, Seq<u8>>::empty(),
            r@.waiting.len() == 0,
            r@.registry.len() == 0,
    {
        let r = Dispatcher {
            local_peer,
            plumber: Plumber::new(admission_limit),
            pool: VmPool::new(pool_size),
            store: ParticleDataStore::new(),
            registry: FunctionRegistry::new(),
            waiting: Vec::new(),
        };
        assert(r@.waiting =~= Seq::<ExecutionView>::empty());
        r
    }

    /// Admits a particle that arrived from the network.
    pub fn on_particle(&mut self, particle: Particle, now: u64) -> (r: Result<(), Rejected>)
        requires
            old(self).wf(),
        ensures
            final(self).wf(),
            (final(self)@.plumber, r) == ingest_spec(
                old(self)@.plumber,
                particle@,
                old(self)@.local_peer,
                now,
            ),
            final(self)@.local_peer == old(self)@.local_peer,
            final(self)@.pool == old(self)@.pool,
            final(self)@.store == old(self)@.store,
            final(self)@.waiting == old(self)@.waiting,
            final(self)@.registry == old(self)@.registry,
    {
        self.plumber.ingest(particle, &self.local_peer, now)
    }

    /// Polls the scheduler at `now` and queues the runs it starts behind those that
    /// already wait. Runs whose particle has expired are dropped, their actors
    /// completed; the prev-data of every expired key is removed. The remaining runs go,
    /// first come first served, to free interpreter slots; those beyond the free
    /// slots wait for the next tick.
    pub fn tick(&mut self, now: u64) -> (r: Tick)
        requires
            old(self).wf(),
        ensures
            final(self).wf(),
            final(self)@.local_peer == old(self)@.local_peer,
            final(self)@.registry == old(self)@.registry,
            final(self)@.pool.len() == old(self)@.pool.len(),
            ({
                let queue = old(self)@.waiting + poll_executions(old(self)@.plumber, now);
                let live = queue.filter(live_run_at(now));
                let dropped = queue.filter(expired_run_at(now)).map_values(run_key_fn());
                &&& key_views(r.expired@) == poll_retired(old(self)@.plumber, now) + dropped
                &&& final(self)@.plumber == complete_all(
                    poll_state(old(self)@.plumber, now),
                    dropped,
                    now,
                )
                &&& final(self)@.store == remove_all(old(self)@.store, key_views(r.expired@))
                &&& exists|c: int|
                    0 <= c <= live.len() && launch_views(r.launches@) == live.subrange(0, c)
                        && final(self)@.waiting == live.subrange(c, live.len() as int)
            }),
            final(self)@.waiting.len() > 0 ==> !has_state(final(self)@.pool, SlotState::Idle)
                && !has_state(final(self)@.pool, SlotState::Vacant),
            forall|i: int|
                0 <= i < r.launches@.len() ==> {
                    let l = #[trigger] r.launches@[i];
                    &&& !l.execution.particle@.expired_at(now)
                    &&& l.slot < final(self)@.pool.len()
                    &&& final(self)@.pool[l.slot as int] == SlotState::Busy
                    &&& l.prev_data@ == prev_data_of(final(self)@.store, l.execution.key@)
                },
            forall|i: int, j: int|
                0 <= i < j < r.launches@.len() ==> #[trigger] r.launches@[i].slot
                    != #[trigger] r.launches@[j].slot,
    {
        let ghost v0 = self@;
        let polled = self.plumber.poll(now);
        let mut polled_runs = polled.executions;
        let mut expired = polled.expired;
        let ghost after_poll = self@.plumber;
        let ghost retired = key_views(expired@);
        let mut rest: Vec<Execution> = Vec::new();
        std::mem::swap(&mut self.waiting, &mut rest);
        rest.append(&mut polled_runs);
        let ghost queue = execution_views(rest@);
        let ghost n = queue.len() as int;
        proof {
            assert(queue =~= v0.waiting + poll_executions(v0.plumber, now));
            assert(queue.subrange(0, 0) =~= Seq::<ExecutionView>::empty());
            assert(execution_views(rest@) =~= queue.subrange(0, n));
            assert(key_views(expired@) =~= retired + queue.subrange(0, 0).filter(
                expired_run_at(now),
            ).map_values(run_key_fn()));
        }
        let mut live: Vec<Execution> = Vec::new();
        let ghost mut k: int = 0;
        proof {
            assert(execution_views(live@) =~= queue.subrange(0, 0).filter(live_run_at(now)));
        }
        while rest.len() > 0
            invariant
                self.wf(),
                self.local_peer@ == v0.local_peer,
                self.registry@ == v0.registry,
                self.pool@ == v0.pool,
                self.store@ == v0.store,
                0 <= k <= n,
                n == queue.len(),
                rest.len() == n - k,
                execution_views(rest@) == queue.subrange(k, n),
                execution_views(live@) == queue.subrange(0, k).filter(live_run_at(now)),
                forall|j: int| 0 <= j < live@.len() ==> !(#[trigger] live@[j]).particle@.expired_at(now),
                key_views(expired@) == retired + queue.subrange(0, k).filter(
                    expired_run_at(now),
                ).map_values(run_key_fn()),
                self@.plumber == complete_all(
                    after_poll,
                    queue.subrange(0, k).filter(expired_run_at(now)).map_values(run_key_fn()),
                    now,
                ),
            decreases rest.len(),
        {
            let ghost rest0 = rest@;
            let ghost live0 = execution_views(live@);
            let ghost exp0 = key_views(expired@);
            let ghost done0 = queue.subrange(0, k).filter(expired_run_at(now)).map_values(
                run_key_fn(),
            );
            let e = rest.remove(0);
            proof {
                assert(execution_views(rest0)[0] == queue[k]);
                assert forall|j: int| 0 <= j < rest@.len() implies #[trigger] execution_views(
                    rest@,
                )[j] == queue[k + 1 + j] by {
                    assert(rest@[j] == rest0[j + 1]);
                    assert(execution_views(rest0)[j + 1] == queue.subrange(k, n)[j + 1]);
                }
                assert(execution_views(rest@) =~= queue.subrange(k + 1, n));
                assert(queue.subrange(0, k + 1) =~= queue.subrange(0, k).push(queue[k]));
                queue.subrange(0, k).lemma_filter_push(queue[k], live_run_at(now));
                lemma_filter_map_step(queue, k, expired_run_at(now), run_key_fn());
            }
            if e.particle.is_expired(now) {
                self.plumber.complete(&e.key, now);
                let ghost done1 = done0.push(e.key@);
                proof {
                    assert(done1.drop_last() =~= done0);
                }
                expired.push(e.key);
                proof {
                    assert(key_views(expired@) =~= exp0.push(queue[k].key));
                }
            } else {
                live.push(e);
                proof {
                    assert(execution_views(live@) =~= live0.push(queue[k]));
                }
            }
            proof {
                k = k + 1;
            }
        }
        proof {
            assert(queue.subrange(0, n) =~= queue);
        }
        let ghost all_expired = key_views(expired@);
        let mut i: usize = 0;
        while i < expired.len()
            invariant
                self.wf(),
                self.local_peer@ == v0.local_peer,
                self.registry@ == v0.registry,
                self.pool@ == v0.pool,
                self@.plumber == complete_all(after_poll, queue.filter(expired_run_at(now)).map_values(run_key_fn()), now),
                key_views(expired@) == all_expired,
                i <= expired.len(),
                self.store@ == remove_all(v0.store, all_expired.subrange(0, i as int)),
            decreases expired.len() - i,
        {
            proof {
                assert(all_expired.subrange(0, i as int + 1).drop_last() =~= all_expired.subrange(0, i as int));
            }
            self.store.remove_prev(&expired[i]);
            i += 1;
        }
        proof {
            assert(all_expired.subrange(0, expired.len() as int) =~= all_expired);
        }
        let ghost lv = execution_views(live@);
        let ghost m = lv.len() as int;
        let ghost mut c: int = 0;
        let mut launches: Vec<Launch> = Vec::new();
        proof {
            assert(lv.subrange(0, 0) =~= Seq::<ExecutionView>::empty());
            assert(launch_views(launches@) =~= Seq::<ExecutionView>::empty());
            assert(execution_views(live@) =~= lv.subrange(0, m));
        }
        let mut stalled = false;
        while live.len() > 0 && !stalled
            invariant
                self.wf(),
                self.local_peer@ == v0.local_peer,
                self.registry@ == v0.registry,
                self.pool@.len() == v0.pool.len(),
                self@.plumber == complete_all(after_poll, queue.filter(expired_run_at(now)).map_values(run_key_fn()), now),
                self.store@ == remove_all(v0.store, all_expired),
                0 <= c <= m,
                m == lv.len(),
                live.len() == m - c,
                forall|j: int| 0 <= j < live@.len() ==> !(#[trigger] live@[j]).particle@.expired_at(now),
                execution_views(live@) == lv.subrange(c, m),
                launch_views(launches@) == lv.subrange(0, c),
                stalled ==> !has_state(self.pool@, SlotState::Idle) && !has_state(
                    self.pool@,
                    SlotState::Vacant,
                ),
                forall|i: int|
                    0 <= i < launches@.len() ==> {
                        let l = #[trigger] launches@[i];
                        &&& !l.execution.particle@.expired_at(now)
                        &&& l.slot < self.pool@.len()
                        &&& self.pool@[l.slot as int] == SlotState::Busy
                        &&& l.prev_data@ == prev_data_of(self.store@, l.execution.key@)
                    },
                forall|i: int, j: int|
                    0 <= i < j < launches@.len() ==> #[trigger] launches@[i].slot
                        != #[trigger] launches@[j].slot,
            decreases live.len(), if stalled { 0int } else { 1int },
        {
            match self.pool.checkout() {
                Some(co) => {
                    let ghost live0 = live@;
                    let ghost l0 = launch_views(launches@);
                    let execution = live.remove(0);
                    let prev_data = match self.store.get(&execution.key) {
                        Some(d) => d,
                        None => Vec::new(),
                    };
                    let l = Launch { execution, slot: co.slot, create: co.create, prev_data };
                    proof {
                        assert forall|i: int| 0 <= i < launches@.len() implies #[trigger] launches@[i].slot != co.slot by {}
                        assert(execution_views(live0)[0] == lv[c]);
                        assert forall|j: int| 0 <= j < live@.len() implies #[trigger] execution_views(
                            live@,
                        )[j] == lv[c + 1 + j] by {
                            assert(live@[j] == live0[j + 1]);
                            assert(execution_views(live0)[j + 1] == lv.subrange(c, m)[j + 1]);
                        }
                        assert(execution_views(live@) =~= lv.subrange(c + 1, m));
                    }
                    launches.push(l);
                    proof {
                        assert(launch_views(launches@) =~= l0.push(lv[c]));
                        assert(lv.subrange(0, c + 1) =~= lv.subrange(0, c).push(lv[c]));
                        c = c + 1;
                    }
                },
                None => {
                    stalled = true;
                },
            }
        }
        self.waiting = live;
        proof {
            assert(self@.waiting == lv.subrange(c, m));
        }
        Tick { launches, expired }
    }

    /// Takes back the slot of a finished run and settles the run: when its result
    /// stands, the new prev-data is stored, the updated particle is routed to the
    /// next peers, and the particles for the local peer are admitted again at once.
    pub fn on_finished(
        &mut self,
        execution: Execution,
        slot: usize,
        result: Interpretation,
        took_ms: u64,
        memory: u64,
        now: u64,
    ) -> (r: Finished)
        requires
            old(self).wf(),
        ensures
            final(self).wf(),
            final(self)@.local_peer == old(self)@.local_peer,
            final(self)@.waiting == old(self)@.waiting,
            final(self)@.registry == old(self)@.registry,
            ({
                let lent = slot < old(self)@.pool.len() && old(self)@.pool[slot as int]
                    == SlotState::Busy;
                &&& r.quarantined == (lent && outcome_of(result).spec_quarantines())
                &&& final(self)@.pool == if lent {
                    old(self)@.pool.update(
                        slot as int,
                        if r.quarantined {
                            SlotState::Quarantined
                        } else {
                            SlotState::Idle
                        },
                    )
                } else {
                    old(self)@.pool
                }
            }),
            ({
                let (completed, c) = complete_spec(old(self)@.plumber, execution.key@, now);
                &&& r.completion == c
                &&& r.stats.took_ms == took_ms
                &&& r.stats.memory == memory
                &&& match result {
                    Interpretation::Returned { ret_code, new_data, next_peers, call_requests } => {
                        &&& r.stats.ret_code == ret_code
                        &&& if c == Completion::Applied {
                            let outs = route_spec(
                                string_views(next_peers@),
                                old(self)@.local_peer,
                                ParticleView { data: new_data@, ..execution.particle@ },
                            );
                            &&& r.stats.success == (ret_code == 0)
                            &&& r.calls@ == resolve_all(old(self)@.registry, call_requests@)
                            &&& final(self)@.store == old(self)@.store.insert(
                                execution.key@,
                                new_data@,
                            )
                            &&& outbound_views(r.sends@) == outs.filter(is_send())
                            &&& final(self)@.plumber == ingest_all(
                                completed,
                                outs.filter(is_loopback()).map_values(looped_particle()),
                                old(self)@.local_peer,
                                now,
                            )
                        } else {
                            &&& !r.stats.success
                            &&& final(self)@.store == old(self)@.store
                            &&& r.sends@.len() == 0
                            &&& r.calls@.len() == 0
                            &&& final(self)@.plumber == completed
                        }
                    },
                    Interpretation::Aborted(_) => {
                        &&& r.stats.ret_code == -1
                        &&& !r.stats.success
                        &&& final(self)@.store == old(self)@.store
                        &&& r.sends@.len() == 0
                        &&& r.calls@.len() == 0
                        &&& final(self)@.plumber == completed
                    },
                }
            }),
    {
        let outcome = match &result {
            Interpretation::Returned { .. } => RunOutcome::Returned,
            Interpretation::Aborted(o) => *o,
        };
        let quarantined = if slot < self.pool.size() && self.pool.state(slot) == SlotState::Busy {
            self.pool.release(slot, outcome)
        } else {
            false
        };
        let completion = self.plumber.complete(&execution.key, now);
        let ghost completed = self@.plumber;
        let ghost pool1 = self.pool@;
        match result {
            Interpretation::Returned { ret_code, new_data, next_peers, call_requests } => {
                if completion == Completion::Applied {
                    let calls = self.registry.resolve_calls(&call_requests);
                    let stored = new_data.clone();
                    proof {
                        assert(stored@ =~= new_data@);
                    }
                    self.store.put(execution.key.duplicate(), stored);
                    let updated = execution.particle.with_data(new_data);
                    let outs = route(&updated, &next_peers, &self.local_peer);
                    let (local, remote) = split_loopback(outs);
                    let ghost lv = particle_views(local@);
                    let ghost n = lv.len() as int;
                    let mut rest = local;
                    let ghost mut k: int = 0;
                    proof {
                        assert(lv.subrange(0, 0) =~= Seq::<ParticleView>::empty());
                        assert(particle_views(rest@) =~= lv.subrange(0, n));
                    }
                    while rest.len() > 0
                        invariant
                            self.wf(),
                            self.local_peer@ == old(self)@.local_peer,
                            self.registry@ == old(self)@.registry,
                            self.waiting@ == old(self).waiting@,
                            self.pool@ == pool1,
                            0 <= k <= n,
                            n == lv.len(),
                            rest.len() == n - k,
                            particle_views(rest@) == lv.subrange(k, n),
                            self@.plumber == ingest_all(completed, lv.subrange(0, k), self.local_peer@, now),
                            self@.store == old(self)@.store.insert(execution.key@, new_data@),
                        decreases rest.len(),
                    {
                        let ghost rest0 = rest@;
                        let p = rest.remove(0);
                        proof {
                            assert(particle_views(rest0)[0] == lv[k]);
                            assert forall|j: int| 0 <= j < rest@.len() implies #[trigger] particle_views(
                                rest@,
                            )[j] == lv[k + 1 + j] by {
                                assert(rest@[j] == rest0[j + 1]);
                                assert(particle_views(rest0)[j + 1] == lv.subrange(k, n)[j + 1]);
                            }
                            assert(particle_views(rest@) =~= lv.subrange(k + 1, n));
                            assert(lv.subrange(0, k + 1).drop_last() =~= lv.subrange(0, k));
                        }
                        let _ = self.plumber.ingest(p, &self.local_peer, now);
                        proof {
                            k = k + 1;
                        }
                    }
                    proof {
                        assert(lv.subrange(0, n) =~= lv);
                    }
                    let stats = InterpretationStats { success: ret_code == 0, took_ms, memory, ret_code };
                    Finished { sends: remote, completion, quarantined, stats, calls }
                } else {
                    let stats = InterpretationStats { success: false, took_ms, memory, ret_code };
                    Finished { sends: Vec::new(), completion, quarantined, stats, calls: Vec::new() }
                }
            },
            Interpretation::Aborted(_) => {
                let stats = InterpretationStats { success: false, took_ms, memory, ret_code: -1 };
                Finished { sends: Vec::new(), completion, quarantined, stats, calls: Vec::new() }
            },
        }
    }

    /// Makes a host function callable; `false`, and nothing changes, when its
    /// (service id, function name) is taken.
    pub fn register_function(&mut self, registration: Registration) -> (r: bool)
        requires
            old(self).wf(),
        ensures
            final(self).wf(),
            ({
                let (added, regs) = (
                    !has_reg(old(self)@.registry, registration@.service_id, registration@.function_name),
                    old(self)@.registry.push(registration@),
                );
                &&& r == added
                &&& final(self)@ == (DispatcherView {
                    registry: if added { regs } else { old(self)@.registry },
                    ..old(self)@
                })
            }),
    {
        self.registry.register(registration)
    }

    /// Forgets the prev-data of `key` after persisting it failed: the next run of the
    /// key starts from an empty blob.
    pub fn discard_prev_data(&mut self, key: &ActorKey)
        requires
            old(self).wf(),
        ensures
            final(self).wf(),
            final(self)@ == (DispatcherView { store: old(self)@.store.remove(key@), ..old(self)@ }),
    {
        self.store.remove_prev(key);
    }

    /// The prev-data stored for `key`.
    pub fn prev_data(&self, key: &ActorKey) -> (r: Option<Vec<u8>>)
        requires
            self.wf(),
        ensures
            match r {
                Some(d) => self@.store.contains_key(key@) && d@ == self@.store[key@],
                None => !self@.store.contains_key(key@),
            },
    {
        self.store.get(key)
    }

    /// The number of stored prev-data blobs.
    pub fn stored_count(&self) -> (r: usize)
        requires
            self.wf(),
        ensures
            r == self@.store.len(),
    {
        self.store.len()
    }

    /// The number of runs that wait for a free slot.
    pub fn waiting_count(&self) -> (r: usize)
        ensures
            r == self@.waiting.len(),
    {
        self.waiting.len()
    }

    pub fn metrics(&self) -> (r: AdmissionMetrics)
        ensures
            r == self@.plumber.metrics,
    {
        self.plumber.metrics()
    }

    /// Puts a quarantined slot back in service once its fresh instance is built.
    pub fn restore_slot(&mut self, slot: usize)
        requires
            old(self).wf(),
        ensures
            final(self).wf(),
            final(self)@ == (DispatcherView {
                pool: if slot < old(self)@.pool.len() && old(self)@.pool[slot as int]
                    == SlotState::Quarantined {
                    old(self)@.pool.update(slot as int, SlotState::Idle)
                } else {
                    old(self)@.pool
                },
                ..old(self)@
            }),
    {
        if slot < self.pool.size() && self.pool.state(slot) == SlotState::Quarantined {
            self.pool.restore(slot);
        }
    }
}

} // verus!

verus! {

/// A run reads the blob that the last successful run of its key stored: writes
/// under other keys do not disturb it.
pub proof fn lemma_next_run_reads_committed(
    store: Map<DataKey, Seq<u8>>,
    k: DataKey,
    new_data: Seq<u8>,
    other: DataKey,
    other_data: Seq<u8>,
)
    requires
        other != k,
    ensures
        prev_data_of(store.insert(k, new_data), k) == new_data,
        prev_data_of(store.insert(k, new_data).insert(other, other_data), k) == new_data,
        prev_data_of(store.insert(k, new_data).remove(other), k) == new_data,
{
}

/// When the local peer is among a run's next peers, the updated particle is among
/// those admitted again into the local scheduler, and no send goes out to the local
/// peer.
pub proof fn lemma_loopback_delivered(peers: Seq<Seq<char>>, local: Seq<char>, p: ParticleView)
    requires
        peers.contains(local),
    ensures
        route_spec(peers, local, p).filter(is_loopback()).map_values(looped_particle()).contains(p),
        forall|j: int|
            0 <= j < route_spec(peers, local, p).filter(is_send()).len() ==> (#[trigger] route_spec(
                peers,
                local,
                p,
            ).filter(is_send())[j])->Send_0 != local,
{
    let outs = route_spec(peers, local, p);
    let i = choose|i: int| 0 <= i < peers.len() && peers[i] == local;
    assert(outs[i] == OutboundView::Loopback(p));
    outs.lemma_filter_contains(is_loopback(), i);
    let f = outs.filter(is_loopback());
    let j = choose|j: int| 0 <= j < f.len() && f[j] == OutboundView::Loopback(p);
    assert(f.map_values(looped_particle())[j] == p);
    let g = outs.filter(is_send());
    assert forall|j: int| 0 <= j < g.len() implies (#[trigger] g[j])->Send_0 != local by {
        outs.lemma_filter_pred(is_send(), j);
        assert(g.contains(g[j]));
        outs.lemma_filter_contains_rev(is_send(), g[j]);
    }
}

} // verus!
