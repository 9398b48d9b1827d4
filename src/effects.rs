use vstd::prelude::*;

use crate::particle::{Particle, ParticleView};

verus! {

/// A host-service call that the interpreter asks for.
pub struct CallRequest {
    pub call_id: u32,
    pub service_id: String,
    pub function_name: String,
    /// The call's arguments, as JSON text.
    pub arguments: String,
}

/// Where the updated particle goes after one run.
pub enum Outbound {
    /// Back into the local scheduler.
    Loopback(Particle),
    /// To a remote peer through the connection pool.
    Send { peer_id: String, particle: Particle },
}

pub enum OutboundView {
    Loopback(ParticleView),
    Send(Seq<char>, ParticleView),
}

impl View for Outbound {
    type V = OutboundView;

    open spec fn view(&self) -> OutboundView {
        match self {
            Outbound::Loopback(p) => OutboundView::Loopback(p@),
            Outbound::Send { peer_id, particle } => OutboundView::Send(peer_id@, particle@),
        }
    }
}

pub open spec fn string_views(s: Seq<String>) -> Seq<Seq<char>> {
    s.map_values(|x: String| x@)
}

pub open spec fn outbound_views(s: Seq<Outbound>) -> Seq<OutboundView> {
    s.map_values(|o: Outbound| o@)
}

pub open spec fn particle_views(s: Seq<Particle>) -> Seq<ParticleView> {
    s.map_values(|p: Particle| p@)
}

pub open spec fn is_loopback() -> spec_fn(OutboundView) -> bool {
    |o: OutboundView| o is Loopback
}

pub open spec fn is_send() -> spec_fn(OutboundView) -> bool {
    |o: OutboundView| o is Send
}

pub open spec fn looped_particle() -> spec_fn(OutboundView) -> ParticleView {
    |o: OutboundView| o->Loopback_0
}

/// One send per next peer, in the interpreter's order; the local peer gets the
/// particle through the loopback.
pub open spec fn route_spec(peers: Seq<Seq<char>>, local: Seq<char>, p: ParticleView) -> Seq<
    OutboundView,
> {
    Seq::new(
        peers.len(),
        |i: int|
            if peers[i] == local {
                OutboundView::Loopback(p)
            } else {
                OutboundView::Send(peers[i], p)
            },
    )
}

/// Turns the next peers of one run into sends of the updated `particle`.
pub fn route(particle: &Particle, next_peers: &Vec<String>, local_peer: &String) -> (r: Vec<
    Outbound,
>)
    ensures
        outbound_views(r@) == route_spec(string_views(next_peers@), local_peer@, particle@),
{
    let mut out: Vec<Outbound> = Vec::new();
    let mut i: usize = 0;
    while i < next_peers.len()
        invariant
            i <= next_peers.len(),
            outbound_views(out@) == route_spec(
                string_views(next_peers@),
                local_peer@,
                particle@,
            ).subrange(0, i as int),
        decreases next_peers.len() - i,
    {
        let p = particle.duplicate();
        let ghost before = out@;
        if next_peers[i] == *local_peer {
            out.push(Outbound::Loopback(p));
        } else {
            out.push(Outbound::Send { peer_id: next_peers[i].clone(), particle: p });
        }
        proof {
            assert(outbound_views(out@) =~= outbound_views(before).push(out@.last()@));
        }
        i += 1;
        assert(outbound_views(out@) =~= route_spec(
            string_views(next_peers@),
            local_peer@,
            particle@,
        ).subrange(0, i as int));
    }
    assert(route_spec(string_views(next_peers@), local_peer@, particle@).subrange(
        0,
        next_peers.len() as int,
    ) =~= route_spec(string_views(next_peers@), local_peer@, particle@));
    out
}

/// Splits the sends of one run into the particles for the local scheduler and the
/// sends to remote peers, each in its original order.
pub fn split_loopback(out: Vec<Outbound>) -> (r: (Vec<Particle>, Vec<Outbound>))
    ensures
        particle_views(r.0@) == outbound_views(out@).filter(is_loopback()).map_values(
            looped_particle(),
        ),
        outbound_views(r.1@) == outbound_views(out@).filter(is_send()),
{
    let ghost all = outbound_views(out@);
    let mut local: Vec<Particle> = Vec::new();
    let mut remote: Vec<Outbound> = Vec::new();
    let mut rest = out;
    let ghost n = rest.len() as int;
    let ghost mut k: int = 0;
    assert(all.subrange(0, 0) =~= Seq::<OutboundView>::empty());
    assert(outbound_views(rest@) =~= all.subrange(0, n));
    assert(particle_views(local@) =~= Seq::<ParticleView>::empty());
    assert(outbound_views(remote@) =~= Seq::<OutboundView>::empty());
    while rest.len() > 0
        invariant
            0 <= k <= n,
            n == all.len(),
            rest.len() == n - k,
            outbound_views(rest@) == all.subrange(k, n),
            particle_views(local@) == all.subrange(0, k).filter(is_loopback()).map_values(
                looped_particle(),
            ),
            outbound_views(remote@) == all.subrange(0, k).filter(is_send()),
        decreases rest.len(),
    {
        let ghost rest0 = rest@;
        let ghost local0 = local@;
        let ghost remote0 = remote@;
        let o = rest.remove(0);
        proof {
            assert(outbound_views(rest0)[0] == all[k]);
            assert forall|j: int| 0 <= j < rest@.len() implies #[trigger] outbound_views(rest@)[j]
                == all[k + 1 + j] by {
                assert(rest@[j] == rest0[j + 1]);
                assert(outbound_views(rest0)[j + 1] == all.subrange(k, n)[j + 1]);
            }
            assert(outbound_views(rest@) =~= all.subrange(k + 1, n));
            assert(all.subrange(0, k + 1) =~= all.subrange(0, k).push(all[k]));
            all.subrange(0, k).lemma_filter_push(all[k], is_loopback());
            all.subrange(0, k).lemma_filter_push(all[k], is_send());
        }
        let ghost ov = o@;
        assert(ov == all[k]);
        match o {
            Outbound::Loopback(p) => {
                assert(ov == OutboundView::Loopback(p@));
                assert(looped_particle()(ov) == p@);
                local.push(p);
                proof {
                    assert(particle_views(local@) =~= particle_views(local0).push(
                        looped_particle()(all[k]),
                    ));
                    assert(all.subrange(0, k).filter(is_loopback()).push(all[k]).map_values(looped_particle())
                        =~= all.subrange(0, k).filter(is_loopback()).map_values(looped_particle()).push(
                        looped_particle()(all[k]),
                    ));
                }
            },
            Outbound::Send { peer_id, particle } => {
                remote.push(Outbound::Send { peer_id, particle });
                proof {
                    assert(outbound_views(remote@) =~= outbound_views(remote0).push(all[k]));
                }
            },
        }
        proof {
            k = k + 1;
        }
    }
    assert(all.subrange(0, n) =~= all);
    (local, remote)
}

} // verus!
