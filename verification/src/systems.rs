//! The five systems that advance the simulation each tick, in their fixed
//! dependency order: spawning, enemy behavior and player control first (no
//! dependency among them), then movement, then collision.

use vstd::prelude::*;

use crate::components::game_area;
use crate::components::game_area_spec;
use crate::components::overlaps_spec;
use crate::components::Baddy;
use crate::components::Position;
use crate::components::Rect;
use crate::components::Rendered;
use crate::components::Velocity;
use crate::components::GAME_HEIGHT;
use crate::components::GAME_WIDTH;
use crate::components::PLAYER_SIZE;
use crate::invariants::age_of;
use crate::invariants::batch_ok;
use crate::invariants::noob_proj_shape;
use crate::invariants::popup_shape;
use crate::invariants::oscs_fresh;
use crate::invariants::ages_fresh;
use crate::invariants::waver_shape;
use crate::invariants::player_proj_shape;
use crate::invariants::noob_batch_shape;
use crate::invariants::queue_deletes_live;
use crate::invariants::waver_batch_shape;
use crate::invariants::comp_ok;
use crate::invariants::delete_queued;
use crate::invariants::moved;
use crate::invariants::op_ok;
use crate::invariants::player_ok;
use crate::invariants::remove_osc_queued;
use crate::invariants::osc_ok;
use crate::invariants::queue_ok;
use crate::invariants::rect_mid;
use crate::invariants::rect_settled;
use crate::invariants::settled;
use crate::invariants::synced;
use crate::invariants::wf_core;
use crate::registry::EntityHandle;
use crate::components::NOOB_SIZE;
use crate::components::WAVER_SIZE;
use crate::game::InputState;
use crate::game::PlayerHealth;
use crate::game::PlayerScore;
use crate::spawn::create_noob_baddy;
use crate::spawn::create_score_popup;
use crate::spawn::popup_batch;
use crate::spawn::create_noob_projectile;
use crate::spawn::noob_proj_batch;
use crate::spawn::noob_proj_pos;
use crate::spawn::create_player_projectile;
use crate::spawn::player_proj_batch;
use crate::spawn::player_proj_pos;
use crate::spawn::create_waver_baddy;
use crate::spawn::noob_batch;
use crate::spawn::waver_batch;
use crate::world::comp_free;
use crate::world::created;
use crate::world::drain_v;
use crate::world::dead_clear;
use crate::world::Batch;
use crate::world::CompKind;
use crate::world::handle_for;
use crate::world::lens_ok;
use crate::world::live_v;
use crate::world::Op;
use crate::world::World;
use crate::world::WorldV;

verus! {

/// Position integration: every entity carrying both a position and a
/// velocity moves by its velocity.
pub open spec fn integrate_all(v: WorldV) -> WorldV {
    WorldV {
        pos: Seq::new(
            v.pos.len(),
            |s: int|
                if v.pos[s] is Some && v.vel[s] is Some {
                    Some(
                        Position {
                            x: (v.pos[s]->Some_0.x + v.vel[s]->Some_0.x) as i64,
                            y: (v.pos[s]->Some_0.y + v.vel[s]->Some_0.y) as i64,
                        },
                    )
                } else {
                    v.pos[s]
                },
        ),
        ..v
    }
}

/// Hard clamp of one coordinate into [0, hi].
pub open spec fn clamp_coord(p: int, hi: int) -> i64 {
    if p > hi {
        hi as i64
    } else if p < 0 {
        0
    } else {
        p as i64
    }
}

/// The player's position clamped into the playable area.
pub open spec fn clamp_player_v(v: WorldV) -> WorldV {
    let ps = v.player_slot as int;
    if v.pos[ps] is Some {
        let p = v.pos[ps]->Some_0;
        WorldV {
            pos: v.pos.update(
                ps,
                Some(
                    Position {
                        x: clamp_coord(p.x as int, (GAME_WIDTH - PLAYER_SIZE) as int),
                        y: clamp_coord(p.y as int, (GAME_HEIGHT - PLAYER_SIZE) as int),
                    },
                ),
            ),
            ..v
        }
    } else {
        v
    }
}

/// Every rendered entity's geometry follows its position.
pub open spec fn sync_rend(v: WorldV) -> WorldV {
    WorldV {
        rend: Seq::new(
            v.rend.len(),
            |s: int|
                if v.rend[s] is Some && v.pos[s] is Some {
                    let r = v.rend[s]->Some_0;
                    let p = v.pos[s]->Some_0;
                    Some(
                        Rendered {
                            area: Rect { x: p.x, y: p.y, w: r.area.w, h: r.area.h },
                            colour: r.colour,
                        },
                    )
                } else {
                    v.rend[s]
                },
        ),
        ..v
    }
}

/// The deletions the offscreen sweep buffers, in slot order: one for every
/// live rendered entity whose area no longer overlaps the playable area.
pub open spec fn offscreen_deletes(v: WorldV, n: int) -> Seq<Op>
    decreases n,
{
    if n <= 0 {
        Seq::empty()
    } else {
        offscreen_deletes(v, n - 1) + if v.alive[n - 1] && v.rend[n - 1] is Some && !overlaps_spec(
            v.rend[n - 1]->Some_0.area,
            game_area_spec(),
        ) {
            seq![Op::Delete(handle_for(v, n - 1))]
        } else {
            Seq::empty()
        }
    }
}

/// The whole movement pass: integrate, clamp the player, sync geometry,
/// buffer deletion of everything that left the playable area.
pub open spec fn movement_v(v: WorldV) -> WorldV {
    let m = sync_rend(clamp_player_v(integrate_all(v)));
    WorldV { queue: m.queue + offscreen_deletes(m, m.gens.len() as int), ..m }
}

/// Updates every entity with a position and a velocity; the player is then
/// clamped to the playable area, render geometry follows positions, and
/// anything fully offscreen is buffered for deletion.
pub struct MovementSystem;

impl MovementSystem {
    #[verifier::rlimit(100)]
    pub fn run(&mut self, w: &mut World)
        requires
            wf_core(old(w)@),
            settled(old(w)@),
            queue_ok(old(w)@),
            osc_ok(old(w)@),
            queue_deletes_live(old(w)@),
        ensures
            final(w)@ == movement_v(old(w)@),
            wf_core(final(w)@),
            moved(final(w)@),
            queue_ok(final(w)@),
            osc_ok(final(w)@),
            queue_deletes_live(final(w)@),
            final(w)@.frames == old(w)@.frames,
            final(w)@.player_slot == old(w)@.player_slot,
    {
        let ghost pre = w@;
        let n = w.num_slots();

        // Integrate positions from velocities.
        let mut s: usize = 0;
        while s < n
            invariant
                wf_core(pre),
                settled(pre),
                n == pre.gens.len(),
                s <= n,
                w@.pos.len() == n,
                forall|j: int| 0 <= j < s ==> w@.pos[j] == integrate_all(pre).pos[j],
                forall|j: int| s <= j < n ==> w@.pos[j] == pre.pos[j],
                w@ == (WorldV { pos: w@.pos, ..pre }),
            decreases n - s,
        {
            proof {
                if pre.pos[s as int] is Some && pre.vel[s as int] is Some {
                    assert(!comp_free(pre, s as int));
                    assert(pre.alive[s as int]) by {
                        if !pre.alive[s as int] {
                            assert(comp_free(pre, s as int));
                        }
                    }
                    assert(comp_ok(pre, s as int));
                    assert(synced(pre, s as int) && rect_settled(pre, s as int));
                }
            }
            if w.pos[s].is_some() && w.vel[s].is_some() {
                let p = w.pos[s].unwrap();
                let vl = w.vel[s].unwrap();
                w.pos.set(s, Some(Position { x: p.x + vl.x, y: p.y + vl.y }));
            }
            s += 1;
        }
        proof {
            assert(w@.pos =~= integrate_all(pre).pos);
            assert(w@ =~= integrate_all(pre));
        }
        let ghost v1 = integrate_all(pre);

        // Clamp the player inside the playable area.
        let ps = w.player_slot;
        if w.pos[ps].is_some() {
            let p = w.pos[ps].unwrap();
            let x_bound: i64 = GAME_WIDTH - PLAYER_SIZE;
            let y_bound: i64 = GAME_HEIGHT - PLAYER_SIZE;
            let cx: i64 = if p.x > x_bound {
                x_bound
            } else if p.x < 0 {
                0
            } else {
                p.x
            };
            let cy: i64 = if p.y > y_bound {
                y_bound
            } else if p.y < 0 {
                0
            } else {
                p.y
            };
            w.pos.set(ps, Some(Position { x: cx, y: cy }));
        }
        proof {
            assert(w@ =~= clamp_player_v(v1));
        }
        let ghost v2 = clamp_player_v(v1);

        // Render geometry follows positions.
        let mut s: usize = 0;
        while s < n
            invariant
                n <= v2.rend.len(),
                n == v2.gens.len(),
                v2.rend.len() == v2.pos.len(),
                s <= n,
                w@.rend.len() == v2.rend.len(),
                forall|j: int| 0 <= j < s ==> w@.rend[j] == sync_rend(v2).rend[j],
                forall|j: int| s <= j < v2.rend.len() ==> w@.rend[j] == v2.rend[j],
                w@ == (WorldV { rend: w@.rend, ..v2 }),
            decreases n - s,
        {
            if w.rend[s].is_some() && w.pos[s].is_some() {
                let r = w.rend[s].unwrap();
                let p = w.pos[s].unwrap();
                w.rend.set(
                    s,
                    Some(
                        Rendered {
                            area: Rect { x: p.x, y: p.y, w: r.area.w, h: r.area.h },
                            colour: r.colour,
                        },
                    ),
                );
            }
            s += 1;
        }
        proof {
            assert(forall|j: int|
                n <= j < v2.rend.len() ==> w@.rend[j] == sync_rend(v2).rend[j]);
            assert(w@.rend =~= sync_rend(v2).rend);
            assert(w@ =~= sync_rend(v2));
        }
        let ghost v3 = sync_rend(v2);

        // Buffer deletion of anything fully outside the playable area.
        let area = game_area();
        let mut s: usize = 0;
        while s < n
            invariant
                wf_core(pre),
                settled(pre),
                v1 == integrate_all(pre),
                v2 == clamp_player_v(v1),
                v3 == sync_rend(v2),
                n == pre.gens.len(),
                n == v3.gens.len(),
                lens_ok(v3),
                s <= n,
                area == game_area_spec(),
                w@ == (WorldV { queue: v3.queue + offscreen_deletes(v3, s as int), ..v3 }),
            decreases n - s,
        {
            proof {
                lemma_movement_mid_facts(pre, s as int);
                assert(w@.alive[s as int] == pre.alive[s as int]);
                assert(w@.rend[s as int] == v3.rend[s as int]);
            }
            if w.reg.alive[s] && w.rend[s].is_some() {
                let r = w.rend[s].unwrap();
                proof {
                    assert(pre.alive[s as int] && v3.rend[s as int] is Some);
                    assert(rect_mid(v3, s as int));
                    assert(comp_ok(pre, s as int));
                    assert(pre.rend[s as int] is Some);
                    assert(r.area.w == pre.rend[s as int]->Some_0.area.w);
                    assert(r.area.h == pre.rend[s as int]->Some_0.area.h);
                    assert(0 <= r.area.w <= 20 && 0 <= r.area.h <= 20);
                    assert(i64::MIN <= r.area.x && r.area.x + r.area.w <= i64::MAX);
                    assert(i64::MIN <= r.area.y && r.area.y + r.area.h <= i64::MAX);
                }
                if !r.area.overlaps(&area) {
                    let h = EntityHandle { slot: s, gen: w.reg.gens[s] };
                    w.enqueue(Op::Delete(h));
                }
            }
            proof {
                assert(w@.queue =~= v3.queue + offscreen_deletes(v3, s as int + 1));
                assert(w@ =~= (WorldV {
                    queue: v3.queue + offscreen_deletes(v3, s as int + 1),
                    ..v3
                }));
            }
            s += 1;
        }
        proof {
            assert(w@ =~= movement_v(pre));
            lemma_movement_wf(pre);
        }
    }
}

/// Bounds that hold of slot `s` after integration, clamping and syncing:
/// geometry is synced and at most one step away from settled.
pub proof fn lemma_movement_mid_facts(pre: WorldV, s: int)
    requires
        wf_core(pre),
        settled(pre),
        0 <= s < pre.gens.len(),
    ensures
        ({
            let m = sync_rend(clamp_player_v(integrate_all(pre)));
            pre.alive[s] && m.rend[s] is Some ==> {
                &&& synced(m, s)
                &&& rect_mid(m, s)
                &&& m.rend[s]->Some_0.area.x + m.rend[s]->Some_0.area.w <= i64::MAX
                &&& i64::MIN <= m.rend[s]->Some_0.area.x
                &&& m.rend[s]->Some_0.area.y + m.rend[s]->Some_0.area.h <= i64::MAX
                &&& i64::MIN <= m.rend[s]->Some_0.area.y
                &&& (overlaps_spec(m.rend[s]->Some_0.area, game_area_spec()) ==> rect_settled(
                    m,
                    s,
                ))
                &&& (s == pre.player_slot as int ==> overlaps_spec(
                    m.rend[s]->Some_0.area,
                    game_area_spec(),
                ))
            }
        }),
{
    let v1 = integrate_all(pre);
    let v2 = clamp_player_v(v1);
    let m = sync_rend(v2);
    let ps = pre.player_slot as int;
    if pre.alive[s] && m.rend[s] is Some {
        assert(comp_ok(pre, s));
        assert(pre.rend[s] is Some);
        assert(synced(pre, s) && rect_settled(pre, s));
        if pre.vel[s] is Some {
            assert(age_of(pre, s) <= pre.frames + 1);
        }
        if s == ps {
            assert(pre.pos[ps] is Some && pre.vel[ps] is Some);
            assert(v2.pos[s]->Some_0.x == clamp_coord(
                v1.pos[s]->Some_0.x as int,
                (GAME_WIDTH - PLAYER_SIZE) as int,
            ));
        }
    }
}

/// Does the offscreen sweep buffer a deletion for this slot?
pub open spec fn off_cond(v: WorldV, t: int) -> bool {
    &&& v.alive[t]
    &&& v.rend[t] is Some
    &&& !overlaps_spec(v.rend[t]->Some_0.area, game_area_spec())
}

/// The offscreen sweep buffers exactly the deletions of the live rendered
/// entities that left the playable area.
pub proof fn lemma_offscreen_elems(v: WorldV, n: int)
    ensures
        forall|op: Op|
            #[trigger] offscreen_deletes(v, n).contains(op) <==> exists|t: int|
                0 <= t < n && #[trigger] off_cond(v, t) && op == Op::Delete(handle_for(v, t)),
    decreases n,
{
    if n <= 0 {
    } else {
        lemma_offscreen_elems(v, n - 1);
        let prevs = offscreen_deletes(v, n - 1);
        let last = if off_cond(v, n - 1) {
            seq![Op::Delete(handle_for(v, n - 1))]
        } else {
            Seq::<Op>::empty()
        };
        let whole = offscreen_deletes(v, n);
        assert(whole == prevs + last);
        assert forall|op: Op| #[trigger] whole.contains(op) implies exists|t: int|
            0 <= t < n && #[trigger] off_cond(v, t) && op == Op::Delete(handle_for(v, t)) by {
            let j = choose|j: int| 0 <= j < whole.len() && whole[j] == op;
            if j < prevs.len() {
                assert(prevs[j] == op);
                assert(prevs.contains(op));
            } else {
                assert(last[j - prevs.len()] == op);
                assert(off_cond(v, n - 1) && op == Op::Delete(handle_for(v, n - 1)));
            }
        }
        assert forall|op: Op|
            (exists|t: int|
                0 <= t < n && #[trigger] off_cond(v, t) && op == Op::Delete(
                    handle_for(v, t),
                )) implies #[trigger] whole.contains(op) by {
            let t = choose|t: int|
                0 <= t < n && #[trigger] off_cond(v, t) && op == Op::Delete(handle_for(v, t));
            if t < n - 1 {
                assert(prevs.contains(op));
                let j = choose|j: int| 0 <= j < prevs.len() && prevs[j] == op;
                assert(whole[j] == op);
            } else {
                assert(whole[prevs.len() as int] == op);
            }
        }
    }
}

/// The movement pass preserves the core invariant and the queue shape, and
/// leaves the world in mid-tick placement.
#[verifier::rlimit(100)]
pub proof fn lemma_movement_wf(pre: WorldV)
    requires
        wf_core(pre),
        settled(pre),
        queue_ok(pre),
        osc_ok(pre),
        queue_deletes_live(pre),
        pre.gens.len() <= usize::MAX,
    ensures
        wf_core(movement_v(pre)),
        moved(movement_v(pre)),
        queue_ok(movement_v(pre)),
        osc_ok(movement_v(pre)),
        queue_deletes_live(movement_v(pre)),
{
    let v1 = integrate_all(pre);
    let v2 = clamp_player_v(v1);
    let m = sync_rend(v2);
    let n = pre.gens.len() as int;
    let dels = offscreen_deletes(m, n);
    let r = movement_v(pre);
    let ps = pre.player_slot as int;
    lemma_offscreen_elems(m, n);
    assert(r.queue == m.queue + dels);

    // Per-slot facts after the three value passes.
    assert forall|s: int| 0 <= s < n implies #[trigger] mv_slot_good(pre, s) by {
        lemma_movement_mid_facts(pre, s);
        if pre.alive[s] {
            assert(comp_ok(pre, s));
        } else {
            assert(comp_free(pre, s));
        }
    }

    // Core invariant.
    assert(lens_ok(r));
    assert forall|s: int| 0 <= s < r.alive.len() && !r.alive[s] implies comp_free(r, s) by {
        assert(mv_slot_good(pre, s));
    }
    assert(player_ok_movement(pre));
    assert forall|s: int| 0 <= s < r.gens.len() && r.alive[s] implies #[trigger] comp_ok(
        r,
        s,
    ) by {
        assert(mv_slot_good(pre, s));
    }
    assert(wf_core(r));

    // Mid-tick placement.
    assert forall|s: int|
        0 <= s < r.gens.len() && r.alive[s] && #[trigger] r.rend[s] is Some implies synced(r, s)
        && rect_mid(r, s) && (rect_settled(r, s) || delete_queued(r, r.queue, s)) by {
        assert(mv_slot_good(pre, s));
        if !overlaps_spec(m.rend[s]->Some_0.area, game_area_spec()) {
            assert(off_cond(m, s));
            assert(dels.contains(Op::Delete(handle_for(m, s))));
            let j = choose|j: int| 0 <= j < dels.len() && dels[j] == Op::Delete(handle_for(m, s));
            assert(r.queue[m.queue.len() + j] == Op::Delete(handle_for(m, s)));
            assert(handle_for(r, s) == handle_for(m, s));
            assert(delete_queued(r, r.queue, s));
        } else {
            assert(rect_settled(r, s));
        }
    }
    assert(moved(r));

    // Queue shape.
    assert forall|j: int| 0 <= j < r.queue.len() implies #[trigger] op_ok(r, r.queue, j) by {
        if j < m.queue.len() {
            assert(r.queue[j] == pre.queue[j]);
            assert(op_ok(pre, pre.queue, j));
            match pre.queue[j] {
                Op::Create(h, b) => {
                    assert(mv_slot_good(pre, h.slot as int));
                    assert(comp_free(r, h.slot as int));
                    assert forall|j2: int|
                        0 <= j2 < r.queue.len() && j2 != j implies match #[trigger] r.queue[j2] {
                        Op::Create(h2, _) => h2.slot != h.slot,
                        _ => true,
                    } by {
                        if j2 < m.queue.len() {
                            assert(r.queue[j2] == pre.queue[j2]);
                        } else {
                            assert(r.queue[j2] == dels[j2 - m.queue.len()]);
                            assert(dels.contains(dels[j2 - m.queue.len()]));
                        }
                    }
                },
                Op::Remove(h, k) => {
                },
                Op::Delete(h) => {
                    if live_v(r, h) {
                        assert(mv_slot_good(pre, h.slot as int));
                    }
                },
            }
        } else {
            assert(r.queue[j] == dels[j - m.queue.len()]);
            assert(dels.contains(dels[j - m.queue.len()]));
            let t = choose|t: int|
                0 <= t < n && #[trigger] off_cond(m, t) && dels[j - m.queue.len()] == Op::Delete(
                    handle_for(m, t),
                );
            assert(mv_slot_good(pre, t));
            assert(live_v(r, handle_for(m, t)));
            assert(!comp_free(r, t));
            if t == ps {
                lemma_movement_mid_facts(pre, t);
            }
            assert(t != ps);
        }
    }
    assert(queue_ok(r));

    // Oscillation budgets.
    assert forall|s: int|
        0 <= s < r.gens.len() && r.alive[s] && #[trigger] r.osc[s] is Some implies (
    r.osc[s]->Some_0.0 >= 1 || remove_osc_queued(r, r.queue, s)) by {
        assert(r.osc[s] == pre.osc[s]);
        if pre.osc[s]->Some_0.0 < 1 {
            assert(remove_osc_queued(pre, pre.queue, s));
            let j = choose|j: int|
                0 <= j < pre.queue.len() && pre.queue[j] == Op::Remove(
                    handle_for(pre, s),
                    CompKind::Osc,
                );
            assert(r.queue[j] == Op::Remove(handle_for(r, s), CompKind::Osc));
            assert(remove_osc_queued(r, r.queue, s));
        }
    }
    assert(osc_ok(r));

    // Buffered deletions stay live: old ones are untouched, new ones name
    // entities the sweep just saw alive.
    assert forall|j: int| 0 <= j < r.queue.len() implies match #[trigger] r.queue[j] {
        Op::Delete(h) => live_v(r, h),
        _ => true,
    } by {
        if j < m.queue.len() {
            assert(r.queue[j] == pre.queue[j]);
        } else {
            assert(r.queue[j] == dels[j - m.queue.len()]);
            assert(dels.contains(dels[j - m.queue.len()]));
            let t = choose|t: int|
                0 <= t < n && #[trigger] off_cond(m, t) && dels[j - m.queue.len()] == Op::Delete(
                    handle_for(m, t),
                );
            assert(live_v(r, handle_for(m, t)));
        }
    }
    assert(queue_deletes_live(r));
}

/// Bundle of per-slot facts about the movement value passes, used to carry
/// one slot's reasoning through the preservation proof.
pub open spec fn mv_slot_good(pre: WorldV, s: int) -> bool {
    let m = sync_rend(clamp_player_v(integrate_all(pre)));
    let r = movement_v(pre);
    &&& (pre.alive[s] ==> comp_ok(r, s))
    &&& (!pre.alive[s] && 0 <= s < pre.gens.len() ==> comp_free(r, s))
    &&& (pre.alive[s] && m.rend[s] is Some ==> synced(r, s) && rect_mid(r, s) && (overlaps_spec(
        m.rend[s]->Some_0.area,
        game_area_spec(),
    ) ==> rect_settled(r, s)))
    &&& (s == pre.player_slot as int && pre.alive[s] && m.rend[s] is Some ==> overlaps_spec(
        m.rend[s]->Some_0.area,
        game_area_spec(),
    ))
    &&& (comp_free(pre, s) ==> comp_free(r, s))
    &&& (!comp_free(pre, s) && 0 <= s < pre.gens.len() ==> !comp_free(r, s))
}

/// The player after the movement value passes: still present, clamped into
/// the playable area.
pub open spec fn player_ok_movement(pre: WorldV) -> bool {
    player_ok(movement_v(pre))
}


/// Appending one well-shaped creation batch for a freshly allocated entity
/// preserves every system-level invariant.
#[verifier::rlimit(100)]
pub proof fn lemma_spawn_append(pre: WorldV, mid: WorldV, h: EntityHandle, b: Batch)
    requires
        wf_core(pre),
        queue_ok(pre),
        osc_ok(pre),
        queue_deletes_live(pre),
        created(pre, mid, h),
        batch_ok(b),
    ensures
        ({
            let post = WorldV { queue: mid.queue.push(Op::Create(h, b)), ..mid };
            &&& wf_core(post)
            &&& queue_ok(post)
            &&& osc_ok(post)
            &&& queue_deletes_live(post)
            &&& (settled(pre) ==> settled(post))
            &&& (moved(pre) ==> moved(post))
        }),
{
    let post = WorldV { queue: mid.queue.push(Op::Create(h, b)), ..mid };
    let ps = pre.player_slot as int;
    let hs = h.slot as int;
    let n0 = pre.gens.len() as int;
    assert(live_v(pre, handle_for(pre, ps)));
    assert(ps != hs);

    // Core invariant.
    assert(lens_ok(post));
    assert forall|s: int| 0 <= s < post.alive.len() && !post.alive[s] implies comp_free(
        post,
        s,
    ) by {
        assert(comp_free(mid, s));
    }
    assert(dead_clear(post));
    assert(post.frames == pre.frames);
    assert forall|s: int| 0 <= s < post.player.len() implies (post.player[s] <==> s == ps) by {
        if s == hs {
            assert(comp_free(post, hs));
        } else if s < n0 {
            assert(post.player[s] == pre.player[s]);
        }
    }
    assert(player_ok(post));
    assert forall|s: int| 0 <= s < post.gens.len() && post.alive[s] implies #[trigger] comp_ok(
        post,
        s,
    ) by {
        if s == hs {
            assert(comp_free(post, s));
        } else if s < n0 {
            if pre.alive[s] {
                assert(comp_ok(pre, s));
            } else {
                assert(comp_free(pre, s));
            }
        }
    }
    assert(wf_core(post));

    // Placement.
    if settled(pre) {
        assert forall|s: int|
            0 <= s < post.gens.len() && post.alive[s] && #[trigger] post.rend[s] is Some implies
            synced(post, s) && rect_settled(post, s) by {
            assert(s != hs);
            assert(s < n0);
            assert(post.rend[s] == pre.rend[s] && post.pos[s] == pre.pos[s] && post.noob[s]
                == pre.noob[s]);
        }
    }
    if moved(pre) {
        assert forall|s: int|
            0 <= s < post.gens.len() && post.alive[s] && #[trigger] post.rend[s] is Some implies
            synced(post, s) && rect_mid(post, s) && (rect_settled(post, s) || delete_queued(
            post,
            post.queue,
            s,
        )) by {
            assert(s != hs);
            assert(s < n0);
            assert(pre.alive[s] && pre.rend[s] is Some);
            if !rect_settled(pre, s) {
                let j = choose|j: int|
                    0 <= j < pre.queue.len() && pre.queue[j] == Op::Delete(handle_for(pre, s));
                assert(post.queue[j] == Op::Delete(handle_for(post, s)));
                assert(delete_queued(post, post.queue, s));
            }
        }
    }

    // Queue shape.
    assert forall|j: int| 0 <= j < post.queue.len() implies #[trigger] op_ok(
        post,
        post.queue,
        j,
    ) by {
        if j < pre.queue.len() {
            assert(post.queue[j] == pre.queue[j]);
            assert(op_ok(pre, pre.queue, j));
            match pre.queue[j] {
                Op::Create(h2, b2) => {
                    assert(live_v(pre, h2));
                    assert(h2.slot != h.slot);
                    assert(comp_free(post, h2.slot as int));
                    assert forall|j2: int|
                        0 <= j2 < post.queue.len() && j2 != j implies match #[trigger] post.queue[j2] {
                        Op::Create(h3, _) => h3.slot != h2.slot,
                        _ => true,
                    } by {
                        if j2 < pre.queue.len() {
                            assert(post.queue[j2] == pre.queue[j2]);
                        } else {
                            assert(post.queue[j2] == Op::Create(h, b));
                        }
                    }
                },
                Op::Remove(h2, k) => {
                },
                Op::Delete(h2) => {
                    assert(live_v(pre, h2));
                    assert(h2.slot != h.slot);
                    assert(!comp_free(pre, h2.slot as int));
                    assert(!comp_free(post, h2.slot as int));
                },
            }
        } else {
            assert(post.queue[j] == Op::Create(h, b));
            assert forall|j2: int|
                0 <= j2 < post.queue.len() && j2 != j implies match #[trigger] post.queue[j2] {
                Op::Create(h3, _) => h3.slot != h.slot,
                _ => true,
            } by {
                if j2 < pre.queue.len() {
                    assert(post.queue[j2] == pre.queue[j2]);
                    assert(op_ok(pre, pre.queue, j2));
                    match pre.queue[j2] {
                        Op::Create(h3, _) => {
                            assert(live_v(pre, h3));
                            assert(h3.slot != h.slot);
                        },
                        _ => {
                        },
                    }
                }
            }
        }
    }
    assert(queue_ok(post));

    // Oscillation budgets and buffered deletions.
    assert forall|s: int|
        0 <= s < post.gens.len() && post.alive[s] && #[trigger] post.osc[s] is Some implies (
    post.osc[s]->Some_0.0 >= 1 || remove_osc_queued(post, post.queue, s)) by {
        assert(s != hs);
        assert(s < n0);
        assert(post.osc[s] == pre.osc[s]);
        assert(pre.alive[s]);
        if pre.osc[s]->Some_0.0 < 1 {
            let j = choose|j: int|
                0 <= j < pre.queue.len() && pre.queue[j] == Op::Remove(
                    handle_for(pre, s),
                    CompKind::Osc,
                );
            assert(post.queue[j] == Op::Remove(handle_for(post, s), CompKind::Osc));
            assert(remove_osc_queued(post, post.queue, s));
        }
    }
    assert(osc_ok(post));
    assert forall|j: int| 0 <= j < post.queue.len() implies match #[trigger] post.queue[j] {
        Op::Delete(h2) => live_v(post, h2),
        _ => true,
    } by {
        if j < pre.queue.len() {
            assert(post.queue[j] == pre.queue[j]);
        } else {
            assert(post.queue[j] == Op::Create(h, b));
        }
    }
    assert(queue_deletes_live(post));
}

/// When the tick spawns a Noob, and when a Waver wave head: the two
/// schedules never coincide, since a tick at 200 modulo 300 sits at 0
/// modulo 100.
pub proof fn lemma_spawn_ticks_disjoint(f: u64)
    ensures
        !(f % 100 == 50 && f % 300 == 200),
{
    assert(!(f % 100 == 50 && f % 300 == 200)) by (nonlinear_arith);
}

/// The spawner's effect: on a Noob tick one Noob creation batch is
/// buffered for a fresh entity with its parameters in the spawn ranges; on
/// a Waver tick one rank-10 wave head; on any other tick nothing.
pub open spec fn spawner_rel(pre: WorldV, post: WorldV) -> bool {
    if pre.frames % 100 == 50 {
        exists|mid: WorldV, h: EntityHandle, x: i64, y: i64, speed: i64, flips: u8|
            {
                &&& #[trigger] created(pre, mid, h)
                &&& (x == (1 - NOOB_SIZE) as i64 || x == (GAME_WIDTH - 1) as i64)
                &&& 0 <= y < 300
                &&& 1 <= speed < 4
                &&& 1 <= flips < 4
                &&& post == (WorldV {
                    queue: mid.queue.push(
                        Op::Create(h, #[trigger] noob_batch(Position { x, y }, speed, flips)),
                    ),
                    ..mid
                })
            }
    } else if pre.frames % 300 == 200 {
        exists|mid: WorldV, h: EntityHandle, x: i64, y: i64, vx: i64|
            {
                &&& #[trigger] created(pre, mid, h)
                &&& ((x == (1 - WAVER_SIZE) as i64 && vx == 4) || (x == (GAME_WIDTH - 1) as i64
                    && vx == (-4) as i64))
                &&& 50 <= y < 149
                &&& post == (WorldV {
                    queue: mid.queue.push(
                        Op::Create(
                            h,
                            #[trigger] waver_batch(10, Position { x, y }, Velocity { x: vx, y: 8 }),
                        ),
                    ),
                    ..mid
                })
            }
    } else {
        post == pre
    }
}

/// Periodically buffers new enemies: a Noob whenever the tick counter is
/// at 50 modulo 100, a Waver wave head whenever it is at 200 modulo 300.
pub struct BaddySpawner;

impl BaddySpawner {
    pub fn run(&mut self, w: &mut World)
        requires
            wf_core(old(w)@),
            settled(old(w)@),
            queue_ok(old(w)@),
            osc_ok(old(w)@),
            queue_deletes_live(old(w)@),
        ensures
            spawner_rel(old(w)@, final(w)@),
            wf_core(final(w)@),
            settled(final(w)@),
            queue_ok(final(w)@),
            osc_ok(final(w)@),
            queue_deletes_live(final(w)@),
            final(w)@.frames == old(w)@.frames,
            final(w)@.player_slot == old(w)@.player_slot,
            oscs_fresh(old(w)@) ==> oscs_fresh(final(w)@),
            ages_fresh(old(w)@) ==> ages_fresh(final(w)@),
    {
        let ghost pre = w@;
        let f = w.frames.0;
        proof {
            lemma_spawn_ticks_disjoint(f);
        }

        if f % 100 == 50 {
            let e = w.create_entity();
            let ghost mid = w@;
            create_noob_baddy(w, e);
            proof {
                let (x, y, speed, flips) = choose|x: i64, y: i64, speed: i64, flips: u8|
                    {
                        &&& x == (1 - NOOB_SIZE) as i64 || x == (GAME_WIDTH - 1) as i64
                        &&& 0 <= y < 300
                        &&& 1 <= speed < 4
                        &&& 1 <= flips < 4
                        &&& w@ == (WorldV {
                            queue: mid.queue.push(
                                Op::Create(e, #[trigger] noob_batch(Position { x, y }, speed, flips)),
                            ),
                            ..mid
                        })
                    };
                assert(noob_batch_shape(noob_batch(Position { x, y }, speed, flips)));
                lemma_spawn_append(pre, mid, e, noob_batch(Position { x, y }, speed, flips));
                assert(spawner_rel(pre, w@));
            }
        }

        if f % 300 == 200 {
            let e = w.create_entity();
            let ghost mid = w@;
            create_waver_baddy(w, e, None);
            proof {
                let (x, y, vx) = choose|x: i64, y: i64, vx: i64|
                    {
                        &&& (x == (1 - WAVER_SIZE) as i64 && vx == 4) || (x == (GAME_WIDTH - 1) as i64
                            && vx == (-4) as i64)
                        &&& 50 <= y < 149
                        &&& w@ == (WorldV {
                            queue: mid.queue.push(
                                Op::Create(
                                    e,
                                    #[trigger] waver_batch(
                                        10,
                                        Position { x, y },
                                        Velocity { x: vx, y: 8 },
                                    ),
                                ),
                            ),
                            ..mid
                        })
                    };
                assert(waver_batch_shape(waver_batch(10, Position { x, y }, Velocity { x: vx, y: 8 })));
                lemma_spawn_append(pre, mid, e, waver_batch(10, Position { x, y }, Velocity { x: vx, y: 8 }));
                assert(spawner_rel(pre, w@));
            }
        }
        proof {
            lemma_fresh_preserved(pre, w@);
        }
    }
}

/// A pass that leaves every old slot's enemy bookkeeping and oscillation
/// budget untouched, and gives fresh slots none, keeps budgets positive
/// and ages unbumped.
pub proof fn lemma_fresh_preserved(pre: WorldV, post: WorldV)
    requires
        forall|s: int|
            0 <= s < post.gens.len() && post.alive[s] && !(0 <= s < pre.gens.len()
                && pre.alive[s]) ==> post.baddy[s] is None && post.osc[s] is None,
        forall|s: int|
            0 <= s < pre.gens.len() && pre.alive[s] && 0 <= s < post.gens.len() && post.alive[s]
                ==> post.baddy[s] == pre.baddy[s] && post.osc[s] == pre.osc[s],
        post.frames == pre.frames,
    ensures
        oscs_fresh(pre) ==> oscs_fresh(post),
        ages_fresh(pre) ==> ages_fresh(post),
{
    if oscs_fresh(pre) {
        assert forall|s: int|
            0 <= s < post.gens.len() && post.alive[s] && #[trigger] post.osc[s] is Some implies
            post.osc[s]->Some_0.0 >= 1 by {
            assert(0 <= s < pre.gens.len() && pre.alive[s]);
            assert(pre.osc[s] is Some);
        }
    }
    if ages_fresh(pre) {
        assert forall|s: int|
            0 <= s < post.gens.len() && post.alive[s] && #[trigger] post.baddy[s] is Some implies
            post.baddy[s]->Some_0.age <= post.frames by {
            assert(0 <= s < pre.gens.len() && pre.alive[s]);
            assert(pre.baddy[s] is Some);
        }
    }
}


/// The velocity the input snapshot gives the player: the velocity is reset
/// each tick, then each pressed directional key contributes 4 along its
/// axis, so opposing keys cancel.
pub open spec fn control_vel(input: InputState) -> Velocity {
    Velocity {
        x: ((if input.right {
            4int
        } else {
            0int
        }) - (if input.left {
            4int
        } else {
            0int
        })) as i64,
        y: ((if input.down {
            4int
        } else {
            0int
        }) - (if input.up {
            4int
        } else {
            0int
        })) as i64,
    }
}

/// The control pass: the player's velocity is recomputed from the input
/// snapshot; if the shoot key is held and at least 10 ticks have passed
/// since this system's own last shot, one projectile creation is buffered
/// and the shot tick recorded.
pub open spec fn control_rel(pre: WorldV, post: WorldV, last0: u64, last1: u64) -> bool {
    let ps = pre.player_slot as int;
    let mid = WorldV { vel: pre.vel.update(ps, Some(control_vel(pre.input))), ..pre };
    if pre.input.shoot && pre.frames - last0 >= 10 {
        &&& last1 == pre.frames
        &&& exists|w2: WorldV, h: EntityHandle|
            {
                &&& #[trigger] created(mid, w2, h)
                &&& post == (WorldV {
                    queue: w2.queue.push(
                        Op::Create(h, player_proj_batch(player_proj_pos(pre.pos[ps]->Some_0))),
                    ),
                    ..w2
                })
            }
    } else {
        post == mid && last1 == last0
    }
}

/// Setting the player's velocity from the input preserves every
/// system-level invariant.
pub proof fn lemma_control_vel_set(pre: WorldV)
    requires
        wf_core(pre),
        settled(pre),
        queue_ok(pre),
        osc_ok(pre),
        queue_deletes_live(pre),
    ensures
        ({
            let ps = pre.player_slot as int;
            let mid = WorldV { vel: pre.vel.update(ps, Some(control_vel(pre.input))), ..pre };
            &&& wf_core(mid)
            &&& settled(mid)
            &&& queue_ok(mid)
            &&& osc_ok(mid)
            &&& queue_deletes_live(mid)
        }),
{
    let ps = pre.player_slot as int;
    let mid = WorldV { vel: pre.vel.update(ps, Some(control_vel(pre.input))), ..pre };
    assert(comp_ok(pre, ps));
    assert forall|s: int| 0 <= s < mid.alive.len() && !mid.alive[s] implies comp_free(
        mid,
        s,
    ) by {
        assert(comp_free(pre, s));
    }
    assert forall|s: int| 0 <= s < mid.gens.len() && mid.alive[s] implies #[trigger] comp_ok(
        mid,
        s,
    ) by {
        assert(comp_ok(pre, s));
        if s == ps {
            assert(mid.vel[s]->Some_0 == control_vel(pre.input));
            assert(-4 <= mid.vel[s]->Some_0.x <= 4);
            assert(-8 <= mid.vel[s]->Some_0.y <= 8);
            assert(age_of(mid, s) == age_of(pre, s));
        }
    }
    assert(player_ok(mid));
    assert(wf_core(mid));
    assert forall|s: int|
        0 <= s < mid.gens.len() && mid.alive[s] && #[trigger] mid.rend[s] is Some implies synced(
        mid,
        s,
    ) && rect_settled(mid, s) by {
        assert(pre.rend[s] is Some);
    }
    assert forall|j: int| 0 <= j < mid.queue.len() implies #[trigger] op_ok(mid, mid.queue, j) by {
        assert(op_ok(pre, pre.queue, j));
        match pre.queue[j] {
            Op::Create(h2, b2) => {
                assert(comp_free(pre, h2.slot as int));
                assert(h2.slot != pre.player_slot);
                assert(comp_free(mid, h2.slot as int));
            },
            Op::Remove(h2, k) => {
            },
            Op::Delete(h2) => {
                if live_v(mid, h2) {
                    assert(!comp_free(pre, h2.slot as int));
                    assert(!comp_free(mid, h2.slot as int));
                }
            },
        }
    }
    assert(queue_ok(mid));
    assert(osc_ok(mid));
    assert(queue_deletes_live(mid));
}

/// Translates the input snapshot into player velocity and rate-limited
/// fire requests; the rate limit lives in this system's own state.
pub struct PlayerControlSystem {
    pub last_shot_frame: u64,
}

impl PlayerControlSystem {
    /// A fresh control system that has never fired.
    pub fn new() -> (r: PlayerControlSystem)
        ensures
            r.last_shot_frame == 0,
    {
        PlayerControlSystem { last_shot_frame: 0 }
    }

    pub fn run(&mut self, w: &mut World)
        requires
            wf_core(old(w)@),
            settled(old(w)@),
            queue_ok(old(w)@),
            osc_ok(old(w)@),
            queue_deletes_live(old(w)@),
            old(self).last_shot_frame <= old(w)@.frames,
        ensures
            control_rel(old(w)@, final(w)@, old(self).last_shot_frame, final(self).last_shot_frame),
            final(self).last_shot_frame <= final(w)@.frames,
            wf_core(final(w)@),
            settled(final(w)@),
            queue_ok(final(w)@),
            osc_ok(final(w)@),
            queue_deletes_live(final(w)@),
            final(w)@.frames == old(w)@.frames,
            final(w)@.player_slot == old(w)@.player_slot,
            oscs_fresh(old(w)@) ==> oscs_fresh(final(w)@),
            ages_fresh(old(w)@) ==> ages_fresh(final(w)@),
    {
        let ghost pre = w@;
        let ps = w.player_slot;
        let input = w.input;
        let frames = w.frames.0;

        let mut vx: i64 = 0;
        let mut vy: i64 = 0;
        if input.up {
            vy = vy - 4;
        }
        if input.down {
            vy = vy + 4;
        }
        if input.left {
            vx = vx - 4;
        }
        if input.right {
            vx = vx + 4;
        }
        w.vel.set(ps, Some(Velocity { x: vx, y: vy }));
        proof {
            assert(Velocity { x: vx, y: vy } == control_vel(pre.input));
            assert(w@ =~= (WorldV {
                vel: pre.vel.update(ps as int, Some(control_vel(pre.input))),
                ..pre
            }));
            lemma_control_vel_set(pre);
        }
        let ghost mid = w@;

        if input.shoot && frames - self.last_shot_frame >= 10 {
            let e = w.create_entity();
            let ghost w2 = w@;
            let p = w.pos[ps].unwrap();
            create_player_projectile(w, e, p);
            self.last_shot_frame = frames;
            proof {
                assert(player_proj_shape(player_proj_batch(player_proj_pos(pre.pos[ps as int]->Some_0))));
                lemma_spawn_append(
                    mid,
                    w2,
                    e,
                    player_proj_batch(player_proj_pos(pre.pos[ps as int]->Some_0)),
                );
                assert(control_rel(pre, w@, old(self).last_shot_frame, self.last_shot_frame));
            }
        }
        proof {
            lemma_fresh_preserved(pre, w@);
        }
    }
}


/// Absolute value of a small velocity component.
pub open spec fn iabs(v: i64) -> i64 {
    if v < 0 {
        (-(v as int)) as i64
    } else {
        v
    }
}

/// The reflective horizontal boundary for Noob baddies: in the left fifth
/// of the game area the velocity is forced rightward, in the right fifth
/// leftward, and in the middle it is untouched. Repeated application at
/// the same extreme is idempotent; this is not a velocity negation.
pub open spec fn noob_new_vx(x: i64, vx: i64) -> i64 {
    if x < GAME_WIDTH / 5 {
        iabs(vx)
    } else if x > GAME_WIDTH * 4 / 5 {
        (-(iabs(vx) as int)) as i64
    } else {
        vx
    }
}

/// Did the horizontal direction flip this tick?
pub open spec fn noob_flipped(vx: i64, nvx: i64) -> bool {
    (vx >= 0) != (nvx >= 0)
}

/// Does the Noob behavior branch select this slot: a live entity with the
/// Noob tag, enemy bookkeeping, an oscillation budget, position and
/// velocity.
pub open spec fn noob_joins(v: WorldV, s: int) -> bool {
    &&& v.alive[s]
    &&& v.noob[s]
    &&& v.baddy[s] is Some
    &&& v.osc[s] is Some
    &&& v.pos[s] is Some
    &&& v.vel[s] is Some
}

/// Does the Waver behavior branch select this slot.
pub open spec fn waver_joins(v: WorldV, s: int) -> bool {
    &&& v.alive[s]
    &&& v.waver[s] is Some
    &&& v.baddy[s] is Some
    &&& v.vel[s] is Some
}

/// The Noob branch at one slot: apply the reflective boundary; on a
/// direction flip spend one unit of the oscillation budget, buffering the
/// budget's removal when it hits zero; and on every 15th age tick buffer a
/// downward projectile from a fresh entity, with a random drift.
pub open spec fn noob_slot_rel(pre: WorldV, post: WorldV, s: int) -> bool {
    if noob_joins(pre, s) {
        let x = pre.pos[s]->Some_0.x;
        let vx = pre.vel[s]->Some_0.x;
        let vy = pre.vel[s]->Some_0.y;
        let flips = pre.osc[s]->Some_0.0;
        let nvx = noob_new_vx(x, vx);
        let flipped = noob_flipped(vx, nvx);
        let nflips = if flipped {
            (flips - 1) as u8
        } else {
            flips
        };
        let v1 = WorldV {
            vel: pre.vel.update(s, Some(Velocity { x: nvx, y: vy })),
            osc: if flipped {
                pre.osc.update(s, Some(crate::components::Oscillates(nflips)))
            } else {
                pre.osc
            },
            ..pre
        };
        let v2 = if flipped && nflips == 0 {
            WorldV { queue: v1.queue.push(Op::Remove(handle_for(pre, s), CompKind::Osc)), ..v1 }
        } else {
            v1
        };
        if pre.baddy[s]->Some_0.age % 15 == 0 {
            noob_fire_rel(v2, post, pre.pos[s]->Some_0)
        } else {
            post == v2
        }
    } else {
        post == pre
    }
}

/// Firing a Noob projectile: one creation batch for a fresh entity,
/// placed just below the given Noob position, with a random drift.
pub open spec fn noob_fire_rel(pre: WorldV, post: WorldV, bpos: Position) -> bool {
    exists|w3: WorldV, h: EntityHandle, drift: i64|
        {
            &&& #[trigger] created(pre, w3, h)
            &&& 0 <= drift < 2
            &&& post == (WorldV {
                queue: w3.queue.push(
                    Op::Create(h, #[trigger] noob_proj_batch(noob_proj_pos(bpos), drift)),
                ),
                ..w3
            })
        }
}

/// The Waver branch at one slot: at age 15, a Waver of positive rank
/// buffers exactly one follower of the next lower rank, sharing the wave's
/// original starting position and velocity; and every 8th age tick the
/// vertical velocity decreases by one.
pub open spec fn waver_slot_rel(pre: WorldV, post: WorldV, s: int) -> bool {
    if waver_joins(pre, s) {
        let wv = pre.waver[s]->Some_0;
        let age = pre.baddy[s]->Some_0.age;
        let vx = pre.vel[s]->Some_0.x;
        let vy = pre.vel[s]->Some_0.y;
        if age == 15 && wv.rank > 0 {
            exists|w2: WorldV, h: EntityHandle|
                {
                    &&& #[trigger] created(pre, w2, h)
                    &&& post == waver_vy_step(
                        WorldV {
                            queue: w2.queue.push(
                                Op::Create(h, waver_batch((wv.rank - 1) as u64, wv.pos, wv.vel)),
                            ),
                            ..w2
                        },
                        s,
                        age,
                        vx,
                        vy,
                    )
                }
        } else {
            post == waver_vy_step(pre, s, age, vx, vy)
        }
    } else {
        post == pre
    }
}

/// The arcing step of the Waver trajectory: every 8th age tick the
/// vertical velocity decreases by one.
pub open spec fn waver_vy_step(v: WorldV, s: int, age: u64, vx: i64, vy: i64) -> WorldV {
    if age % 8 == 0 {
        WorldV { vel: v.vel.update(s, Some(Velocity { x: vx, y: (vy - 1) as i64 })), ..v }
    } else {
        v
    }
}

/// The baddy at this slot one tick older; ages advance unconditionally,
/// before either behavior branch reads them.
pub open spec fn aged_slot(pre: WorldV, s: int) -> WorldV {
    if pre.alive[s] && pre.baddy[s] is Some {
        WorldV {
            baddy: pre.baddy.update(
                s,
                Some(
                    Baddy {
                        age: (pre.baddy[s]->Some_0.age + 1) as u64,
                        ..pre.baddy[s]->Some_0
                    },
                ),
            ),
            ..pre
        }
    } else {
        pre
    }
}

/// The enemy behavior pass at one slot: the baddy's age always advances by
/// one, then the Noob branch and the Waver branch apply (a slot selects at
/// most one of them).
pub open spec fn behavior_slot_rel(pre: WorldV, post: WorldV, s: int) -> bool {
    exists|mid: WorldV| #[trigger] noob_slot_rel(aged_slot(pre, s), mid, s) && waver_slot_rel(
        mid,
        post,
        s,
    )
}

/// A trace of the enemy behavior pass: state `j` is the world after the
/// first `j` slots were processed, each step related to the next by the
/// per-slot relation.
pub open spec fn behavior_chain(pre: WorldV, post: WorldV, tr: Seq<WorldV>, k: int) -> bool {
    &&& tr.len() == k + 1
    &&& 0 <= k
    &&& tr[0] == pre
    &&& tr[k] == post
    &&& forall|j: int| 0 <= j < k ==> #[trigger] behavior_slot_rel(tr[j], tr[j + 1], j)
}

/// The enemy behavior pass over every slot that existed when it started:
/// some trace connects the world before to the world after, slot by slot.
pub open spec fn behavior_rel(pre: WorldV, post: WorldV) -> bool {
    exists|tr: Seq<WorldV>| #[trigger] behavior_chain(pre, post, tr, pre.gens.len() as int)
}


/// A point update of one live non-player slot's enemy bookkeeping,
/// oscillation budget or velocity — possibly buffering the budget's
/// removal — preserves every system-level invariant, provided the slot
/// stays consistent and its budget is positive or marked for removal.
#[verifier::rlimit(100)]
pub proof fn lemma_behavior_slot_update(pre: WorldV, post: WorldV, s: int)
    requires
        wf_core(pre),
        settled(pre),
        queue_ok(pre),
        osc_ok(pre),
        queue_deletes_live(pre),
        0 <= s < pre.gens.len(),
        pre.alive[s],
        !comp_free(pre, s),
        s != pre.player_slot,
        post == (WorldV {
            baddy: post.baddy,
            osc: post.osc,
            vel: post.vel,
            queue: post.queue,
            ..pre
        }),
        post.baddy.len() == pre.baddy.len(),
        post.osc.len() == pre.osc.len(),
        post.vel.len() == pre.vel.len(),
        forall|j: int|
            0 <= j < pre.baddy.len() && j != s ==> post.baddy[j] == pre.baddy[j] && post.osc[j]
                == pre.osc[j] && post.vel[j] == pre.vel[j],
        comp_ok(post, s),
        !(post.baddy[s] is None && pre.baddy[s] is Some),
        !(post.osc[s] is None && pre.osc[s] is Some),
        !(post.vel[s] is None && pre.vel[s] is Some),
        post.queue == pre.queue || post.queue == pre.queue.push(
            Op::Remove(handle_for(pre, s), CompKind::Osc),
        ),
        post.osc[s] is Some ==> post.osc[s]->Some_0.0 >= 1 || remove_osc_queued(
            post,
            post.queue,
            s,
        ),
    ensures
        wf_core(post),
        settled(post),
        queue_ok(post),
        osc_ok(post),
        queue_deletes_live(post),
{
    let ps = pre.player_slot as int;
    assert forall|j: int| 0 <= j < post.alive.len() && !post.alive[j] implies comp_free(
        post,
        j,
    ) by {
        assert(comp_free(pre, j));
        assert(j != s);
    }
    assert(player_ok(post));
    assert forall|j: int| 0 <= j < post.gens.len() && post.alive[j] implies #[trigger] comp_ok(
        post,
        j,
    ) by {
        if j != s {
            assert(comp_ok(pre, j));
            assert(age_of(post, j) == age_of(pre, j));
        }
    }
    assert(wf_core(post));
    assert forall|j: int|
        0 <= j < post.gens.len() && post.alive[j] && #[trigger] post.rend[j] is Some implies
        synced(post, j) && rect_settled(post, j) by {
        assert(pre.rend[j] is Some);
    }
    assert(settled(post));
    assert forall|j: int| 0 <= j < post.queue.len() implies #[trigger] op_ok(
        post,
        post.queue,
        j,
    ) by {
        if j < pre.queue.len() {
            assert(post.queue[j] == pre.queue[j]);
            assert(op_ok(pre, pre.queue, j));
            match pre.queue[j] {
                Op::Create(h2, b2) => {
                    assert(comp_free(pre, h2.slot as int));
                    assert(h2.slot != s);
                    assert(comp_free(post, h2.slot as int));
                    assert forall|j2: int|
                        0 <= j2 < post.queue.len() && j2 != j implies match #[trigger] post.queue[j2] {
                        Op::Create(h3, _) => h3.slot != h2.slot,
                        _ => true,
                    } by {
                        if j2 < pre.queue.len() {
                            assert(post.queue[j2] == pre.queue[j2]);
                        }
                    }
                },
                Op::Remove(h2, k) => {
                },
                Op::Delete(h2) => {
                    if live_v(post, h2) {
                        assert(!comp_free(pre, h2.slot as int));
                        assert(!comp_free(post, h2.slot as int));
                    }
                },
            }
        }
    }
    assert(queue_ok(post));
    assert forall|j: int|
        0 <= j < post.gens.len() && post.alive[j] && #[trigger] post.osc[j] is Some implies (
    post.osc[j]->Some_0.0 >= 1 || remove_osc_queued(post, post.queue, j)) by {
        if j != s {
            assert(post.osc[j] == pre.osc[j]);
            assert(pre.osc[j] is Some);
            if pre.osc[j]->Some_0.0 < 1 {
                let k = choose|k: int|
                    0 <= k < pre.queue.len() && pre.queue[k] == Op::Remove(
                        handle_for(pre, j),
                        CompKind::Osc,
                    );
                assert(post.queue[k] == Op::Remove(handle_for(post, j), CompKind::Osc));
                assert(remove_osc_queued(post, post.queue, j));
            }
        }
    }
    assert(osc_ok(post));
    assert forall|j: int| 0 <= j < post.queue.len() implies match #[trigger] post.queue[j] {
        Op::Delete(h2) => live_v(post, h2),
        _ => true,
    } by {
        if j < pre.queue.len() {
            assert(post.queue[j] == pre.queue[j]);
        }
    }
    assert(queue_deletes_live(post));
}

/// Advances every baddy's age, runs the Noob oscillation/firing branch and
/// the Waver cascade/arc branch, slot by slot.
pub struct BaddyActions;

impl BaddyActions {
    #[verifier::rlimit(100)]
    pub fn run(&mut self, w: &mut World)
        requires
            wf_core(old(w)@),
            settled(old(w)@),
            queue_ok(old(w)@),
            osc_ok(old(w)@),
            queue_deletes_live(old(w)@),
            oscs_fresh(old(w)@),
            ages_fresh(old(w)@),
        ensures
            behavior_rel(old(w)@, final(w)@),
            wf_core(final(w)@),
            settled(final(w)@),
            queue_ok(final(w)@),
            osc_ok(final(w)@),
            queue_deletes_live(final(w)@),
            final(w)@.frames == old(w)@.frames,
            final(w)@.player_slot == old(w)@.player_slot,
    {
        let ghost pre = w@;
        let ghost mut tr: Seq<WorldV> = seq![pre];
        let n0 = w.num_slots();
        let mut i: usize = 0;
        while i < n0
            invariant
                wf_core(pre),
                settled(pre),
                queue_ok(pre),
                osc_ok(pre),
                queue_deletes_live(pre),
                oscs_fresh(pre),
                ages_fresh(pre),
                n0 == pre.gens.len(),
                i <= n0,
                wf_core(w@),
                settled(w@),
                queue_ok(w@),
                osc_ok(w@),
                queue_deletes_live(w@),
                behavior_chain(pre, w@, tr, i as int),
                w@.frames == pre.frames,
                w@.player_slot == pre.player_slot,
                w@.gens.len() >= n0,
                forall|j: int|
                    i <= j < n0 ==> w@.baddy[j] == pre.baddy[j] && w@.osc[j] == pre.osc[j]
                        && w@.vel[j] == pre.vel[j] && w@.noob[j] == pre.noob[j] && w@.waver[j]
                        == pre.waver[j] && w@.pos[j] == pre.pos[j] && w@.rend[j] == pre.rend[j],
            decreases n0 - i,
        {
            let s = i;
            let ghost cur0 = w@;
            proof {
                if !pre.alive[s as int] {
                    assert(comp_free(pre, s as int));
                }
            }

            // Phase 1 at this slot: the baddy's age advances by one.
            if w.reg.alive[s] && w.baddy[s].is_some() {
                let bd = w.baddy[s].unwrap();
                proof {
                    assert(w@.baddy[s as int] == pre.baddy[s as int]);
                    assert(pre.alive[s as int]);
                    assert(bd.age <= pre.frames);
                    assert(comp_ok(cur0, s as int));
                    assert(!comp_free(cur0, s as int));
                    assert(cur0.baddy[s as int] is Some ==> s != cur0.player_slot);
                }
                w.baddy.set(s, Some(Baddy { age: bd.age + 1, health: bd.health, score: bd.score }));
                proof {
                    assert(w@ =~= (WorldV {
                        baddy: cur0.baddy.update(
                            s as int,
                            Some(
                                Baddy {
                                    age: (cur0.baddy[s as int]->Some_0.age + 1) as u64,
                                    ..cur0.baddy[s as int]->Some_0
                                },
                            ),
                        ),
                        ..cur0
                    }));
                    assert(comp_ok(w@, s as int)) by {
                        assert(comp_ok(cur0, s as int));
                        assert(age_of(w@, s as int) == age_of(cur0, s as int) + 1);
                    }
                    lemma_behavior_slot_update(cur0, w@, s as int);
                }
            }
            let ghost v1 = w@;
            proof {
                assert(v1 == aged_slot(cur0, s as int));
            }

            // Phase 2 at this slot: the Noob branch.
            if w.reg.alive[s] && w.noob[s] && w.baddy[s].is_some() && w.osc[s].is_some()
                && w.pos[s].is_some() && w.vel[s].is_some() {
                let bd2 = w.baddy[s].unwrap();
                let oscs = w.osc[s].unwrap();
                let p = w.pos[s].unwrap();
                let vl = w.vel[s].unwrap();
                proof {
                    assert(noob_joins(v1, s as int));
                    assert(comp_ok(v1, s as int));
                    assert(-4 <= vl.x <= 4);
                    assert(vl.y == 0);
                    assert(v1.osc[s as int] == pre.osc[s as int]);
                    assert(pre.alive[s as int]) by {
                        if !pre.alive[s as int] {
                            assert(comp_free(pre, s as int));
                        }
                    }
                    assert(oscs.0 >= 1);
                    assert(s != v1.player_slot);
                }
                let nvx: i64 = if p.x < GAME_WIDTH / 5 {
                    if vl.x < 0 {
                        -vl.x
                    } else {
                        vl.x
                    }
                } else if p.x > GAME_WIDTH * 4 / 5 {
                    if vl.x < 0 {
                        vl.x
                    } else {
                        -vl.x
                    }
                } else {
                    vl.x
                };
                proof {
                    assert(nvx == noob_new_vx(p.x, vl.x));
                    assert(-4 <= nvx <= 4);
                }
                let flipped = (vl.x >= 0) != (nvx >= 0);
                let nflips: u8 = if flipped {
                    oscs.0 - 1
                } else {
                    oscs.0
                };
                proof {
                    assert(flipped == noob_flipped(vl.x, nvx));
                    assert(!comp_free(v1, s as int));
                }
                w.vel.set(s, Some(Velocity { x: nvx, y: vl.y }));
                if flipped {
                    w.osc.set(s, Some(crate::components::Oscillates(nflips)));
                }
                let ghost va = w@;
                proof {
                    assert(va =~= (WorldV {
                        vel: v1.vel.update(s as int, Some(Velocity { x: nvx, y: vl.y })),
                        osc: if flipped {
                            v1.osc.update(s as int, Some(crate::components::Oscillates(nflips)))
                        } else {
                            v1.osc
                        },
                        ..v1
                    }));
                }
                if flipped && nflips == 0 {
                    let hh = EntityHandle { slot: s, gen: w.reg.gens[s] };
                    w.enqueue(Op::Remove(hh, CompKind::Osc));
                    proof {
                        assert(hh == handle_for(v1, s as int));
                        assert(w@.queue[va.queue.len() as int] == Op::Remove(
                            handle_for(v1, s as int),
                            CompKind::Osc,
                        ));
                    }
                }
                let ghost v2 = w@;
                proof {
                    assert(v2 =~= (if flipped && nflips == 0 {
                        WorldV {
                            queue: va.queue.push(Op::Remove(handle_for(v1, s as int), CompKind::Osc)),
                            ..va
                        }
                    } else {
                        va
                    }));
                    let xr = v1.pos[s as int]->Some_0.x;
                    let vxr = v1.vel[s as int]->Some_0.x;
                    let vyr = v1.vel[s as int]->Some_0.y;
                    let fr = v1.osc[s as int]->Some_0.0;
                    let nvxr = noob_new_vx(xr, vxr);
                    let flippedr = noob_flipped(vxr, nvxr);
                    let nflipsr: u8 = if flippedr {
                        (fr - 1) as u8
                    } else {
                        fr
                    };
                    assert(nvxr == nvx && flippedr == flipped && nflipsr == nflips);
                    let v1r = WorldV {
                        vel: v1.vel.update(s as int, Some(Velocity { x: nvxr, y: vyr })),
                        osc: if flippedr {
                            v1.osc.update(s as int, Some(crate::components::Oscillates(nflipsr)))
                        } else {
                            v1.osc
                        },
                        ..v1
                    };
                    assert(va == v1r);
                    let v2r = if flippedr && nflipsr == 0 {
                        WorldV {
                            queue: v1r.queue.push(Op::Remove(handle_for(v1, s as int), CompKind::Osc)),
                            ..v1r
                        }
                    } else {
                        v1r
                    };
                    assert(v2 == v2r);
                    assert(v2 == (WorldV {
                        baddy: v2.baddy,
                        osc: v2.osc,
                        vel: v2.vel,
                        queue: v2.queue,
                        ..v1
                    }));
                    assert(comp_ok(v2, s as int)) by {
                        assert(age_of(v2, s as int) == age_of(v1, s as int));
                    }
                    if v2.osc[s as int] is Some && v2.osc[s as int]->Some_0.0 < 1 {
                        assert(flipped && nflips == 0);
                        assert(v2.queue[v2.queue.len() - 1] == Op::Remove(
                            handle_for(v2, s as int),
                            CompKind::Osc,
                        ));
                        assert(remove_osc_queued(v2, v2.queue, s as int));
                    }
                    lemma_behavior_slot_update(v1, v2, s as int);
                }
                if bd2.age % 15 == 0 {
                    let e = w.create_entity();
                    let ghost w2 = w@;
                    create_noob_projectile(w, e, p);
                    proof {
                        assert(synced(v1, s as int) && rect_settled(v1, s as int));
                        assert(-20 <= p.x <= 400);
                        assert(0 <= p.y < 300);
                        let drift = choose|drift: i64|
                            0 <= drift < 2 && w@ == (WorldV {
                                queue: w2.queue.push(
                                    Op::Create(e, #[trigger] noob_proj_batch(noob_proj_pos(p), drift)),
                                ),
                                ..w2
                            });
                        assert(noob_proj_shape(noob_proj_batch(noob_proj_pos(p), drift)));
                        lemma_spawn_append(v2, w2, e, noob_proj_batch(noob_proj_pos(p), drift));
                        assert(created(v2, w2, e));
                        assert(p == v1.pos[s as int]->Some_0);
                        assert(noob_fire_rel(v2, w@, p));
                        assert(noob_slot_rel(v1, w@, s as int));
                    }
                } else {
                    proof {
                        assert(noob_slot_rel(v1, w@, s as int));
                    }
                }
            } else {
                proof {
                    assert(!noob_joins(v1, s as int));
                    assert(noob_slot_rel(v1, w@, s as int));
                }
            }
            let ghost v2n = w@;

            // Phase 3 at this slot: the Waver branch.
            if w.reg.alive[s] && w.waver[s].is_some() && w.baddy[s].is_some()
                && w.vel[s].is_some() {
                let wv = w.waver[s].unwrap();
                let bd3 = w.baddy[s].unwrap();
                let vl3 = w.vel[s].unwrap();
                proof {
                    assert(waver_joins(v2n, s as int));
                    assert(comp_ok(v2n, s as int));
                    assert(waver_shape(wv));
                    assert(s != v2n.player_slot);
                }
                if bd3.age == 15 && wv.rank > 0 {
                    let e = w.create_entity();
                    let ghost w2 = w@;
                    create_waver_baddy(w, e, Some(wv));
                    proof {
                        assert(waver_batch_shape(waver_batch((wv.rank - 1) as u64, wv.pos, wv.vel)));
                        lemma_spawn_append(v2n, w2, e, waver_batch((wv.rank - 1) as u64, wv.pos, wv.vel));
                        assert(created(v2n, w2, e));
                        assert(w@ == (WorldV {
                            queue: w2.queue.push(
                                Op::Create(e, waver_batch((wv.rank - 1) as u64, wv.pos, wv.vel)),
                            ),
                            ..w2
                        }));
                    }
                }
                let ghost midw = w@;
                if bd3.age % 8 == 0 {
                    proof {
                        assert(midw.vel[s as int] == v2n.vel[s as int]);
                        assert(v2n.vel[s as int] == pre.vel[s as int]) by {
                            assert(v2n.waver[s as int] is Some);
                            assert(comp_ok(v2n, s as int));
                            assert(!v2n.noob[s as int]);
                        }
                        assert(v2n.baddy[s as int]->Some_0.age == pre.baddy[s as int]->Some_0.age
                            + 1);
                        assert(comp_ok(pre, s as int));
                        assert(pre.alive[s as int]) by {
                            if !pre.alive[s as int] {
                                assert(comp_free(pre, s as int));
                            }
                        }
                        assert(vl3.y >= -8 - age_of(pre, s as int));
                    }
                    proof {
                        assert(!comp_free(midw, s as int));
                    }
                    w.vel.set(s, Some(Velocity { x: vl3.x, y: vl3.y - 1 }));
                    proof {
                        assert(w@ =~= (WorldV {
                            vel: midw.vel.update(
                                s as int,
                                Some(Velocity { x: vl3.x, y: (vl3.y - 1) as i64 }),
                            ),
                            ..midw
                        }));
                        assert(w@ == (WorldV {
                            baddy: w@.baddy,
                            osc: w@.osc,
                            vel: w@.vel,
                            queue: w@.queue,
                            ..midw
                        }));
                        assert(comp_ok(w@, s as int)) by {
                            assert(age_of(w@, s as int) == age_of(midw, s as int));
                            assert(age_of(midw, s as int) == age_of(pre, s as int) + 1);
                        }
                        lemma_behavior_slot_update(midw, w@, s as int);
                    }
                }
                proof {
                    assert(w@ == waver_vy_step(
                        midw,
                        s as int,
                        bd3.age,
                        vl3.x,
                        vl3.y,
                    ));
                    assert(bd3.age == v2n.baddy[s as int]->Some_0.age);
                    assert(vl3.x == v2n.vel[s as int]->Some_0.x);
                    assert(vl3.y == v2n.vel[s as int]->Some_0.y);
                    assert(waver_slot_rel(v2n, w@, s as int));
                }
            } else {
                proof {
                    assert(!waver_joins(v2n, s as int));
                    assert(waver_slot_rel(v2n, w@, s as int));
                }
            }

            proof {
                assert(noob_slot_rel(aged_slot(cur0, s as int), v2n, s as int));
                assert(behavior_slot_rel(cur0, w@, s as int));
                tr = tr.push(w@);
                assert forall|j: int| 0 <= j < s as int + 1 implies #[trigger] behavior_slot_rel(
                    tr[j],
                    tr[j + 1],
                    j,
                ) by {
                    if j < s as int {
                        assert(tr[j] == tr.drop_last()[j] && tr[j + 1] == tr.drop_last()[j + 1]);
                    } else {
                        assert(tr[j] == cur0 && tr[j + 1] == w@);
                    }
                }
                assert(behavior_chain(pre, w@, tr, s as int + 1));
                assert forall|j: int|
                    i + 1 <= j < n0 implies w@.baddy[j] == pre.baddy[j] && w@.osc[j] == pre.osc[j]
                    && w@.vel[j] == pre.vel[j] && w@.noob[j] == pre.noob[j] && w@.waver[j]
                    == pre.waver[j] && w@.pos[j] == pre.pos[j] && w@.rend[j] == pre.rend[j] by {
                    assert(cur0.baddy[j] == pre.baddy[j]);
                }
            }
            i += 1;
        }
        proof {
            assert(behavior_chain(pre, w@, tr, pre.gens.len() as int));
        }
    }
}


/// Saturating score addition: the score never wraps.
pub open spec fn sat_add_u32(a: u32, b: u32) -> u32 {
    if a + b > u32::MAX {
        u32::MAX
    } else {
        (a + b) as u32
    }
}

/// Does the collision pass consider this slot a target: a live baddy with
/// position and geometry.
pub open spec fn baddy_joined(v: WorldV, b: int) -> bool {
    &&& v.alive[b]
    &&& v.baddy[b] is Some
    &&& v.pos[b] is Some
    &&& v.rend[b] is Some
}

/// Does the collision pass consider this slot a damager of enemies: a live
/// entity marked as damaging enemies, with geometry.
pub open spec fn damager_joined(v: WorldV, d: int) -> bool {
    &&& v.alive[d]
    &&& v.dam_b[d]
    &&& v.rend[d] is Some
}

/// The tail of a kill: a score popup is buffered at the fallen baddy's
/// position from a fresh entity, then the baddy's deletion, then the
/// damager's.
pub open spec fn kill_tail_rel(
    pre: WorldV,
    post: WorldV,
    b: int,
    d: int,
    pos: Position,
    score: u32,
) -> bool {
    exists|w2: WorldV, h: EntityHandle|
        {
            &&& #[trigger] created(pre, w2, h)
            &&& post == (WorldV {
                queue: w2.queue.push(Op::Create(h, popup_batch(pos, score, pre.frames))).push(
                    Op::Delete(handle_for(pre, b)),
                ).push(Op::Delete(handle_for(pre, d))),
                ..w2
            })
        }
}

/// One baddy/damager pair of the collision pass. On overlap, a baddy with
/// health left loses one; reaching zero scores, buffers a popup and the
/// baddy's deletion. The damager is always buffered for deletion on any
/// overlap, kill or not: a projectile is consumed on its first hit.
pub open spec fn pair_rel(pre: WorldV, post: WorldV, b: int, d: int) -> bool {
    if baddy_joined(pre, b) && damager_joined(pre, d) && overlaps_spec(
        pre.rend[b]->Some_0.area,
        pre.rend[d]->Some_0.area,
    ) {
        let bd = pre.baddy[b]->Some_0;
        if bd.health == 1 {
            kill_tail_rel(
                WorldV {
                    baddy: pre.baddy.update(b, Some(Baddy { health: 0, ..bd })),
                    score: sat_add_u32(pre.score, bd.score),
                    ..pre
                },
                post,
                b,
                d,
                pre.pos[b]->Some_0,
                bd.score,
            )
        } else if bd.health > 1 {
            post == (WorldV {
                baddy: pre.baddy.update(b, Some(Baddy { health: (bd.health - 1) as u64, ..bd })),
                queue: pre.queue.push(Op::Delete(handle_for(pre, d))),
                ..pre
            })
        } else {
            post == (WorldV { queue: pre.queue.push(Op::Delete(handle_for(pre, d))), ..pre })
        }
    } else {
        post == pre
    }
}

/// A trace of one baddy's inner sweep over all damager slots.
pub open spec fn inner_chain(pre: WorldV, post: WorldV, tr: Seq<WorldV>, b: int, k: int) -> bool {
    &&& tr.len() == k + 1
    &&& 0 <= k
    &&& tr[0] == pre
    &&& tr[k] == post
    &&& forall|j: int| 0 <= j < k ==> #[trigger] pair_rel(tr[j], tr[j + 1], b, j)
}

/// One baddy's inner sweep over the first `n` damager slots.
pub open spec fn inner_rel(pre: WorldV, post: WorldV, b: int, n: int) -> bool {
    exists|tr: Seq<WorldV>| #[trigger] inner_chain(pre, post, tr, b, n)
}

/// A trace of the outer sweep over all baddy slots.
pub open spec fn outer_chain(
    pre: WorldV,
    post: WorldV,
    tr: Seq<WorldV>,
    k: int,
    n: int,
) -> bool {
    &&& tr.len() == k + 1
    &&& 0 <= k
    &&& tr[0] == pre
    &&& tr[k] == post
    &&& forall|j: int| 0 <= j < k ==> #[trigger] inner_rel(tr[j], tr[j + 1], j, n)
}

/// The sweep of entities that damage the player, in slot order: each one
/// overlapping the player's rectangle costs one health (floored at zero)
/// and is buffered for deletion.
pub open spec fn player_hits_fold(v: WorldV, parea: Rect, n: int) -> WorldV
    decreases n,
{
    if n <= 0 {
        v
    } else {
        let w = player_hits_fold(v, parea, n - 1);
        let s = n - 1;
        if w.alive[s] && w.dam_p[s] && w.rend[s] is Some && overlaps_spec(
            w.rend[s]->Some_0.area,
            parea,
        ) {
            WorldV {
                health: if w.health > 0 {
                    (w.health - 1) as u32
                } else {
                    w.health
                },
                queue: w.queue.push(Op::Delete(handle_for(w, s))),
                ..w
            }
        } else {
            w
        }
    }
}

/// The player-hit sweep changes only the health and the queue.
pub proof fn lemma_player_hits_frame(v: WorldV, parea: Rect, n: int)
    ensures
        player_hits_fold(v, parea, n) == (WorldV {
            health: player_hits_fold(v, parea, n).health,
            queue: player_hits_fold(v, parea, n).queue,
            ..v
        }),
    decreases n,
{
    if n > 0 {
        lemma_player_hits_frame(v, parea, n - 1);
    }
}

/// The whole collision pass: the pairwise baddy sweep against damagers of
/// enemies, then the sweep of damagers of the player against the player's
/// rectangle, read once at the start.
pub open spec fn collision_rel(pre: WorldV, post: WorldV) -> bool {
    let n = pre.gens.len() as int;
    let parea = pre.rend[pre.player_slot as int]->Some_0.area;
    exists|m: WorldV, tr: Seq<WorldV>|
        #[trigger] outer_chain(pre, m, tr, n, n) && post == player_hits_fold(m, parea, n)
}

/// A point update of the collision pass: one baddy slot's health may
/// change (its age and presence never do), the score and health resources
/// may change, and deletions of live, non-player, component-bearing slots
/// may be buffered. Every mid-tick invariant survives.
#[verifier::rlimit(100)]
pub proof fn lemma_collision_update(pre: WorldV, post: WorldV, b: int, extra: Seq<Op>)
    requires
        wf_core(pre),
        moved(pre),
        queue_ok(pre),
        osc_ok(pre),
        queue_deletes_live(pre),
        post == (WorldV {
            baddy: post.baddy,
            score: post.score,
            health: post.health,
            queue: post.queue,
            ..pre
        }),
        post.baddy.len() == pre.baddy.len(),
        forall|j: int| 0 <= j < pre.baddy.len() && j != b ==> post.baddy[j] == pre.baddy[j],
        0 <= b < pre.baddy.len() ==> {
            &&& (post.baddy[b] is Some <==> pre.baddy[b] is Some)
            &&& (pre.baddy[b] is Some ==> post.baddy[b]->Some_0.age == pre.baddy[b]->Some_0.age)
        },
        post.queue == pre.queue + extra,
        forall|j: int|
            0 <= j < extra.len() ==> match #[trigger] extra[j] {
                Op::Delete(h) => live_v(pre, h) && h.slot != pre.player_slot && !comp_free(
                    pre,
                    h.slot as int,
                ),
                _ => false,
            },
    ensures
        wf_core(post),
        moved(post),
        queue_ok(post),
        osc_ok(post),
        queue_deletes_live(post),
{
    let ps = pre.player_slot as int;
    assert forall|j: int| 0 <= j < post.alive.len() && !post.alive[j] implies comp_free(
        post,
        j,
    ) by {
        assert(comp_free(pre, j));
        if 0 <= j < pre.baddy.len() && j != b {
            assert(post.baddy[j] == pre.baddy[j]);
        }
    }
    assert(player_ok(post));
    assert forall|j: int| 0 <= j < post.gens.len() && post.alive[j] implies #[trigger] comp_ok(
        post,
        j,
    ) by {
        assert(comp_ok(pre, j));
        assert(age_of(post, j) == age_of(pre, j));
    }
    assert(wf_core(post));
    assert forall|j: int|
        0 <= j < post.gens.len() && post.alive[j] && #[trigger] post.rend[j] is Some implies
        synced(post, j) && rect_mid(post, j) && (rect_settled(post, j) || delete_queued(
        post,
        post.queue,
        j,
    )) by {
        assert(pre.rend[j] is Some);
        if !rect_settled(pre, j) {
            let k = choose|k: int|
                0 <= k < pre.queue.len() && pre.queue[k] == Op::Delete(handle_for(pre, j));
            assert(post.queue[k] == Op::Delete(handle_for(post, j)));
            assert(delete_queued(post, post.queue, j));
        }
    }
    assert(moved(post));
    assert forall|j: int| 0 <= j < post.queue.len() implies #[trigger] op_ok(
        post,
        post.queue,
        j,
    ) by {
        if j < pre.queue.len() {
            assert(post.queue[j] == pre.queue[j]);
            assert(op_ok(pre, pre.queue, j));
            match pre.queue[j] {
                Op::Create(h2, b2) => {
                    assert(comp_free(pre, h2.slot as int));
                    assert(comp_free(post, h2.slot as int)) by {
                        if 0 <= h2.slot as int && h2.slot as int != b {
                            assert(post.baddy[h2.slot as int] == pre.baddy[h2.slot as int]);
                        }
                    }
                    assert forall|j2: int|
                        0 <= j2 < post.queue.len() && j2 != j implies match #[trigger] post.queue[j2] {
                        Op::Create(h3, _) => h3.slot != h2.slot,
                        _ => true,
                    } by {
                        if j2 < pre.queue.len() {
                            assert(post.queue[j2] == pre.queue[j2]);
                        } else {
                            assert(post.queue[j2] == extra[j2 - pre.queue.len()]);
                        }
                    }
                },
                Op::Remove(h2, k) => {
                },
                Op::Delete(h2) => {
                    if live_v(post, h2) {
                        assert(!comp_free(pre, h2.slot as int));
                        assert(!comp_free(post, h2.slot as int)) by {
                            if h2.slot as int != b {
                                assert(post.baddy[h2.slot as int] == pre.baddy[h2.slot as int]);
                            }
                        }
                    }
                },
            }
        } else {
            assert(post.queue[j] == extra[j - pre.queue.len()]);
            match extra[j - pre.queue.len()] {
                Op::Delete(h2) => {
                    assert(live_v(pre, h2));
                    assert(!comp_free(pre, h2.slot as int));
                    assert(!comp_free(post, h2.slot as int)) by {
                        if h2.slot as int != b {
                            assert(post.baddy[h2.slot as int] == pre.baddy[h2.slot as int]);
                        }
                    }
                },
                _ => {
                },
            }
        }
    }
    assert(queue_ok(post));
    assert forall|s: int|
        0 <= s < post.gens.len() && post.alive[s] && #[trigger] post.osc[s] is Some implies (
    post.osc[s]->Some_0.0 >= 1 || remove_osc_queued(post, post.queue, s)) by {
        assert(post.osc[s] == pre.osc[s]);
        assert(pre.osc[s] is Some);
        if pre.osc[s]->Some_0.0 < 1 {
            let k = choose|k: int|
                0 <= k < pre.queue.len() && pre.queue[k] == Op::Remove(
                    handle_for(pre, s),
                    CompKind::Osc,
                );
            assert(post.queue[k] == Op::Remove(handle_for(post, s), CompKind::Osc));
            assert(remove_osc_queued(post, post.queue, s));
        }
    }
    assert(osc_ok(post));
    assert forall|j: int| 0 <= j < post.queue.len() implies match #[trigger] post.queue[j] {
        Op::Delete(h2) => live_v(post, h2),
        _ => true,
    } by {
        if j < pre.queue.len() {
            assert(post.queue[j] == pre.queue[j]);
        } else {
            assert(post.queue[j] == extra[j - pre.queue.len()]);
        }
    }
    assert(queue_deletes_live(post));
}


/// Pairwise collision resolution: every baddy is tested against every
/// enemy-damaging entity, then every player-damaging entity against the
/// player's rectangle, with health, score, popups and deletions buffered
/// as the spec fold describes.
pub struct CollisionSystem;

impl CollisionSystem {
    #[verifier::rlimit(100)]
    pub fn run(&mut self, w: &mut World)
        requires
            wf_core(old(w)@),
            moved(old(w)@),
            queue_ok(old(w)@),
            osc_ok(old(w)@),
            queue_deletes_live(old(w)@),
        ensures
            collision_rel(old(w)@, final(w)@),
            wf_core(final(w)@),
            moved(final(w)@),
            queue_ok(final(w)@),
            osc_ok(final(w)@),
            queue_deletes_live(final(w)@),
            final(w)@.frames == old(w)@.frames,
            final(w)@.player_slot == old(w)@.player_slot,
    {
        let ghost pre = w@;
        let n0 = w.num_slots();
        let ps = w.player_slot;
        let parea = w.rend[ps].unwrap().area;
        proof {
            assert(parea == pre.rend[pre.player_slot as int]->Some_0.area);
            assert(pre.alive[ps as int] && pre.rend[ps as int] is Some);
            assert(rect_mid(pre, ps as int));
            assert(comp_ok(pre, ps as int));
        }

        let ghost mut otr: Seq<WorldV> = seq![pre];
        let mut b: usize = 0;
        while b < n0
            invariant
                n0 == pre.gens.len(),
                b <= n0,
                wf_core(w@),
                moved(w@),
                queue_ok(w@),
                osc_ok(w@),
                queue_deletes_live(w@),
                outer_chain(pre, w@, otr, b as int, n0 as int),
                w@.gens.len() >= n0,
                w@.frames == pre.frames,
                w@.player_slot == pre.player_slot,
            decreases n0 - b,
        {
            let ghost bpre = w@;
            let ghost mut itr: Seq<WorldV> = seq![bpre];
            let mut d: usize = 0;
            while d < n0
                invariant
                    n0 == pre.gens.len(),
                    b < n0,
                    d <= n0,
                    wf_core(w@),
                    moved(w@),
                    queue_ok(w@),
                    osc_ok(w@),
                    queue_deletes_live(w@),
                    inner_chain(bpre, w@, itr, b as int, d as int),
                    w@.gens.len() >= n0,
                    w@.frames == pre.frames,
                    w@.player_slot == pre.player_slot,
                decreases n0 - d,
            {
                let ghost dpre = w@;
                if w.reg.alive[b] && w.baddy[b].is_some() && w.pos[b].is_some()
                    && w.rend[b].is_some() && w.reg.alive[d] && w.dam_b[d]
                    && w.rend[d].is_some() {
                    let br = w.rend[b].unwrap();
                    let dr = w.rend[d].unwrap();
                    proof {
                        assert(baddy_joined(dpre, b as int) && damager_joined(dpre, d as int));
                        assert(rect_mid(dpre, b as int) && rect_mid(dpre, d as int));
                        assert(comp_ok(dpre, b as int) && comp_ok(dpre, d as int));
                        assert(b as int != dpre.player_slot && d as int != dpre.player_slot);
                        assert(i64::MIN <= br.area.x && br.area.x + br.area.w <= i64::MAX);
                        assert(i64::MIN <= br.area.y && br.area.y + br.area.h <= i64::MAX);
                        assert(i64::MIN <= dr.area.x && dr.area.x + dr.area.w <= i64::MAX);
                        assert(i64::MIN <= dr.area.y && dr.area.y + dr.area.h <= i64::MAX);
                    }
                    if br.area.overlaps(&dr.area) {
                        let bd = w.baddy[b].unwrap();
                        if bd.health > 0 {
                            let nh = bd.health - 1;
                            w.baddy.set(b, Some(Baddy { age: bd.age, health: nh, score: bd.score }));
                            if nh == 0 {
                                let sc = w.score.0;
                                let ns: u32 = if sc > u32::MAX - bd.score {
                                    u32::MAX
                                } else {
                                    sc + bd.score
                                };
                                w.score = PlayerScore(ns);
                                proof {
                                    assert(ns == sat_add_u32(dpre.score, bd.score));
                                    assert(w@ =~= (WorldV {
                                        baddy: dpre.baddy.update(
                                            b as int,
                                            Some(Baddy { health: 0, ..bd }),
                                        ),
                                        score: sat_add_u32(dpre.score, bd.score),
                                        ..dpre
                                    }));
                                    assert(w@.queue =~= dpre.queue + Seq::<Op>::empty());
                                    lemma_collision_update(dpre, w@, b as int, Seq::empty());
                                }
                                let ghost vs = w@;
                                let e = w.create_entity();
                                let ghost w2 = w@;
                                let bpos = w.pos[b].unwrap();
                                let frames_now = w.frames.0;
                                create_score_popup(w, e, bpos, bd.score, frames_now);
                                proof {
                                    assert(popup_shape(popup_batch(bpos, bd.score, frames_now)));
                                    lemma_spawn_append(
                                        vs,
                                        w2,
                                        e,
                                        popup_batch(bpos, bd.score, frames_now),
                                    );
                                }
                                let ghost w3 = w@;
                                let hb = EntityHandle { slot: b, gen: w.reg.gens[b] };
                                w.enqueue(Op::Delete(hb));
                                let hd = EntityHandle { slot: d, gen: w.reg.gens[d] };
                                w.enqueue(Op::Delete(hd));
                                proof {
                                    assert(hb == handle_for(vs, b as int));
                                    assert(hd == handle_for(vs, d as int));
                                    assert(w@ =~= (WorldV {
                                        queue: w3.queue.push(Op::Delete(hb)).push(Op::Delete(hd)),
                                        ..w3
                                    }));
                                    assert(w@.queue =~= w3.queue + seq![
                                        Op::Delete(hb),
                                        Op::Delete(hd),
                                    ]);
                                    assert(live_v(w3, hb) && live_v(w3, hd));
                                    assert(!comp_free(w3, b as int) && !comp_free(w3, d as int));
                                    lemma_collision_update(
                                        w3,
                                        w@,
                                        b as int,
                                        seq![Op::Delete(hb), Op::Delete(hd)],
                                    );
                                    assert(w@ == (WorldV {
                                        queue: w2.queue.push(
                                            Op::Create(e, popup_batch(bpos, bd.score, vs.frames)),
                                        ).push(Op::Delete(handle_for(vs, b as int))).push(
                                            Op::Delete(handle_for(vs, d as int)),
                                        ),
                                        ..w2
                                    }));
                                    assert(created(vs, w2, e));
                                    assert(bpos == dpre.pos[b as int]->Some_0);
                                    assert(kill_tail_rel(
                                        vs,
                                        w@,
                                        b as int,
                                        d as int,
                                        dpre.pos[b as int]->Some_0,
                                        bd.score,
                                    ));
                                    assert(pair_rel(dpre, w@, b as int, d as int));
                                }
                            } else {
                                let hd = EntityHandle { slot: d, gen: w.reg.gens[d] };
                                w.enqueue(Op::Delete(hd));
                                proof {
                                    assert(hd == handle_for(dpre, d as int));
                                    assert(w@ =~= (WorldV {
                                        baddy: dpre.baddy.update(
                                            b as int,
                                            Some(Baddy { health: (bd.health - 1) as u64, ..bd }),
                                        ),
                                        queue: dpre.queue.push(Op::Delete(handle_for(dpre, d as int))),
                                        ..dpre
                                    }));
                                    assert(w@.queue =~= dpre.queue + seq![Op::Delete(hd)]);
                                    lemma_collision_update(
                                        dpre,
                                        w@,
                                        b as int,
                                        seq![Op::Delete(hd)],
                                    );
                                    assert(pair_rel(dpre, w@, b as int, d as int));
                                }
                            }
                        } else {
                            let hd = EntityHandle { slot: d, gen: w.reg.gens[d] };
                            w.enqueue(Op::Delete(hd));
                            proof {
                                assert(hd == handle_for(dpre, d as int));
                                assert(w@ =~= (WorldV {
                                    queue: dpre.queue.push(Op::Delete(handle_for(dpre, d as int))),
                                    ..dpre
                                }));
                                assert(w@.queue =~= dpre.queue + seq![Op::Delete(hd)]);
                                lemma_collision_update(dpre, w@, b as int, seq![Op::Delete(hd)]);
                                assert(pair_rel(dpre, w@, b as int, d as int));
                            }
                        }
                    } else {
                        proof {
                            assert(pair_rel(dpre, w@, b as int, d as int));
                        }
                    }
                } else {
                    proof {
                        assert(!(baddy_joined(dpre, b as int) && damager_joined(dpre, d as int)));
                        assert(pair_rel(dpre, w@, b as int, d as int));
                    }
                }
                proof {
                    itr = itr.push(w@);
                    assert forall|j: int| 0 <= j < d as int + 1 implies #[trigger] pair_rel(
                        itr[j],
                        itr[j + 1],
                        b as int,
                        j,
                    ) by {
                        if j < d as int {
                            assert(itr[j] == itr.drop_last()[j] && itr[j + 1] == itr.drop_last()[j
                                + 1]);
                        } else {
                            assert(itr[j] == dpre && itr[j + 1] == w@);
                        }
                    }
                    assert(inner_chain(bpre, w@, itr, b as int, d as int + 1));
                }
                d += 1;
            }
            proof {
                assert(inner_chain(bpre, w@, itr, b as int, n0 as int));
                assert(inner_rel(bpre, w@, b as int, n0 as int));
                otr = otr.push(w@);
                assert forall|j: int| 0 <= j < b as int + 1 implies #[trigger] inner_rel(
                    otr[j],
                    otr[j + 1],
                    j,
                    n0 as int,
                ) by {
                    if j < b as int {
                        assert(otr[j] == otr.drop_last()[j] && otr[j + 1] == otr.drop_last()[j + 1]);
                    } else {
                        assert(otr[j] == bpre && otr[j + 1] == w@);
                    }
                }
                assert(outer_chain(pre, w@, otr, b as int + 1, n0 as int));
            }
            b += 1;
        }
        let ghost m = w@;
        proof {
            assert(outer_chain(pre, m, otr, n0 as int, n0 as int));
        }

        let mut d: usize = 0;
        while d < n0
            invariant
                n0 == pre.gens.len(),
                d <= n0,
                wf_core(w@),
                moved(w@),
                queue_ok(w@),
                osc_ok(w@),
                queue_deletes_live(w@),
                w@ == player_hits_fold(m, parea, d as int),
                w@.gens.len() >= n0,
                w@.frames == pre.frames,
                w@.player_slot == pre.player_slot,
                i64::MIN <= parea.x && parea.x + parea.w <= i64::MAX,
                i64::MIN <= parea.y && parea.y + parea.h <= i64::MAX,
                0 <= parea.w <= 20 && 0 <= parea.h <= 20,
            decreases n0 - d,
        {
            let ghost dpre = w@;
            if w.reg.alive[d] && w.dam_p[d] && w.rend[d].is_some() {
                let dr = w.rend[d].unwrap();
                proof {
                    assert(dpre.alive[d as int] && dpre.rend[d as int] is Some);
                    assert(rect_mid(dpre, d as int));
                    assert(comp_ok(dpre, d as int));
                    assert(i64::MIN <= dr.area.x && dr.area.x + dr.area.w <= i64::MAX);
                    assert(i64::MIN <= dr.area.y && dr.area.y + dr.area.h <= i64::MAX);
                }
                if dr.area.overlaps(&parea) {
                    if w.health.0 > 0 {
                        let nh = w.health.0 - 1;
                        w.health = PlayerHealth(nh);
                    }
                    let hd = EntityHandle { slot: d, gen: w.reg.gens[d] };
                    w.enqueue(Op::Delete(hd));
                    proof {
                        assert(hd == handle_for(dpre, d as int));
                        assert(w@ =~= (WorldV {
                            health: if dpre.health > 0 {
                                (dpre.health - 1) as u32
                            } else {
                                dpre.health
                            },
                            queue: dpre.queue.push(Op::Delete(handle_for(dpre, d as int))),
                            ..dpre
                        }));
                        assert(w@.queue =~= dpre.queue + seq![Op::Delete(hd)]);
                        lemma_collision_update(dpre, w@, 0, seq![Op::Delete(hd)]);
                        assert(w@ == player_hits_fold(m, parea, d as int + 1));
                    }
                } else {
                    proof {
                        assert(w@ == player_hits_fold(m, parea, d as int + 1));
                    }
                }
            } else {
                proof {
                    assert(w@ == player_hits_fold(m, parea, d as int + 1));
                }
            }
            d += 1;
        }
        proof {
            assert(w@ == player_hits_fold(m, parea, n0 as int));
            assert(collision_rel(pre, w@));
        }
    }
}


/// Movement clamp law: whatever position and velocity the player has, after
/// the movement pass its position satisfies
/// 0 <= x <= GAME_WIDTH - PLAYER_SIZE and 0 <= y <= GAME_HEIGHT - PLAYER_SIZE.
pub proof fn lemma_player_clamp(pre: WorldV)
    requires
        lens_ok(pre),
        pre.player_slot < pre.gens.len(),
        pre.pos[pre.player_slot as int] is Some,
    ensures
        ({
            let ps = pre.player_slot as int;
            let m = movement_v(pre);
            &&& m.pos[ps] is Some
            &&& 0 <= m.pos[ps]->Some_0.x <= GAME_WIDTH - PLAYER_SIZE
            &&& 0 <= m.pos[ps]->Some_0.y <= GAME_HEIGHT - PLAYER_SIZE
        }),
{
    let ps = pre.player_slot as int;
    let v1 = integrate_all(pre);
    assert(v1.pos[ps] is Some);
    let v2 = clamp_player_v(v1);
    assert(v2.pos[ps] is Some);
    assert(movement_v(pre).pos == v2.pos);
}

/// One step of a Noob's oscillation bookkeeping, given the x position seen
/// that tick: while the budget is present, the reflective boundary may flip
/// the direction; a flip spends one unit, and the budget disappears the
/// moment it reaches zero. Once gone, the branch never touches the Noob
/// again. Returns the new state and whether a reversal happened.
pub open spec fn noob_osc_step(vx: i64, o: Option<u8>, x: i64) -> (i64, Option<u8>, bool) {
    if o is None {
        (vx, o, false)
    } else {
        let nvx = noob_new_vx(x, vx);
        let flipped = noob_flipped(vx, nvx);
        let nf = if flipped {
            (o->Some_0 - 1) as u8
        } else {
            o->Some_0
        };
        (
            nvx,
            if flipped && nf == 0 {
                None
            } else {
                Some(nf)
            },
            flipped,
        )
    }
}

/// The oscillation bookkeeping run over a whole sequence of per-tick x
/// positions.
pub open spec fn noob_osc_run(vx: i64, o: Option<u8>, xs: Seq<i64>) -> (i64, Option<u8>)
    decreases xs.len(),
{
    if xs.len() == 0 {
        (vx, o)
    } else {
        let st = noob_osc_step(vx, o, xs[0]);
        noob_osc_run(st.0, st.1, xs.skip(1))
    }
}

/// How many direction reversals happen along the run.
pub open spec fn noob_osc_reversals(vx: i64, o: Option<u8>, xs: Seq<i64>) -> nat
    decreases xs.len(),
{
    if xs.len() == 0 {
        0
    } else {
        let st = noob_osc_step(vx, o, xs[0]);
        (if st.2 {
            1nat
        } else {
            0nat
        }) + noob_osc_reversals(st.0, st.1, xs.skip(1))
    }
}

/// Oscillation termination law: a Noob created with a budget of N reversals
/// loses the Oscillates component after exactly N direction reversals,
/// never N plus or minus one. Along any sequence of ticks, the component is
/// gone exactly when N reversals have happened, and while it remains, the
/// budget left is exactly N minus the reversals so far (and still positive).
pub proof fn lemma_oscillation_termination(vx: i64, n: u8, xs: Seq<i64>)
    requires
        n >= 1,
    ensures
        ({
            let r = noob_osc_run(vx, Some(n), xs);
            let k = noob_osc_reversals(vx, Some(n), xs);
            &&& k <= n
            &&& (r.1 is None <==> k == n)
            &&& (r.1 is Some ==> r.1->Some_0 == n - k && r.1->Some_0 >= 1)
        }),
    decreases xs.len(),
{
    if xs.len() == 0 {
    } else {
        let st = noob_osc_step(vx, Some(n), xs[0]);
        if st.2 && n == 1 {
            assert(st.1 is None);
            lemma_osc_none_stays(st.0, xs.skip(1));
        } else if st.2 {
            lemma_oscillation_termination(st.0, (n - 1) as u8, xs.skip(1));
        } else {
            lemma_oscillation_termination(st.0, n, xs.skip(1));
        }
    }
}

/// Once the Oscillates component is gone, the branch never acts again: no
/// further reversal is counted and nothing comes back.
pub proof fn lemma_osc_none_stays(vx: i64, xs: Seq<i64>)
    ensures
        noob_osc_run(vx, None, xs) == (vx, None::<u8>),
        noob_osc_reversals(vx, None, xs) == 0,
    decreases xs.len(),
{
    if xs.len() > 0 {
        lemma_osc_none_stays(vx, xs.skip(1));
    }
}

/// Collision resolution law: a baddy with one health left, overlapped by an
/// enemy-damaging entity, resolves in one pair step to: the player's score
/// increased by exactly the baddy's score value, one score popup creation
/// buffered at the baddy's position, and both the baddy's and the damager's
/// deletion buffered — so neither is live after the maintain point.
pub proof fn lemma_collision_kill(pre: WorldV, post: WorldV, b: int, d: int)
    requires
        lens_ok(pre),
        pre.gens.len() <= usize::MAX,
        pair_rel(pre, post, b, d),
        baddy_joined(pre, b),
        damager_joined(pre, d),
        overlaps_spec(pre.rend[b]->Some_0.area, pre.rend[d]->Some_0.area),
        pre.baddy[b]->Some_0.health == 1,
        pre.score + pre.baddy[b]->Some_0.score <= u32::MAX,
    ensures
        post.score == pre.score + pre.baddy[b]->Some_0.score,
        exists|j: int|
            0 <= j < post.queue.len() && (#[trigger] post.queue[j] matches Op::Create(_, pb)
                && pb == popup_batch(pre.pos[b]->Some_0, pre.baddy[b]->Some_0.score, pre.frames)),
        !live_v(drain_v(post), handle_for(pre, b)),
        !live_v(drain_v(post), handle_for(pre, d)),
{
    let bd = pre.baddy[b]->Some_0;
    let vs = WorldV {
        baddy: pre.baddy.update(b, Some(Baddy { health: 0, ..bd })),
        score: sat_add_u32(pre.score, bd.score),
        ..pre
    };
    assert(kill_tail_rel(vs, post, b, d, pre.pos[b]->Some_0, bd.score));
    let (w2, h) = choose|w2: WorldV, h: EntityHandle|
        {
            &&& #[trigger] created(vs, w2, h)
            &&& post == (WorldV {
                queue: w2.queue.push(Op::Create(h, popup_batch(pre.pos[b]->Some_0, bd.score, vs.frames))).push(
                    Op::Delete(handle_for(vs, b)),
                ).push(Op::Delete(handle_for(vs, d))),
                ..w2
            })
        };
    assert(post.score == vs.score);
    assert(sat_add_u32(pre.score, bd.score) == pre.score + bd.score);
    let ln = post.queue.len() as int;
    assert(post.queue[ln - 3] == Op::Create(
        h,
        popup_batch(pre.pos[b]->Some_0, bd.score, vs.frames),
    ));
    assert(vs.frames == pre.frames);
    assert(post.queue[ln - 2] == Op::Delete(handle_for(vs, b)));
    assert(post.queue[ln - 1] == Op::Delete(handle_for(vs, d)));
    assert(handle_for(vs, b) == handle_for(pre, b));
    assert(handle_for(vs, d) == handle_for(pre, d));
    assert(lens_ok(post)) by {
        assert(lens_ok(w2));
    }
    crate::world::lemma_deleted_not_live_after_drain(post, ln - 2, handle_for(pre, b));
    crate::world::lemma_deleted_not_live_after_drain(post, ln - 1, handle_for(pre, d));
}

} // verus!
