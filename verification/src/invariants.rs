//! The well-formedness invariants of a game world: what holds of every live
//! entity between systems, the tighter facts that hold at tick boundaries,
//! and the shape of the deferred queue that the maintain point relies on to
//! restore them.

use vstd::prelude::*;

use crate::components::Position;
use crate::components::Rect;
use crate::components::Velocity;
use crate::components::WaverBaddy;
use crate::components::game_area_spec;
use crate::components::overlaps_spec;
use crate::components::GAME_HEIGHT;
use crate::components::GAME_WIDTH;
use crate::components::NOOB_SIZE;
use crate::components::PLAYER_SIZE;
use crate::components::WAVER_SIZE;
use crate::registry::EntityHandle;
use crate::spawn::noob_batch;
use crate::spawn::noob_proj_batch;
use crate::spawn::player_proj_batch;
use crate::spawn::popup_batch;
use crate::spawn::waver_batch;
use crate::world::comp_free;
use crate::world::dead_clear;
use crate::world::handle_for;
use crate::world::lens_ok;
use crate::world::live_v;
use crate::world::Batch;
use crate::world::CompKind;
use crate::world::Op;
use crate::world::WorldV;
use crate::world::FRAME_LIMIT;

verus! {

/// A baddy's age, or 0 for entities without enemy bookkeeping; projectile
/// velocities are constant, so only baddies need an age-linked bound.
pub open spec fn age_of(v: WorldV, s: int) -> int {
    if v.baddy[s] is Some {
        v.baddy[s]->Some_0.age as int
    } else {
        0
    }
}

/// The base trajectory a wave carries: where its head entered and how it
/// was moving; every follower repeats it.
pub open spec fn waver_shape(w: WaverBaddy) -> bool {
    &&& w.rank <= 10
    &&& (w.pos.x == (1 - WAVER_SIZE) as i64 || w.pos.x == (GAME_WIDTH - 1) as i64)
    &&& 50 <= w.pos.y < 149
    &&& (w.vel.x == 4 || w.vel.x == (-4) as i64)
    &&& w.vel.y == 8
}

/// Per-slot consistency of one live entity's components.
pub open spec fn comp_ok(v: WorldV, s: int) -> bool {
    &&& (v.osc[s] is Some ==> v.noob[s])
    &&& (v.noob[s] ==> {
        &&& v.baddy[s] is Some
        &&& v.pos[s] is Some
        &&& v.vel[s] is Some
        &&& v.rend[s] is Some
        &&& v.waver[s] is None
        &&& v.vel[s]->Some_0.y == 0
        &&& 0 <= v.pos[s]->Some_0.y < 300
    })
    &&& (v.waver[s] is Some ==> {
        &&& v.baddy[s] is Some
        &&& v.pos[s] is Some
        &&& v.vel[s] is Some
        &&& v.rend[s] is Some
        &&& waver_shape(v.waver[s]->Some_0)
    })
    &&& (v.baddy[s] is Some ==> v.baddy[s]->Some_0.age <= v.frames + 1)
    &&& (v.vel[s] is Some ==> {
        &&& v.pos[s] is Some
        &&& v.rend[s] is Some
        &&& -4 <= v.vel[s]->Some_0.x <= 4
        &&& v.vel[s]->Some_0.y <= 8
        &&& v.vel[s]->Some_0.y >= -8 - age_of(v, s)
    })
    &&& (v.rend[s] is Some ==> {
        &&& v.pos[s] is Some
        &&& 0 <= v.rend[s]->Some_0.area.w <= 20
        &&& 0 <= v.rend[s]->Some_0.area.h <= 20
    })
}

/// Exactly one live entity carries the player marker, it has position,
/// velocity and geometry, it is clamped inside the playable area, and it is
/// neither an enemy nor a damaging entity.
pub open spec fn player_ok(v: WorldV) -> bool {
    let ps = v.player_slot as int;
    &&& ps < v.gens.len()
    &&& v.alive[ps]
    &&& forall|s: int| 0 <= s < v.player.len() ==> (v.player[s] <==> s == ps)
    &&& v.pos[ps] is Some
    &&& v.vel[ps] is Some
    &&& v.rend[ps] is Some
    &&& v.baddy[ps] is None
    &&& !v.noob[ps]
    &&& v.waver[ps] is None
    &&& !v.dam_b[ps]
    &&& !v.dam_p[ps]
    &&& v.osc[ps] is None
    &&& v.score_text[ps] is None
    &&& 0 <= v.pos[ps]->Some_0.x <= GAME_WIDTH - PLAYER_SIZE
    &&& 0 <= v.pos[ps]->Some_0.y <= GAME_HEIGHT - PLAYER_SIZE
}

/// The core invariant, maintained by every system and by the maintain
/// point.
pub open spec fn wf_core(v: WorldV) -> bool {
    &&& lens_ok(v)
    &&& dead_clear(v)
    &&& player_ok(v)
    &&& forall|s: int| 0 <= s < v.gens.len() && v.alive[s] ==> #[trigger] comp_ok(v, s)
    &&& v.frames <= FRAME_LIMIT
}

/// A rendered entity's geometry origin agrees with its position.
pub open spec fn synced(v: WorldV, s: int) -> bool {
    &&& v.rend[s]->Some_0.area.x == v.pos[s]->Some_0.x
    &&& v.rend[s]->Some_0.area.y == v.pos[s]->Some_0.y
}

/// Where a rendered entity can sit at a tick boundary: survivors of the
/// offscreen sweep overlap the playable area, and a freshly drained spawn
/// sits where its batch put it.
pub open spec fn rect_settled(v: WorldV, s: int) -> bool {
    let r = v.rend[s]->Some_0.area;
    &&& -20 <= r.x <= 410
    &&& -20 <= r.y <= 600
    &&& (v.noob[s] ==> r.x <= 400)
}

/// Where a rendered entity can sit between the movement pass and the
/// maintain point: at most one integration step away from settled.
pub open spec fn rect_mid(v: WorldV, s: int) -> bool {
    let r = v.rend[s]->Some_0.area;
    &&& -24 <= r.x <= 414
    &&& r.y <= 616
    &&& r.y >= -40 - (v.frames as int)
}

/// A deletion of the slot's current occupant is buffered.
pub open spec fn delete_queued(v: WorldV, ops: Seq<Op>, s: int) -> bool {
    exists|j: int| 0 <= j < ops.len() && ops[j] == Op::Delete(handle_for(v, s))
}

/// A removal of the slot's oscillation budget is buffered.
pub open spec fn remove_osc_queued(v: WorldV, ops: Seq<Op>, s: int) -> bool {
    exists|j: int| 0 <= j < ops.len() && ops[j] == Op::Remove(handle_for(v, s), CompKind::Osc)
}

/// Tick-boundary placement: every live rendered entity is synced and
/// settled.
pub open spec fn settled(v: WorldV) -> bool {
    forall|s: int|
        0 <= s < v.gens.len() && v.alive[s] && #[trigger] v.rend[s] is Some ==> synced(v, s)
            && rect_settled(v, s)
}

/// Mid-tick placement, relative to a set of still-pending operations:
/// every live rendered entity is synced, within one step of settled, and
/// either settled or marked for deletion.
pub open spec fn moved_wrt(v: WorldV, ops: Seq<Op>) -> bool {
    forall|s: int|
        0 <= s < v.gens.len() && v.alive[s] && #[trigger] v.rend[s] is Some ==> synced(v, s)
            && rect_mid(v, s) && (rect_settled(v, s) || delete_queued(v, ops, s))
}

/// Mid-tick placement against the world's own queue.
pub open spec fn moved(v: WorldV) -> bool {
    moved_wrt(v, v.queue)
}

/// An oscillation budget is positive, or its removal is already buffered:
/// the budget hits zero only on the tick that also buffers the removal.
pub open spec fn osc_ok_wrt(v: WorldV, ops: Seq<Op>) -> bool {
    forall|s: int|
        0 <= s < v.gens.len() && v.alive[s] && #[trigger] v.osc[s] is Some ==> (
        v.osc[s]->Some_0.0 >= 1 || remove_osc_queued(v, ops, s))
}

/// Oscillation budgets against the world's own queue.
pub open spec fn osc_ok(v: WorldV) -> bool {
    osc_ok_wrt(v, v.queue)
}

/// Every oscillation budget is positive; holds at tick boundaries.
pub open spec fn oscs_fresh(v: WorldV) -> bool {
    forall|s: int|
        0 <= s < v.gens.len() && v.alive[s] && #[trigger] v.osc[s] is Some
            ==> v.osc[s]->Some_0.0 >= 1
}

/// No baddy has been aged this tick yet; holds at tick boundaries.
pub open spec fn ages_fresh(v: WorldV) -> bool {
    forall|s: int|
        0 <= s < v.gens.len() && v.alive[s] && #[trigger] v.baddy[s] is Some
            ==> v.baddy[s]->Some_0.age <= v.frames
}

/// A creation batch has one of the five spawnable shapes, with its
/// parameters inside the ranges the spawners draw from.
pub open spec fn batch_ok(b: Batch) -> bool {
    ||| noob_batch_shape(b)
    ||| waver_batch_shape(b)
    ||| noob_proj_shape(b)
    ||| player_proj_shape(b)
    ||| popup_shape(b)
}

pub open spec fn noob_batch_shape(b: Batch) -> bool {
    exists|x: i64, y: i64, speed: i64, flips: u8|
        {
            &&& x == (1 - NOOB_SIZE) as i64 || x == (GAME_WIDTH - 1) as i64
            &&& 0 <= y < 300
            &&& 1 <= speed < 4
            &&& 1 <= flips < 4
            &&& b == #[trigger] noob_batch(Position { x, y }, speed, flips)
        }
}

pub open spec fn waver_batch_shape(b: Batch) -> bool {
    exists|rank: u64, pos: Position, vel: Velocity|
        {
            &&& rank <= 10
            &&& (pos.x == (1 - WAVER_SIZE) as i64 || pos.x == (GAME_WIDTH - 1) as i64)
            &&& 50 <= pos.y < 149
            &&& (vel.x == 4 || vel.x == (-4) as i64)
            &&& vel.y == 8
            &&& b == #[trigger] waver_batch(rank, pos, vel)
        }
}

pub open spec fn noob_proj_shape(b: Batch) -> bool {
    exists|pos: Position, drift: i64|
        {
            &&& -10 <= pos.x <= 410
            &&& 0 <= pos.y <= 600
            &&& 0 <= drift < 2
            &&& b == #[trigger] noob_proj_batch(pos, drift)
        }
}

pub open spec fn player_proj_shape(b: Batch) -> bool {
    exists|pos: Position|
        {
            &&& 0 <= pos.x <= 400
            &&& -10 <= pos.y <= 600
            &&& b == #[trigger] player_proj_batch(pos)
        }
}

pub open spec fn popup_shape(b: Batch) -> bool {
    exists|pos: Position, score: u32, frame: u64| b == #[trigger] popup_batch(pos, score, frame)
}

/// What one pending operation may look like: creations target live,
/// still-empty slots (each at most once) with a well-shaped batch;
/// removals only detach oscillation budgets; deletions never target the
/// live player nor a slot a pending creation will fill.
pub open spec fn op_ok(v: WorldV, ops: Seq<Op>, j: int) -> bool {
    match ops[j] {
        Op::Create(h, b) => {
            &&& live_v(v, h)
            &&& comp_free(v, h.slot as int)
            &&& batch_ok(b)
            &&& forall|j2: int|
                0 <= j2 < ops.len() && j2 != j ==> match #[trigger] ops[j2] {
                    Op::Create(h2, _) => h2.slot != h.slot,
                    _ => true,
                }
        },
        Op::Remove(h, k) => k is Osc,
        Op::Delete(h) => live_v(v, h) ==> h.slot != v.player_slot && !comp_free(
            v,
            h.slot as int,
        ),
    }
}

/// Mid-tick, every buffered deletion still targets a live handle: systems
/// only buffer deletions of entities they just saw, and nothing dies
/// before the maintain point.
pub open spec fn deletes_live(v: WorldV, ops: Seq<Op>) -> bool {
    forall|j: int|
        0 <= j < ops.len() ==> match #[trigger] ops[j] {
            Op::Delete(h) => live_v(v, h),
            _ => true,
        }
}

/// Buffered deletions in the world's own queue target live handles.
pub open spec fn queue_deletes_live(v: WorldV) -> bool {
    deletes_live(v, v.queue)
}

/// Every pending operation is well-shaped.
pub open spec fn ops_ok(v: WorldV, ops: Seq<Op>) -> bool {
    forall|j: int| 0 <= j < ops.len() ==> #[trigger] op_ok(v, ops, j)
}

/// The world's own queue is well-shaped.
pub open spec fn queue_ok(v: WorldV) -> bool {
    ops_ok(v, v.queue)
}

/// Everything a system may assume when it starts inside a tick.
pub open spec fn mid_tick(v: WorldV) -> bool {
    &&& wf_core(v)
    &&& queue_ok(v)
    &&& osc_ok(v)
    &&& queue_deletes_live(v)
}

/// Everything that holds at a tick boundary: the queue has been drained,
/// every rendered entity sits settled, oscillation budgets are positive,
/// and no baddy has been aged past the tick counter.
pub open spec fn pre_tick(v: WorldV) -> bool {
    &&& wf_core(v)
    &&& settled(v)
    &&& v.queue.len() == 0
    &&& oscs_fresh(v)
    &&& ages_fresh(v)
}


/// Applying one well-shaped creation batch to its live, still-empty slot
/// keeps the slot consistent, placed where its batch put it, with a
/// positive oscillation budget if it has one, and marks nothing as the
/// player.
#[verifier::rlimit(100)]
pub proof fn lemma_create_step(v: WorldV, h: EntityHandle, b: Batch)
    requires
        wf_core(v),
        live_v(v, h),
        comp_free(v, h.slot as int),
        batch_ok(b),
    ensures
        ({
            let v1 = crate::world::apply_batch(v, h.slot as int, b);
            let hs = h.slot as int;
            &&& wf_core(v1)
            &&& v1.player == v.player
            &&& (v1.rend[hs] is Some ==> synced(v1, hs) && rect_settled(v1, hs))
            &&& (v1.osc[hs] is Some ==> v1.osc[hs]->Some_0.0 >= 1)
            &&& !comp_free(v1, hs)
        }),
{
    let v1 = crate::world::apply_batch(v, h.slot as int, b);
    let hs = h.slot as int;
    let ps = v.player_slot as int;
    assert(v.pos[ps] is Some);
    assert(hs != ps);
    if noob_batch_shape(b) {
        let (x, y, speed, flips) = choose|x: i64, y: i64, speed: i64, flips: u8|
            {
                &&& x == (1 - NOOB_SIZE) as i64 || x == (GAME_WIDTH - 1) as i64
                &&& 0 <= y < 300
                &&& 1 <= speed < 4
                &&& 1 <= flips < 4
                &&& b == #[trigger] noob_batch(Position { x, y }, speed, flips)
            };
        assert(b.player == false);
    } else if waver_batch_shape(b) {
        let (rank, pos, vel) = choose|rank: u64, pos: Position, vel: Velocity|
            {
                &&& rank <= 10
                &&& (pos.x == (1 - WAVER_SIZE) as i64 || pos.x == (GAME_WIDTH - 1) as i64)
                &&& 50 <= pos.y < 149
                &&& (vel.x == 4 || vel.x == (-4) as i64)
                &&& vel.y == 8
                &&& b == #[trigger] waver_batch(rank, pos, vel)
            };
        assert(b.player == false);
    } else if noob_proj_shape(b) {
        let (pos, drift) = choose|pos: Position, drift: i64|
            {
                &&& -10 <= pos.x <= 410
                &&& 0 <= pos.y <= 600
                &&& 0 <= drift < 2
                &&& b == #[trigger] noob_proj_batch(pos, drift)
            };
        assert(b.player == false);
    } else if player_proj_shape(b) {
        let pos = choose|pos: Position|
            {
                &&& 0 <= pos.x <= 400
                &&& -10 <= pos.y <= 600
                &&& b == #[trigger] player_proj_batch(pos)
            };
        assert(b.player == false);
    } else {
        let (pos, score, frame) = choose|pos: Position, score: u32, frame: u64|
            b == #[trigger] popup_batch(pos, score, frame);
        assert(b.player == false);
    }
    assert(v1.player == v.player);
    assert(comp_ok(v1, hs));
    assert forall|s: int| 0 <= s < v1.alive.len() && !v1.alive[s] implies comp_free(v1, s) by {
        assert(comp_free(v, s));
        assert(s != hs);
    }
    assert(player_ok(v1));
    assert forall|s: int| 0 <= s < v1.gens.len() && v1.alive[s] implies #[trigger] comp_ok(
        v1,
        s,
    ) by {
        if s != hs {
            assert(comp_ok(v, s));
            assert(age_of(v1, s) == age_of(v, s));
        }
    }
    assert(wf_core(v1));
}

/// Draining a well-shaped queue against a mid-tick world restores the
/// tick-boundary invariants: the core invariant holds, every rendered
/// entity is settled (the offscreen ones were deleted, the fresh ones
/// arrive settled), and every oscillation budget is positive again (the
/// spent ones were removed).
#[verifier::rlimit(100)]
pub proof fn lemma_apply_ops_good(v: WorldV, ops: Seq<Op>)
    requires
        wf_core(v),
        moved_wrt(v, ops),
        ops_ok(v, ops),
        osc_ok_wrt(v, ops),
        v.gens.len() <= usize::MAX,
    ensures
        wf_core(crate::world::apply_ops(v, ops)),
        settled(crate::world::apply_ops(v, ops)),
        oscs_fresh(crate::world::apply_ops(v, ops)),
    decreases ops.len(),
{
    crate::world::lemma_apply_ops_frame(v, ops);
    if ops.len() == 0 {
        assert forall|s: int|
            0 <= s < v.gens.len() && v.alive[s] && #[trigger] v.rend[s] is Some implies synced(
            v,
            s,
        ) && rect_settled(v, s) by {
            assert(!delete_queued(v, ops, s));
        }
        assert forall|s: int|
            0 <= s < v.gens.len() && v.alive[s] && #[trigger] v.osc[s] is Some implies
            v.osc[s]->Some_0.0 >= 1 by {
            assert(!remove_osc_queued(v, ops, s));
        }
    } else {
        let op = ops[0];
        let rest = ops.skip(1);
        let v1 = crate::world::apply_op(v, op);
        assert(op_ok(v, ops, 0));
        assert forall|j: int| 0 <= j < rest.len() implies rest[j] == ops[j + 1] by {
        }

        // The remaining operations stay well-shaped against the new state.
        match op {
            Op::Create(h, b) => {
                let hs = h.slot as int;
                lemma_create_step(v, h, b);
                assert forall|j: int| 0 <= j < rest.len() implies #[trigger] op_ok(
                    v1,
                    rest,
                    j,
                ) by {
                    assert(op_ok(v, ops, j + 1));
                    match rest[j] {
                        Op::Create(h2, b2) => {
                            assert(h2.slot != h.slot);
                            assert(comp_free(v1, h2.slot as int));
                            assert forall|j2: int|
                                0 <= j2 < rest.len() && j2 != j implies match #[trigger] rest[j2] {
                                Op::Create(h3, _) => h3.slot != h2.slot,
                                _ => true,
                            } by {
                                assert(rest[j2] == ops[j2 + 1]);
                            }
                        },
                        Op::Remove(h2, k) => {
                        },
                        Op::Delete(h2) => {
                            if live_v(v1, h2) {
                                assert(live_v(v, h2));
                                assert(!comp_free(v, h2.slot as int));
                                assert(!comp_free(v1, h2.slot as int));
                            }
                        },
                    }
                }
                assert forall|s: int|
                    0 <= s < v1.gens.len() && v1.alive[s] && #[trigger] v1.rend[s] is Some implies
                    synced(v1, s) && rect_mid(v1, s) && (rect_settled(v1, s) || delete_queued(
                    v1,
                    rest,
                    s,
                )) by {
                    if s == hs {
                        assert(synced(v1, s) && rect_settled(v1, s));
                        assert(rect_mid(v1, s));
                    } else {
                        assert(v.rend[s] is Some);
                        if !rect_settled(v, s) {
                            let j = choose|j: int|
                                0 <= j < ops.len() && ops[j] == Op::Delete(handle_for(v, s));
                            assert(j >= 1);
                            assert(rest[j - 1] == Op::Delete(handle_for(v1, s)));
                            assert(delete_queued(v1, rest, s));
                        }
                    }
                }
                assert forall|s: int|
                    0 <= s < v1.gens.len() && v1.alive[s] && #[trigger] v1.osc[s] is Some implies (
                v1.osc[s]->Some_0.0 >= 1 || remove_osc_queued(v1, rest, s)) by {
                    if s == hs {
                    } else {
                        assert(v.osc[s] is Some);
                        if v.osc[s]->Some_0.0 < 1 {
                            let j = choose|j: int|
                                0 <= j < ops.len() && ops[j] == Op::Remove(
                                    handle_for(v, s),
                                    CompKind::Osc,
                                );
                            assert(j >= 1);
                            assert(rest[j - 1] == Op::Remove(handle_for(v1, s), CompKind::Osc));
                            assert(remove_osc_queued(v1, rest, s));
                        }
                    }
                }
                lemma_apply_ops_good(v1, rest);
            },
            Op::Remove(h, k) => {
                let hs = h.slot as int;
                if live_v(v, h) {
                    assert(k is Osc);
                    assert forall|s: int|
                        0 <= s < v1.alive.len() && !v1.alive[s] implies comp_free(v1, s) by {
                        assert(comp_free(v, s));
                    }
                    assert(player_ok(v1));
                    assert forall|s: int|
                        0 <= s < v1.gens.len() && v1.alive[s] implies #[trigger] comp_ok(
                        v1,
                        s,
                    ) by {
                        assert(comp_ok(v, s));
                        assert(age_of(v1, s) == age_of(v, s));
                    }
                    assert(wf_core(v1));
                }
                assert forall|j: int| 0 <= j < rest.len() implies #[trigger] op_ok(
                    v1,
                    rest,
                    j,
                ) by {
                    assert(op_ok(v, ops, j + 1));
                    match rest[j] {
                        Op::Create(h2, b2) => {
                            assert(comp_free(v, h2.slot as int));
                            assert(comp_free(v1, h2.slot as int));
                            assert forall|j2: int|
                                0 <= j2 < rest.len() && j2 != j implies match #[trigger] rest[j2] {
                                Op::Create(h3, _) => h3.slot != h2.slot,
                                _ => true,
                            } by {
                                assert(rest[j2] == ops[j2 + 1]);
                            }
                        },
                        Op::Remove(h2, k2) => {
                        },
                        Op::Delete(h2) => {
                            if live_v(v1, h2) {
                                assert(live_v(v, h2));
                                assert(!comp_free(v, h2.slot as int));
                                if live_v(v, h) && h2.slot as int == hs {
                                    assert(comp_ok(v, hs));
                                    assert(v.osc[hs] is Some ==> v.noob[hs]);
                                    assert(!comp_free(v1, h2.slot as int));
                                } else {
                                    assert(!comp_free(v1, h2.slot as int));
                                }
                            }
                        },
                    }
                }
                assert forall|s: int|
                    0 <= s < v1.gens.len() && v1.alive[s] && #[trigger] v1.rend[s] is Some implies
                    synced(v1, s) && rect_mid(v1, s) && (rect_settled(v1, s) || delete_queued(
                    v1,
                    rest,
                    s,
                )) by {
                    assert(v.rend[s] is Some);
                    if !rect_settled(v, s) {
                        let j = choose|j: int|
                            0 <= j < ops.len() && ops[j] == Op::Delete(handle_for(v, s));
                        assert(j >= 1);
                        assert(rest[j - 1] == Op::Delete(handle_for(v1, s)));
                        assert(delete_queued(v1, rest, s));
                    }
                }
                assert forall|s: int|
                    0 <= s < v1.gens.len() && v1.alive[s] && #[trigger] v1.osc[s] is Some implies (
                v1.osc[s]->Some_0.0 >= 1 || remove_osc_queued(v1, rest, s)) by {
                    assert(v.osc[s] is Some);
                    if v.osc[s]->Some_0.0 < 1 {
                        let j = choose|j: int|
                            0 <= j < ops.len() && ops[j] == Op::Remove(
                                handle_for(v, s),
                                CompKind::Osc,
                            );
                        if j == 0 {
                            assert(ops[0] == Op::Remove(handle_for(v, s), CompKind::Osc));
                            assert(live_v(v, handle_for(v, s)));
                            assert(false);
                        } else {
                            assert(rest[j - 1] == Op::Remove(handle_for(v1, s), CompKind::Osc));
                            assert(remove_osc_queued(v1, rest, s));
                        }
                    }
                }
                lemma_apply_ops_good(v1, rest);
            },
            Op::Delete(h) => {
                let hs = h.slot as int;
                if live_v(v, h) {
                    assert(hs != v.player_slot as int);
                    assert(!comp_free(v, hs));
                    assert forall|s: int|
                        0 <= s < v1.alive.len() && !v1.alive[s] implies comp_free(v1, s) by {
                        if s != hs {
                            assert(comp_free(v, s));
                        }
                    }
                    assert(player_ok(v1));
                    assert forall|s: int|
                        0 <= s < v1.gens.len() && v1.alive[s] implies #[trigger] comp_ok(
                        v1,
                        s,
                    ) by {
                        assert(s != hs);
                        assert(comp_ok(v, s));
                        assert(age_of(v1, s) == age_of(v, s));
                    }
                    assert(wf_core(v1));
                }
                assert forall|j: int| 0 <= j < rest.len() implies #[trigger] op_ok(
                    v1,
                    rest,
                    j,
                ) by {
                    assert(op_ok(v, ops, j + 1));
                    match rest[j] {
                        Op::Create(h2, b2) => {
                            assert(comp_free(v, h2.slot as int));
                            assert(h2.slot as int != hs || !live_v(v, h));
                            assert(live_v(v1, h2));
                            assert(comp_free(v1, h2.slot as int));
                            assert forall|j2: int|
                                0 <= j2 < rest.len() && j2 != j implies match #[trigger] rest[j2] {
                                Op::Create(h3, _) => h3.slot != h2.slot,
                                _ => true,
                            } by {
                                assert(rest[j2] == ops[j2 + 1]);
                            }
                        },
                        Op::Remove(h2, k2) => {
                        },
                        Op::Delete(h2) => {
                            if live_v(v1, h2) {
                                assert(h2.slot as int != hs || !live_v(v, h));
                                assert(live_v(v, h2));
                                assert(!comp_free(v, h2.slot as int));
                                assert(!comp_free(v1, h2.slot as int));
                            }
                        },
                    }
                }
                assert forall|s: int|
                    0 <= s < v1.gens.len() && v1.alive[s] && #[trigger] v1.rend[s] is Some implies
                    synced(v1, s) && rect_mid(v1, s) && (rect_settled(v1, s) || delete_queued(
                    v1,
                    rest,
                    s,
                )) by {
                    assert(s != hs || !live_v(v, h));
                    assert(v.rend[s] is Some);
                    if !rect_settled(v, s) {
                        let j = choose|j: int|
                            0 <= j < ops.len() && ops[j] == Op::Delete(handle_for(v, s));
                        if j == 0 {
                            assert(handle_for(v, s) == h);
                            assert(live_v(v, handle_for(v, s)));
                            assert(!v1.alive[s]);
                            assert(false);
                        } else {
                            assert(rest[j - 1] == Op::Delete(handle_for(v1, s)));
                            assert(delete_queued(v1, rest, s));
                        }
                    }
                }
                assert forall|s: int|
                    0 <= s < v1.gens.len() && v1.alive[s] && #[trigger] v1.osc[s] is Some implies (
                v1.osc[s]->Some_0.0 >= 1 || remove_osc_queued(v1, rest, s)) by {
                    assert(s != hs || !live_v(v, h));
                    assert(v.osc[s] is Some);
                    if v.osc[s]->Some_0.0 < 1 {
                        let j = choose|j: int|
                            0 <= j < ops.len() && ops[j] == Op::Remove(
                                handle_for(v, s),
                                CompKind::Osc,
                            );
                        assert(j >= 1);
                        assert(rest[j - 1] == Op::Remove(handle_for(v1, s), CompKind::Osc));
                        assert(remove_osc_queued(v1, rest, s));
                    }
                }
                lemma_apply_ops_good(v1, rest);
            },
        }
    }
}

/// The maintain point restores the tick-boundary invariants: after the
/// drain, the world is well-formed, every rendered entity sits settled,
/// every oscillation budget is positive, the queue is empty, and the
/// resources and player slot are untouched.
pub proof fn lemma_drain_good(v: WorldV)
    requires
        wf_core(v),
        moved(v),
        queue_ok(v),
        osc_ok(v),
        v.gens.len() <= usize::MAX,
    ensures
        wf_core(crate::world::drain_v(v)),
        settled(crate::world::drain_v(v)),
        oscs_fresh(crate::world::drain_v(v)),
        crate::world::drain_v(v).queue.len() == 0,
        crate::world::drain_v(v).frames == v.frames,
        crate::world::drain_v(v).input == v.input,
        crate::world::drain_v(v).health == v.health,
        crate::world::drain_v(v).score == v.score,
        crate::world::drain_v(v).player_slot == v.player_slot,
{
    lemma_apply_ops_good(v, v.queue);
    crate::world::lemma_apply_ops_frame(v, v.queue);
    let r0 = crate::world::apply_ops(v, v.queue);
    let r = crate::world::drain_v(v);
    assert forall|s: int| 0 <= s < r.alive.len() && !r.alive[s] implies comp_free(r, s) by {
        assert(comp_free(r0, s));
    }
    assert(player_ok(r));
    assert forall|s: int| 0 <= s < r.gens.len() && r.alive[s] implies #[trigger] comp_ok(
        r,
        s,
    ) by {
        assert(comp_ok(r0, s));
    }
    assert(wf_core(r));
    assert forall|s: int|
        0 <= s < r.gens.len() && r.alive[s] && #[trigger] r.rend[s] is Some implies synced(r, s)
        && rect_settled(r, s) by {
        assert(r0.rend[s] is Some);
        assert(synced(r0, s) && rect_settled(r0, s));
    }
    assert forall|s: int|
        0 <= s < r.gens.len() && r.alive[s] && #[trigger] r.osc[s] is Some implies
        r.osc[s]->Some_0.0 >= 1 by {
        assert(r0.osc[s] is Some);
    }
}

} // verus!
