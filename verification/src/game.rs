//! Shared per-tick state ("resources") visible to every system, and the
//! top-level game driver that advances the simulation one tick at a time.

use vstd::prelude::*;

use crate::components::Position;
use crate::components::Rect;
use crate::components::Velocity;
use crate::components::GAME_HEIGHT;
use crate::components::GAME_WIDTH;
use crate::invariants::age_of;
use crate::invariants::ages_fresh;
use crate::invariants::comp_ok;
use crate::invariants::lemma_drain_good;
use crate::invariants::op_ok;
use crate::invariants::osc_ok;
use crate::invariants::oscs_fresh;
use crate::invariants::player_ok;
use crate::invariants::queue_deletes_live;
use crate::invariants::queue_ok;
use crate::invariants::rect_settled;
use crate::invariants::remove_osc_queued;
use crate::invariants::settled;
use crate::invariants::synced;
use crate::invariants::wf_core;
use crate::spawn::create_player;
use crate::systems::behavior_rel;
use crate::systems::collision_rel;
use crate::systems::control_rel;
use crate::systems::movement_v;
use crate::systems::spawner_rel;
use crate::systems::BaddyActions;
use crate::systems::BaddySpawner;
use crate::systems::CollisionSystem;
use crate::systems::MovementSystem;
use crate::systems::PlayerControlSystem;
use crate::world::drain_v;
use crate::world::handle_for;
use crate::world::lens_ok;
use crate::world::live_v;
use crate::registry::EntityHandle;
use crate::world::CompKind;
use crate::world::Op;
use crate::world::World;
use crate::world::WorldV;
use crate::world::FRAME_LIMIT;

verus! {

/// Snapshot of the input keys: is each currently pressed? Written only by
/// the input boundary between ticks; read-only to the simulation systems.
#[derive(Clone, Copy, Debug, PartialEq, Eq, Structural)]
pub struct InputState {
    pub up: bool,
    pub down: bool,
    pub left: bool,
    pub right: bool,
    pub shoot: bool,
}

impl InputState {
    /// No key pressed.
    pub fn none() -> (r: InputState)
        ensures
            r == (InputState { up: false, down: false, left: false, right: false, shoot: false }),
    {
        InputState { up: false, down: false, left: false, right: false, shoot: false }
    }
}

/// How many ticks have been computed so far.
#[derive(Clone, Copy, Debug, PartialEq, Eq, Structural)]
pub struct Frames(pub u64);

/// The player's current health, in remaining hits.
#[derive(Clone, Copy, Debug, PartialEq, Eq, Structural)]
pub struct PlayerHealth(pub u32);

/// The player's current score.
#[derive(Clone, Copy, Debug, PartialEq, Eq, Structural)]
pub struct PlayerScore(pub u32);


/// The invariant of the running game: the world is well-formed and at a
/// tick boundary (possibly with popup expiries buffered), and the control
/// system's rate-limit state never runs ahead of the tick counter.
pub open spec fn galaga_inv(g: Galaga) -> bool {
    &&& wf_core(g.world@)
    &&& settled(g.world@)
    &&& queue_ok(g.world@)
    &&& osc_ok(g.world@)
    &&& queue_deletes_live(g.world@)
    &&& oscs_fresh(g.world@)
    &&& ages_fresh(g.world@)
    &&& g.control.last_shot_frame <= g.world@.frames
}

/// One simulation tick: the five systems in dependency order, the maintain
/// point, the game-over check, and the tick counter advancing by one.
pub open spec fn tick_rel(g0: Galaga, g1: Galaga) -> bool {
    if g0.game_over {
        g1 == g0
    } else {
        exists|w1: WorldV, w2: WorldV, w3: WorldV, w5: WorldV|
            {
                &&& #[trigger] spawner_rel(g0.world@, w1)
                &&& #[trigger] behavior_rel(w1, w2)
                &&& #[trigger] control_rel(w2, w3, g0.control.last_shot_frame, g1.control.last_shot_frame)
                &&& #[trigger] collision_rel(movement_v(w3), w5)
                &&& g1.world@ == (WorldV {
                    frames: (drain_v(w5).frames + 1) as u64,
                    ..drain_v(w5)
                })
                &&& g1.game_over == (drain_v(w5).health == 0)
            }
    }
}

/// Main game state: the entity-component world, the stateful control
/// system, and whether play has ended.
pub struct Galaga {
    pub world: World,
    pub control: PlayerControlSystem,
    pub game_over: bool,
}

impl Galaga {
    /// A new game: a fresh world holding only the player, centered, at
    /// rest, with full health, zero score and the tick counter at zero.
    pub fn new() -> (g: Galaga)
        ensures
            galaga_inv(g),
            !g.game_over,
            g.world@.frames == 0,
            g.world@.health == crate::components::MAX_PLAYER_HEALTH,
            g.world@.score == 0,
            g.world@.gens.len() == 1,
            g.world@.player[0],
            g.world@.pos[0] == Some(
                Position { x: (GAME_WIDTH / 2) as i64, y: (GAME_HEIGHT / 2) as i64 },
            ),
            g.world@.vel[0] == Some(Velocity { x: 0, y: 0 }),
            g.world@.baddy[0] is None,
            g.world@.queue.len() == 0,
            g.control.last_shot_frame == 0,
    {
        let mut world = World::new();
        create_player(&mut world);
        proof {
            let v = world@;
            assert(comp_ok(v, 0));
            assert forall|s: int| 0 <= s < v.gens.len() && v.alive[s] implies #[trigger] comp_ok(
                v,
                s,
            ) by {
                assert(s == 0);
            }
            assert(player_ok(v));
            assert(wf_core(v));
            assert forall|s: int|
                0 <= s < v.gens.len() && v.alive[s] && #[trigger] v.rend[s] is Some implies synced(
                v,
                s,
            ) && rect_settled(v, s) by {
                assert(s == 0);
            }
            assert(settled(v));
        }
        Galaga { world, control: PlayerControlSystem::new(), game_over: false }
    }

    /// Advances the simulation one tick, unless the game is over. Runs the
    /// spawner, enemy behavior and control (mutually independent), then
    /// movement, then collision; drains the deferred queue; ends the game
    /// once health reaches zero; and counts the tick.
    pub fn update(&mut self)
        requires
            galaga_inv(*old(self)),
            old(self).world@.frames < FRAME_LIMIT,
        ensures
            galaga_inv(*final(self)),
            tick_rel(*old(self), *final(self)),
            final(self).world@.frames <= old(self).world@.frames + 1,
    {
        if self.game_over {
            return ;
        }
        let mut spawner = BaddySpawner;
        spawner.run(&mut self.world);
        let ghost w1 = self.world@;
        let mut behavior = BaddyActions;
        behavior.run(&mut self.world);
        let ghost w2 = self.world@;
        self.control.run(&mut self.world);
        let ghost w3 = self.world@;
        let mut movement = MovementSystem;
        movement.run(&mut self.world);
        let mut collision = CollisionSystem;
        collision.run(&mut self.world);
        let ghost w5 = self.world@;
        // Materializes that the slot count fits in usize, for the drain lemma.
        let _slots: usize = self.world.num_slots();
        self.world.maintain();
        proof {
            lemma_drain_good(w5);
        }
        let ghost w6 = self.world@;
        if self.world.health.0 == 0 {
            self.game_over = true;
        }
        let f = self.world.frames.0;
        self.world.frames = Frames(f + 1);
        proof {
            let vf = self.world@;
            assert(vf == (WorldV { frames: (w6.frames + 1) as u64, ..w6 }));
            assert forall|s: int|
                0 <= s < vf.gens.len() && vf.alive[s] implies #[trigger] comp_ok(vf, s) by {
                assert(comp_ok(w6, s));
                assert(age_of(vf, s) == age_of(w6, s));
            }
            assert forall|s: int|
                0 <= s < vf.alive.len() && !vf.alive[s] implies crate::world::comp_free(
                vf,
                s,
            ) by {
                assert(crate::world::comp_free(w6, s));
            }
            assert(player_ok(vf));
            assert(wf_core(vf));
            assert forall|s: int|
                0 <= s < vf.gens.len() && vf.alive[s] && #[trigger] vf.rend[s] is Some implies
                synced(vf, s) && rect_settled(vf, s) by {
                assert(w6.rend[s] is Some);
                assert(synced(w6, s) && rect_settled(w6, s));
            }
            assert(settled(vf));
            assert forall|s: int|
                0 <= s < vf.gens.len() && vf.alive[s] && #[trigger] vf.osc[s] is Some implies
                vf.osc[s]->Some_0.0 >= 1 by {
                assert(w6.osc[s] is Some);
            }
            assert(oscs_fresh(vf));
            assert forall|s: int|
                0 <= s < vf.gens.len() && vf.alive[s] && #[trigger] vf.baddy[s] is Some implies
                vf.baddy[s]->Some_0.age <= vf.frames by {
                assert(w6.baddy[s] is Some);
                assert(comp_ok(w6, s));
            }
            assert(ages_fresh(vf));
            assert(queue_ok(vf) && osc_ok(vf) && queue_deletes_live(vf)) by {
                assert(vf.queue.len() == 0);
            }
            assert(galaga_inv(*self));
            assert(tick_rel(*old(self), *self));
        }
    }

    /// Overwrites the input snapshot; called by the input boundary between
    /// ticks.
    pub fn set_input(&mut self, input: InputState)
        requires
            galaga_inv(*old(self)),
        ensures
            galaga_inv(*final(self)),
            final(self).world@ == (WorldV { input: input, ..old(self).world@ }),
            final(self).game_over == old(self).game_over,
            final(self).control == old(self).control,
    {
        let ghost g0 = *self;
        self.world.input = input;
        proof {
            let v0 = g0.world@;
            let vf = self.world@;
            assert(vf == (WorldV { input: input, ..v0 }));
            assert forall|s: int|
                0 <= s < vf.gens.len() && vf.alive[s] implies #[trigger] comp_ok(vf, s) by {
                assert(comp_ok(v0, s));
                assert(age_of(vf, s) == age_of(v0, s));
            }
            assert forall|s: int|
                0 <= s < vf.alive.len() && !vf.alive[s] implies crate::world::comp_free(
                vf,
                s,
            ) by {
                assert(crate::world::comp_free(v0, s));
            }
            assert(player_ok(vf));
            assert forall|s: int|
                0 <= s < vf.gens.len() && vf.alive[s] && #[trigger] vf.rend[s] is Some implies
                synced(vf, s) && rect_settled(vf, s) by {
                assert(v0.rend[s] is Some);
                assert(synced(v0, s) && rect_settled(v0, s));
            }
            assert forall|s: int|
                0 <= s < vf.gens.len() && vf.alive[s] && #[trigger] vf.osc[s] is Some implies (
            vf.osc[s]->Some_0.0 >= 1 || remove_osc_queued(vf, vf.queue, s)) by {
                assert(v0.osc[s] is Some);
                if v0.osc[s]->Some_0.0 < 1 {
                    let k = choose|k: int|
                        0 <= k < v0.queue.len() && v0.queue[k] == Op::Remove(
                            handle_for(v0, s),
                            CompKind::Osc,
                        );
                    assert(vf.queue[k] == Op::Remove(handle_for(vf, s), CompKind::Osc));
                    assert(remove_osc_queued(vf, vf.queue, s));
                }
            }
            assert forall|s: int|
                0 <= s < vf.gens.len() && vf.alive[s] && #[trigger] vf.osc[s] is Some implies
                vf.osc[s]->Some_0.0 >= 1 by {
                assert(v0.osc[s] is Some);
            }
            assert forall|s: int|
                0 <= s < vf.gens.len() && vf.alive[s] && #[trigger] vf.baddy[s] is Some implies
                vf.baddy[s]->Some_0.age <= vf.frames by {
                assert(v0.baddy[s] is Some);
            }
            assert forall|j: int| 0 <= j < vf.queue.len() implies #[trigger] op_ok(
                vf,
                vf.queue,
                j,
            ) by {
                assert(op_ok(v0, v0.queue, j));
                match v0.queue[j] {
                    Op::Create(h2, b2) => {
                        assert(crate::world::comp_free(vf, h2.slot as int)) by {
                            assert(crate::world::comp_free(v0, h2.slot as int));
                        }
                        assert forall|j2: int|
                            0 <= j2 < vf.queue.len() && j2 != j implies match #[trigger] vf.queue[j2] {
                            Op::Create(h3, _) => h3.slot != h2.slot,
                            _ => true,
                        } by {
                            assert(vf.queue[j2] == v0.queue[j2]);
                        }
                    },
                    Op::Remove(h2, k) => {
                    },
                    Op::Delete(h2) => {
                        if live_v(vf, h2) {
                            assert(!crate::world::comp_free(v0, h2.slot as int));
                            assert(!crate::world::comp_free(vf, h2.slot as int));
                        }
                    },
                }
            }
            assert forall|j: int| 0 <= j < vf.queue.len() implies match #[trigger] vf.queue[j] {
                Op::Delete(h2) => live_v(vf, h2),
                _ => true,
            } by {
                assert(vf.queue[j] == v0.queue[j]);
            }
            assert(galaga_inv(*self));
        }
    }

    /// The current score, for the rendering boundary.
    pub fn score(&self) -> (r: u32)
        ensures
            r == self.world@.score,
    {
        self.world.score.0
    }

    /// The current health, for the rendering boundary; the fraction shown
    /// is this over `MAX_PLAYER_HEALTH`.
    pub fn health(&self) -> (r: u32)
        ensures
            r == self.world@.health,
    {
        self.world.health.0
    }

    /// Whether play has ended; true once health reached zero.
    pub fn is_game_over(&self) -> (r: bool)
        ensures
            r == self.game_over,
    {
        self.game_over
    }
}


/// The geometry and colour of every live rendered entity, in slot order:
/// what the rendering boundary draws each frame.
pub open spec fn render_items(v: WorldV, n: int) -> Seq<(Rect, (u8, u8, u8))>
    decreases n,
{
    if n <= 0 {
        Seq::empty()
    } else {
        render_items(v, n - 1) + if v.alive[n - 1] && v.rend[n - 1] is Some {
            seq![(v.rend[n - 1]->Some_0.area, v.rend[n - 1]->Some_0.colour)]
        } else {
            Seq::empty()
        }
    }
}

/// The score and position of every live score popup, in slot order: what
/// the rendering boundary letters each frame.
pub open spec fn popup_items(v: WorldV, n: int) -> Seq<(u32, Position)>
    decreases n,
{
    if n <= 0 {
        Seq::empty()
    } else {
        popup_items(v, n - 1) + if v.alive[n - 1] && v.score_text[n - 1] is Some && v.pos[n
            - 1] is Some {
            seq![(v.score_text[n - 1]->Some_0.score, v.pos[n - 1]->Some_0)]
        } else {
            Seq::empty()
        }
    }
}

/// The deletions the popup expiry buffers, in slot order: one for every
/// live popup shown for more than 60 ticks.
pub open spec fn expired_deletes(v: WorldV, n: int) -> Seq<Op>
    decreases n,
{
    if n <= 0 {
        Seq::empty()
    } else {
        expired_deletes(v, n - 1) + if expire_cond(v, n - 1) {
            seq![Op::Delete(handle_for(v, n - 1))]
        } else {
            Seq::empty()
        }
    }
}

/// Is this slot a live popup past its display time?
pub open spec fn expire_cond(v: WorldV, s: int) -> bool {
    &&& v.alive[s]
    &&& v.score_text[s] is Some
    &&& v.frames > v.score_text[s]->Some_0.frame + 60
}

/// The popup expiry buffers exactly the deletions of the expired popups.
pub proof fn lemma_expired_elems(v: WorldV, n: int)
    ensures
        forall|op: Op|
            #[trigger] expired_deletes(v, n).contains(op) <==> exists|t: int|
                0 <= t < n && #[trigger] expire_cond(v, t) && op == Op::Delete(handle_for(v, t)),
    decreases n,
{
    if n <= 0 {
    } else {
        lemma_expired_elems(v, n - 1);
        let prevs = expired_deletes(v, n - 1);
        let last = if expire_cond(v, n - 1) {
            seq![Op::Delete(handle_for(v, n - 1))]
        } else {
            Seq::<Op>::empty()
        };
        let whole = expired_deletes(v, n);
        assert(whole == prevs + last);
        assert forall|op: Op| #[trigger] whole.contains(op) implies exists|t: int|
            0 <= t < n && #[trigger] expire_cond(v, t) && op == Op::Delete(handle_for(v, t)) by {
            let j = choose|j: int| 0 <= j < whole.len() && whole[j] == op;
            if j < prevs.len() {
                assert(prevs[j] == op);
                assert(prevs.contains(op));
            } else {
                assert(last[j - prevs.len()] == op);
                assert(expire_cond(v, n - 1) && op == Op::Delete(handle_for(v, n - 1)));
            }
        }
        assert forall|op: Op|
            (exists|t: int|
                0 <= t < n && #[trigger] expire_cond(v, t) && op == Op::Delete(
                    handle_for(v, t),
                )) implies #[trigger] whole.contains(op) by {
            let t = choose|t: int|
                0 <= t < n && #[trigger] expire_cond(v, t) && op == Op::Delete(handle_for(v, t));
            if t < n - 1 {
                assert(prevs.contains(op));
                let j = choose|j: int| 0 <= j < prevs.len() && prevs[j] == op;
                assert(whole[j] == op);
            } else {
                assert(whole[prevs.len() as int] == op);
            }
        }
    }
}

/// Appending the expiry deletions keeps the game invariant.
#[verifier::rlimit(100)]
pub proof fn lemma_expire_good(v: WorldV)
    requires
        wf_core(v),
        settled(v),
        queue_ok(v),
        osc_ok(v),
        queue_deletes_live(v),
        oscs_fresh(v),
        ages_fresh(v),
        v.gens.len() <= usize::MAX,
    ensures
        ({
            let r = WorldV { queue: v.queue + expired_deletes(v, v.gens.len() as int), ..v };
            &&& wf_core(r)
            &&& settled(r)
            &&& queue_ok(r)
            &&& osc_ok(r)
            &&& queue_deletes_live(r)
            &&& oscs_fresh(r)
            &&& ages_fresh(r)
        }),
{
    let n = v.gens.len() as int;
    let dels = expired_deletes(v, n);
    let r = WorldV { queue: v.queue + dels, ..v };
    lemma_expired_elems(v, n);
    assert forall|s: int| 0 <= s < r.gens.len() && r.alive[s] implies #[trigger] comp_ok(
        r,
        s,
    ) by {
        assert(comp_ok(v, s));
        assert(age_of(r, s) == age_of(v, s));
    }
    assert forall|s: int|
        0 <= s < r.alive.len() && !r.alive[s] implies crate::world::comp_free(r, s) by {
        assert(crate::world::comp_free(v, s));
    }
    assert(player_ok(r));
    assert(wf_core(r));
    assert forall|s: int|
        0 <= s < r.gens.len() && r.alive[s] && #[trigger] r.rend[s] is Some implies synced(r, s)
        && rect_settled(r, s) by {
        assert(v.rend[s] is Some);
    }
    assert forall|j: int| 0 <= j < r.queue.len() implies #[trigger] op_ok(r, r.queue, j) by {
        if j < v.queue.len() {
            assert(r.queue[j] == v.queue[j]);
            assert(op_ok(v, v.queue, j));
            match v.queue[j] {
                Op::Create(h2, b2) => {
                    assert forall|j2: int|
                        0 <= j2 < r.queue.len() && j2 != j implies match #[trigger] r.queue[j2] {
                        Op::Create(h3, _) => h3.slot != h2.slot,
                        _ => true,
                    } by {
                        if j2 < v.queue.len() {
                            assert(r.queue[j2] == v.queue[j2]);
                        } else {
                            assert(r.queue[j2] == dels[j2 - v.queue.len()]);
                            assert(dels.contains(dels[j2 - v.queue.len()]));
                        }
                    }
                },
                Op::Remove(h2, k) => {
                },
                Op::Delete(h2) => {
                },
            }
        } else {
            assert(r.queue[j] == dels[j - v.queue.len()]);
            assert(dels.contains(dels[j - v.queue.len()]));
            let t = choose|t: int|
                0 <= t < n && #[trigger] expire_cond(v, t) && dels[j - v.queue.len()]
                    == Op::Delete(handle_for(v, t));
            assert(live_v(r, handle_for(v, t)));
            assert(!crate::world::comp_free(r, t));
            assert(t != r.player_slot as int);
        }
    }
    assert forall|s: int|
        0 <= s < r.gens.len() && r.alive[s] && #[trigger] r.osc[s] is Some implies (
    r.osc[s]->Some_0.0 >= 1 || remove_osc_queued(r, r.queue, s)) by {
        assert(v.osc[s] is Some);
    }
    assert forall|j: int| 0 <= j < r.queue.len() implies match #[trigger] r.queue[j] {
        Op::Delete(h2) => live_v(r, h2),
        _ => true,
    } by {
        if j < v.queue.len() {
            assert(r.queue[j] == v.queue[j]);
        } else {
            assert(r.queue[j] == dels[j - v.queue.len()]);
            assert(dels.contains(dels[j - v.queue.len()]));
            let t = choose|t: int|
                0 <= t < n && #[trigger] expire_cond(v, t) && dels[j - v.queue.len()]
                    == Op::Delete(handle_for(v, t));
            assert(live_v(r, handle_for(v, t)));
        }
    }
    assert forall|s: int|
        0 <= s < r.gens.len() && r.alive[s] && #[trigger] r.osc[s] is Some implies
        r.osc[s]->Some_0.0 >= 1 by {
        assert(v.osc[s] is Some);
    }
    assert forall|s: int|
        0 <= s < r.gens.len() && r.alive[s] && #[trigger] r.baddy[s] is Some implies
        r.baddy[s]->Some_0.age <= r.frames by {
        assert(v.baddy[s] is Some);
    }
}

impl Galaga {
    /// The geometry and colour of every live rendered entity, in slot
    /// order, for the rendering boundary.
    pub fn render_rects(&self) -> (r: Vec<(Rect, (u8, u8, u8))>)
        requires
            lens_ok(self.world@),
        ensures
            r@ == render_items(self.world@, self.world@.gens.len() as int),
    {
        let ghost v = self.world@;
        let n = self.world.num_slots();
        let mut out: Vec<(Rect, (u8, u8, u8))> = Vec::new();
        let mut s: usize = 0;
        while s < n
            invariant
                lens_ok(v),
                v == self.world@,
                n == v.gens.len(),
                s <= n,
                out@ == render_items(v, s as int),
            decreases n - s,
        {
            if self.world.reg.alive[s] && self.world.rend[s].is_some() {
                let rd = self.world.rend[s].unwrap();
                out.push((rd.area, rd.colour));
            }
            proof {
                assert(out@ =~= render_items(v, s as int + 1));
            }
            s += 1;
        }
        out
    }

    /// The score and position of every live score popup, in slot order,
    /// for the rendering boundary.
    pub fn popup_texts(&self) -> (r: Vec<(u32, Position)>)
        requires
            lens_ok(self.world@),
        ensures
            r@ == popup_items(self.world@, self.world@.gens.len() as int),
    {
        let ghost v = self.world@;
        let n = self.world.num_slots();
        let mut out: Vec<(u32, Position)> = Vec::new();
        let mut s: usize = 0;
        while s < n
            invariant
                lens_ok(v),
                v == self.world@,
                n == v.gens.len(),
                s <= n,
                out@ == popup_items(v, s as int),
            decreases n - s,
        {
            if self.world.reg.alive[s] && self.world.score_text[s].is_some()
                && self.world.pos[s].is_some() {
                let st = self.world.score_text[s].unwrap();
                let p = self.world.pos[s].unwrap();
                out.push((st.score, p));
            }
            proof {
                assert(out@ =~= popup_items(v, s as int + 1));
            }
            s += 1;
        }
        out
    }

    /// Buffers deletion of every score popup shown for more than 60 ticks;
    /// the deletions take effect at the next tick's maintain point. Called
    /// from the drawing path, like the popups themselves.
    pub fn expire_popups(&mut self)
        requires
            galaga_inv(*old(self)),
        ensures
            galaga_inv(*final(self)),
            final(self).world@ == (WorldV {
                queue: old(self).world@.queue + expired_deletes(
                    old(self).world@,
                    old(self).world@.gens.len() as int,
                ),
                ..old(self).world@
            }),
            final(self).game_over == old(self).game_over,
            final(self).control == old(self).control,
    {
        let ghost v = self.world@;
        let n = self.world.num_slots();
        let frames_now = self.world.frames.0;
        let mut s: usize = 0;
        while s < n
            invariant
                wf_core(v),
                n == v.gens.len(),
                s <= n,
                frames_now == v.frames,
                self.world@ == (WorldV { queue: v.queue + expired_deletes(v, s as int), ..v }),
                self.game_over == old(self).game_over,
                self.control == old(self).control,
            decreases n - s,
        {
            if self.world.reg.alive[s] && self.world.score_text[s].is_some() {
                let st = self.world.score_text[s].unwrap();
                if st.frame <= frames_now && frames_now - st.frame > 60 {
                    let h = EntityHandle { slot: s, gen: self.world.reg.gens[s] };
                    self.world.enqueue(Op::Delete(h));
                    proof {
                        assert(expire_cond(v, s as int));
                        assert(h == handle_for(v, s as int));
                        assert(self.world@.queue =~= v.queue + expired_deletes(v, s as int + 1));
                        assert(self.world@ =~= (WorldV {
                            queue: v.queue + expired_deletes(v, s as int + 1),
                            ..v
                        }));
                    }
                } else {
                    proof {
                        assert(!expire_cond(v, s as int));
                        assert(self.world@.queue =~= v.queue + expired_deletes(v, s as int + 1));
                        assert(self.world@ =~= (WorldV {
                            queue: v.queue + expired_deletes(v, s as int + 1),
                            ..v
                        }));
                    }
                }
            } else {
                proof {
                    assert(!expire_cond(v, s as int));
                    assert(self.world@.queue =~= v.queue + expired_deletes(v, s as int + 1));
                    assert(self.world@ =~= (WorldV {
                        queue: v.queue + expired_deletes(v, s as int + 1),
                        ..v
                    }));
                }
            }
            s += 1;
        }
        proof {
            lemma_expire_good(v);
        }
    }
}

} // verus!
