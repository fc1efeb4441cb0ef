//! The entity-component store: a registry of generation-tagged slots, one
//! storage per component type, the shared resources, and the deferred
//! mutation queue that is drained exactly once per tick ("maintain").
//!
//! Systems never mutate storage structurally while they run; they enqueue
//! creations, removals and deletions, and `maintain` applies the buffered
//! operations in enqueue order, dropping any whose handle has gone stale.

use vstd::prelude::*;

use crate::components::Baddy;
use crate::components::Oscillates;
use crate::components::Position;
use crate::components::Rendered;
use crate::components::ScoreText;
use crate::components::Velocity;
use crate::components::WaverBaddy;
use crate::game::Frames;
use crate::game::InputState;
use crate::game::PlayerHealth;
use crate::game::PlayerScore;
use crate::registry::live_spec;
use crate::registry::reusable_spec;
use crate::registry::EntityHandle;
use crate::registry::Registry;

verus! {

/// Ticks stop being issued at this count, leaving arithmetic headroom so
/// that no position or velocity computation can overflow an i64. At 60
/// ticks a second this is on the order of a billion years of play.
pub const FRAME_LIMIT: u64 = 0x1000_0000_0000_0000;

/// The components attached to one entity at creation, all in a single
/// deferred batch, so a consumer never observes a partially initialized
/// entity. A `Some` (or `true` for a marker) component is inserted when the
/// batch is applied.
#[derive(Clone, Copy, Debug)]
pub struct Batch {
    pub baddy: Option<Baddy>,
    pub noob: bool,
    pub osc: Option<Oscillates>,
    pub player: bool,
    pub pos: Option<Position>,
    pub rend: Option<Rendered>,
    pub vel: Option<Velocity>,
    pub waver: Option<WaverBaddy>,
    pub dam_b: bool,
    pub dam_p: bool,
    pub score_text: Option<ScoreText>,
}

/// Names a component type, for removal requests.
#[derive(Clone, Copy, Debug)]
pub enum CompKind {
    Baddy,
    Noob,
    Osc,
    Player,
    Pos,
    Rend,
    Vel,
    Waver,
    DamB,
    DamP,
    Score,
}

/// One buffered structural mutation. Component insertions ride in the
/// creation batch; a stale handle makes any operation a silent no-op.
#[derive(Clone, Copy, Debug)]
pub enum Op {
    Create(EntityHandle, Batch),
    Remove(EntityHandle, CompKind),
    Delete(EntityHandle),
}

/// The mathematical model of a `World`: every storage as a sequence indexed
/// by slot, the buffered operations, and the shared resources.
#[verifier::ext_equal]
pub ghost struct WorldV {
    pub gens: Seq<u64>,
    pub alive: Seq<bool>,
    pub baddy: Seq<Option<Baddy>>,
    pub noob: Seq<bool>,
    pub osc: Seq<Option<Oscillates>>,
    pub player: Seq<bool>,
    pub pos: Seq<Option<Position>>,
    pub rend: Seq<Option<Rendered>>,
    pub vel: Seq<Option<Velocity>>,
    pub waver: Seq<Option<WaverBaddy>>,
    pub dam_b: Seq<bool>,
    pub dam_p: Seq<bool>,
    pub score_text: Seq<Option<ScoreText>>,
    pub queue: Seq<Op>,
    pub frames: u64,
    pub input: InputState,
    pub health: u32,
    pub score: u32,
    pub player_slot: usize,
}

/// The entity-component store plus shared resources.
pub struct World {
    pub reg: Registry,
    pub baddy: Vec<Option<Baddy>>,
    pub noob: Vec<bool>,
    pub osc: Vec<Option<Oscillates>>,
    pub player: Vec<bool>,
    pub pos: Vec<Option<Position>>,
    pub rend: Vec<Option<Rendered>>,
    pub vel: Vec<Option<Velocity>>,
    pub waver: Vec<Option<WaverBaddy>>,
    pub dam_b: Vec<bool>,
    pub dam_p: Vec<bool>,
    pub score_text: Vec<Option<ScoreText>>,
    pub queue: Vec<Op>,
    pub frames: Frames,
    pub input: InputState,
    pub health: PlayerHealth,
    pub score: PlayerScore,
    pub player_slot: usize,
}

impl View for World {
    type V = WorldV;

    open spec fn view(&self) -> WorldV {
        WorldV {
            gens: self.reg.gens@,
            alive: self.reg.alive@,
            baddy: self.baddy@,
            noob: self.noob@,
            osc: self.osc@,
            player: self.player@,
            pos: self.pos@,
            rend: self.rend@,
            vel: self.vel@,
            waver: self.waver@,
            dam_b: self.dam_b@,
            dam_p: self.dam_p@,
            score_text: self.score_text@,
            queue: self.queue@,
            frames: self.frames.0,
            input: self.input,
            health: self.health.0,
            score: self.score.0,
            player_slot: self.player_slot,
        }
    }
}

/// All storages have one entry per registry slot.
pub open spec fn lens_ok(v: WorldV) -> bool {
    let n = v.gens.len();
    &&& v.alive.len() == n
    &&& v.baddy.len() == n
    &&& v.noob.len() == n
    &&& v.osc.len() == n
    &&& v.player.len() == n
    &&& v.pos.len() == n
    &&& v.rend.len() == n
    &&& v.vel.len() == n
    &&& v.waver.len() == n
    &&& v.dam_b.len() == n
    &&& v.dam_p.len() == n
    &&& v.score_text.len() == n
}

/// Is this handle still the current occupant of its slot?
pub open spec fn live_v(v: WorldV, h: EntityHandle) -> bool {
    live_spec(v.gens, v.alive, h)
}

/// Is this slot occupied?
pub open spec fn slot_live(v: WorldV, s: int) -> bool {
    0 <= s < v.alive.len() && v.alive[s]
}

/// The handle of the current occupant of a slot.
pub open spec fn handle_for(v: WorldV, s: int) -> EntityHandle {
    EntityHandle { slot: s as usize, gen: v.gens[s] }
}

/// No component of any type is attached at this slot.
pub open spec fn comp_free(v: WorldV, s: int) -> bool {
    &&& v.baddy[s] is None
    &&& !v.noob[s]
    &&& v.osc[s] is None
    &&& !v.player[s]
    &&& v.pos[s] is None
    &&& v.rend[s] is None
    &&& v.vel[s] is None
    &&& v.waver[s] is None
    &&& !v.dam_b[s]
    &&& !v.dam_p[s]
    &&& v.score_text[s] is None
}

/// Every unoccupied slot has no components attached: freeing clears them,
/// and a brand-new slot starts empty.
pub open spec fn dead_clear(v: WorldV) -> bool {
    forall|s: int| 0 <= s < v.alive.len() && !v.alive[s] ==> comp_free(v, s)
}

/// How a freshly allocated entity relates the world before and after:
/// one previously dead slot (recycled, or brand new at the end) becomes
/// live and component-free, and nothing else changes.
pub open spec fn created(pre: WorldV, post: WorldV, h: EntityHandle) -> bool {
    &&& lens_ok(post)
    &&& dead_clear(post)
    &&& live_v(post, h)
    &&& comp_free(post, h.slot as int)
    &&& post.queue == pre.queue
    &&& post.frames == pre.frames
    &&& post.input == pre.input
    &&& post.health == pre.health
    &&& post.score == pre.score
    &&& post.player_slot == pre.player_slot
    &&& !slot_live(pre, h.slot as int)
    &&& forall|s: int|
        0 <= s < pre.gens.len() && s != h.slot ==> {
            &&& post.gens[s] == pre.gens[s]
            &&& post.alive[s] == pre.alive[s]
            &&& post.baddy[s] == pre.baddy[s]
            &&& post.noob[s] == pre.noob[s]
            &&& post.osc[s] == pre.osc[s]
            &&& post.player[s] == pre.player[s]
            &&& post.pos[s] == pre.pos[s]
            &&& post.rend[s] == pre.rend[s]
            &&& post.vel[s] == pre.vel[s]
            &&& post.waver[s] == pre.waver[s]
            &&& post.dam_b[s] == pre.dam_b[s]
            &&& post.dam_p[s] == pre.dam_p[s]
            &&& post.score_text[s] == pre.score_text[s]
        }
    &&& forall|s: int| 0 <= s < pre.gens.len() ==> post.gens[s] == pre.gens[s]
    &&& (h.slot as int == pre.gens.len() || ((h.slot as int) < pre.gens.len() && comp_free(
        pre,
        h.slot as int,
    )))
    &&& (h.slot as int == pre.gens.len() ==> h.gen == 0 && post.gens == pre.gens.push(0))
    &&& post.gens.len() == if h.slot as int == pre.gens.len() {
        pre.gens.len() + 1
    } else {
        pre.gens.len()
    }
    &&& (post.alive == pre.alive.update(h.slot as int, true) || (h.slot as int == pre.gens.len()
        && post.alive == pre.alive.push(true)))
    &&& forall|h2: EntityHandle| live_v(pre, h2) ==> live_v(post, h2) && h2.slot != h.slot
}

/// Insert every component the batch carries at slot `s`, overwriting.
pub open spec fn apply_batch(v: WorldV, s: int, b: Batch) -> WorldV {
    WorldV {
        baddy: if b.baddy is Some {
            v.baddy.update(s, b.baddy)
        } else {
            v.baddy
        },
        noob: if b.noob {
            v.noob.update(s, true)
        } else {
            v.noob
        },
        osc: if b.osc is Some {
            v.osc.update(s, b.osc)
        } else {
            v.osc
        },
        player: if b.player {
            v.player.update(s, true)
        } else {
            v.player
        },
        pos: if b.pos is Some {
            v.pos.update(s, b.pos)
        } else {
            v.pos
        },
        rend: if b.rend is Some {
            v.rend.update(s, b.rend)
        } else {
            v.rend
        },
        vel: if b.vel is Some {
            v.vel.update(s, b.vel)
        } else {
            v.vel
        },
        waver: if b.waver is Some {
            v.waver.update(s, b.waver)
        } else {
            v.waver
        },
        dam_b: if b.dam_b {
            v.dam_b.update(s, true)
        } else {
            v.dam_b
        },
        dam_p: if b.dam_p {
            v.dam_p.update(s, true)
        } else {
            v.dam_p
        },
        score_text: if b.score_text is Some {
            v.score_text.update(s, b.score_text)
        } else {
            v.score_text
        },
        ..v
    }
}

/// Detach the named component at slot `s`, a no-op when absent.
pub open spec fn remove_comp(v: WorldV, s: int, k: CompKind) -> WorldV {
    match k {
        CompKind::Baddy => WorldV { baddy: v.baddy.update(s, None), ..v },
        CompKind::Noob => WorldV { noob: v.noob.update(s, false), ..v },
        CompKind::Osc => WorldV { osc: v.osc.update(s, None), ..v },
        CompKind::Player => WorldV { player: v.player.update(s, false), ..v },
        CompKind::Pos => WorldV { pos: v.pos.update(s, None), ..v },
        CompKind::Rend => WorldV { rend: v.rend.update(s, None), ..v },
        CompKind::Vel => WorldV { vel: v.vel.update(s, None), ..v },
        CompKind::Waver => WorldV { waver: v.waver.update(s, None), ..v },
        CompKind::DamB => WorldV { dam_b: v.dam_b.update(s, false), ..v },
        CompKind::DamP => WorldV { dam_p: v.dam_p.update(s, false), ..v },
        CompKind::Score => WorldV { score_text: v.score_text.update(s, None), ..v },
    }
}

/// Free the handle's slot: mark it unoccupied, bump its generation so every
/// outstanding handle goes stale, and detach all its components.
pub open spec fn free_v(v: WorldV, h: EntityHandle) -> WorldV {
    let s = h.slot as int;
    WorldV {
        gens: v.gens.update(
            s,
            if h.gen < u64::MAX {
                (h.gen + 1) as u64
            } else {
                h.gen
            },
        ),
        alive: v.alive.update(s, false),
        baddy: v.baddy.update(s, None),
        noob: v.noob.update(s, false),
        osc: v.osc.update(s, None),
        player: v.player.update(s, false),
        pos: v.pos.update(s, None),
        rend: v.rend.update(s, None),
        vel: v.vel.update(s, None),
        waver: v.waver.update(s, None),
        dam_b: v.dam_b.update(s, false),
        dam_p: v.dam_p.update(s, false),
        score_text: v.score_text.update(s, None),
        ..v
    }
}

/// Apply one buffered operation; an operation whose handle is stale is
/// dropped without effect.
pub open spec fn apply_op(v: WorldV, op: Op) -> WorldV {
    match op {
        Op::Create(h, b) => if live_v(v, h) {
            apply_batch(v, h.slot as int, b)
        } else {
            v
        },
        Op::Remove(h, k) => if live_v(v, h) {
            remove_comp(v, h.slot as int, k)
        } else {
            v
        },
        Op::Delete(h) => if live_v(v, h) {
            free_v(v, h)
        } else {
            v
        },
    }
}

/// Apply a sequence of buffered operations in order.
pub open spec fn apply_ops(v: WorldV, ops: Seq<Op>) -> WorldV
    decreases ops.len(),
{
    if ops.len() == 0 {
        v
    } else {
        apply_ops(apply_op(v, ops[0]), ops.skip(1))
    }
}

/// The effect of `maintain`: every buffered operation applied in enqueue
/// order, then the queue cleared.
pub open spec fn drain_v(v: WorldV) -> WorldV {
    WorldV { queue: Seq::empty(), ..apply_ops(v, v.queue) }
}

/// Applying operations touches neither the queue, the resources, the
/// designated player slot, nor any storage length.
pub proof fn lemma_apply_ops_frame(v: WorldV, ops: Seq<Op>)
    requires
        lens_ok(v),
    ensures
        lens_ok(apply_ops(v, ops)),
        apply_ops(v, ops).gens.len() == v.gens.len(),
        apply_ops(v, ops).queue == v.queue,
        apply_ops(v, ops).frames == v.frames,
        apply_ops(v, ops).input == v.input,
        apply_ops(v, ops).health == v.health,
        apply_ops(v, ops).score == v.score,
        apply_ops(v, ops).player_slot == v.player_slot,
        apply_ops(v, ops).gens.len() == v.gens.len(),
    decreases ops.len(),
{
    if ops.len() > 0 {
        lemma_apply_ops_frame(apply_op(v, ops[0]), ops.skip(1));
    }
}

/// Appending one operation to a sequence applies it last.
pub proof fn lemma_apply_ops_snoc(v: WorldV, ops: Seq<Op>, op: Op)
    ensures
        apply_ops(v, ops.push(op)) == apply_op(apply_ops(v, ops), op),
    decreases ops.len(),
{
    reveal_with_fuel(apply_ops, 3);
    if ops.len() == 0 {
        assert(ops.push(op).skip(1) =~= Seq::<Op>::empty());
        assert(ops.push(op)[0] == op);
    } else {
        assert(ops.push(op)[0] == ops[0]);
        assert(ops.push(op).skip(1) =~= ops.skip(1).push(op));
        lemma_apply_ops_snoc(apply_op(v, ops[0]), ops.skip(1), op);
    }
}

/// Applying a concatenation applies the parts in order.
pub proof fn lemma_apply_ops_concat(v: WorldV, a: Seq<Op>, b: Seq<Op>)
    ensures
        apply_ops(v, a + b) == apply_ops(apply_ops(v, a), b),
    decreases a.len(),
{
    if a.len() == 0 {
        assert(a + b =~= b);
    } else {
        assert((a + b)[0] == a[0]);
        assert((a + b).skip(1) =~= a.skip(1) + b);
        lemma_apply_ops_concat(apply_op(v, a[0]), a.skip(1), b);
    }
}

/// A dead handle stays dead through any sequence of buffered operations:
/// nothing in the queue can resurrect a stale handle, because slots are
/// allocated by the registry, never by the queue.
pub proof fn lemma_dead_stays_dead(v: WorldV, ops: Seq<Op>, h: EntityHandle)
    requires
        lens_ok(v),
        !live_v(v, h),
    ensures
        !live_v(apply_ops(v, ops), h),
    decreases ops.len(),
{
    if ops.len() > 0 {
        lemma_dead_stays_dead(apply_op(v, ops[0]), ops.skip(1), h);
    }
}

/// Once a Delete for a handle sits in the operations, the handle is not
/// live after they are applied.
pub proof fn lemma_delete_applies(v: WorldV, ops: Seq<Op>, i: int, h: EntityHandle)
    requires
        lens_ok(v),
        0 <= i < ops.len(),
        ops[i] == Op::Delete(h),
    ensures
        !live_v(apply_ops(v, ops), h),
    decreases ops.len(),
{
    if i == 0 {
        lemma_dead_stays_dead(apply_op(v, ops[0]), ops.skip(1), h);
    } else {
        lemma_delete_applies(apply_op(v, ops[0]), ops.skip(1), i - 1, h);
    }
}

/// A live handle stays live through operations that hold no Delete for it.
pub proof fn lemma_live_without_delete(v: WorldV, ops: Seq<Op>, h: EntityHandle)
    requires
        lens_ok(v),
        live_v(v, h),
        forall|i: int| 0 <= i < ops.len() ==> ops[i] != Op::Delete(h),
    ensures
        live_v(apply_ops(v, ops), h),
    decreases ops.len(),
{
    if ops.len() > 0 {
        assert(forall|i: int|
            0 <= i < ops.skip(1).len() ==> ops.skip(1)[i] == ops[i + 1]);
        lemma_live_without_delete(apply_op(v, ops[0]), ops.skip(1), h);
    }
}

/// An entity is not live after the maintain point once its deletion was
/// buffered, whatever else the queue holds.
pub proof fn lemma_deleted_not_live_after_drain(v: WorldV, i: int, h: EntityHandle)
    requires
        lens_ok(v),
        0 <= i < v.queue.len(),
        v.queue[i] == Op::Delete(h),
    ensures
        !live_v(drain_v(v), h),
{
    lemma_delete_applies(v, v.queue, i, h);
}

/// An entity stays live across the maintain point while no deletion for it
/// was buffered.
pub proof fn lemma_live_after_drain(v: WorldV, h: EntityHandle)
    requires
        lens_ok(v),
        live_v(v, h),
        forall|i: int| 0 <= i < v.queue.len() ==> v.queue[i] != Op::Delete(h),
    ensures
        live_v(drain_v(v), h),
{
    lemma_live_without_delete(v, v.queue, h);
}

/// Deleting the same handle twice within one tick's queue reaches the same
/// post-maintain state as deleting it once: the first Delete leaves the
/// handle stale, and a stale Delete is dropped.
pub proof fn lemma_delete_twice_idempotent(
    v: WorldV,
    pre: Seq<Op>,
    mid: Seq<Op>,
    post: Seq<Op>,
    h: EntityHandle,
)
    requires
        lens_ok(v),
    ensures
        apply_ops(v, pre + seq![Op::Delete(h)] + mid + seq![Op::Delete(h)] + post) == apply_ops(
            v,
            pre + seq![Op::Delete(h)] + mid + post,
        ),
{
    reveal_with_fuel(apply_ops, 3);
    let d = seq![Op::Delete(h)];
    assert(d[0] == Op::Delete(h));
    assert(d.skip(1) =~= Seq::<Op>::empty());
    let v1 = apply_ops(v, pre + d);
    lemma_apply_ops_frame(v, pre);
    lemma_apply_ops_frame(v, pre + d);
    lemma_apply_ops_concat(v, pre, d);
    assert(apply_ops(apply_ops(v, pre), d) == apply_op(apply_ops(v, pre), Op::Delete(h)));
    assert(!live_v(v1, h));
    let v2 = apply_ops(v1, mid);
    lemma_dead_stays_dead(v1, mid, h);
    assert(apply_op(v2, Op::Delete(h)) == v2);
    lemma_apply_ops_concat(v, pre + d, mid);
    lemma_apply_ops_concat(v, pre + d + mid, d);
    lemma_apply_ops_concat(v, pre + d + mid + d, post);
    lemma_apply_ops_concat(v, pre + d + mid, post);
    assert(pre + seq![Op::Delete(h)] + mid + seq![Op::Delete(h)] + post =~= pre + d + mid + d
        + post);
    assert(pre + seq![Op::Delete(h)] + mid + post =~= pre + d + mid + post);
    assert(apply_ops(v, pre + d + mid + d + post) == apply_ops(
        apply_ops(apply_ops(v, pre + d + mid), d),
        post,
    ));
    assert(apply_ops(apply_ops(v, pre + d + mid), d) == apply_op(v2, Op::Delete(h)));
}

impl World {
    /// An empty world: no slots, no buffered operations, full health, zero
    /// score, no keys pressed, tick counter at zero.
    pub fn new() -> (w: World)
        ensures
            w@.gens.len() == 0,
            lens_ok(w@),
            w@.queue.len() == 0,
            w@.frames == 0,
            w@.health == crate::components::MAX_PLAYER_HEALTH,
            w@.score == 0,
            w@.input == (InputState {
                up: false,
                down: false,
                left: false,
                right: false,
                shoot: false,
            }),
            w@.player_slot == 0,
    {
        World {
            reg: Registry::new(),
            baddy: Vec::new(),
            noob: Vec::new(),
            osc: Vec::new(),
            player: Vec::new(),
            pos: Vec::new(),
            rend: Vec::new(),
            vel: Vec::new(),
            waver: Vec::new(),
            dam_b: Vec::new(),
            dam_p: Vec::new(),
            score_text: Vec::new(),
            queue: Vec::new(),
            frames: Frames(0),
            input: InputState { up: false, down: false, left: false, right: false, shoot: false },
            health: PlayerHealth(crate::components::MAX_PLAYER_HEALTH),
            score: PlayerScore(0),
            player_slot: 0,
        }
    }

    /// Number of slots ever allocated.
    pub fn num_slots(&self) -> (n: usize)
        requires
            lens_ok(self@),
        ensures
            n == self@.gens.len(),
    {
        self.reg.num_slots()
    }

    /// Is this handle still live? O(1) generation comparison.
    pub fn is_live(&self, h: EntityHandle) -> (r: bool)
        requires
            lens_ok(self@),
        ensures
            r == live_v(self@, h),
    {
        self.reg.is_live(h)
    }

    /// Allocates a handle immediately (recycling the lowest stale slot if
    /// one exists) and gives every storage an empty entry for it. The new
    /// entity carries no components until a buffered creation batch for it
    /// is drained, so no system observes it half-built.
    pub fn create_entity(&mut self) -> (h: EntityHandle)
        requires
            lens_ok(old(self)@),
            dead_clear(old(self)@),
        ensures
            created(old(self)@, final(self)@, h),
            lens_ok(final(self)@),
            dead_clear(final(self)@),
            live_v(final(self)@, h),
            comp_free(final(self)@, h.slot as int),
            final(self)@.queue == old(self)@.queue,
            final(self)@.frames == old(self)@.frames,
            final(self)@.input == old(self)@.input,
            final(self)@.health == old(self)@.health,
            final(self)@.score == old(self)@.score,
            final(self)@.player_slot == old(self)@.player_slot,
            !slot_live(old(self)@, h.slot as int),
            forall|s: int|
                0 <= s < old(self)@.gens.len() && s != h.slot ==> {
                    &&& final(self)@.gens[s] == old(self)@.gens[s]
                    &&& final(self)@.alive[s] == old(self)@.alive[s]
                    &&& final(self)@.baddy[s] == old(self)@.baddy[s]
                    &&& final(self)@.noob[s] == old(self)@.noob[s]
                    &&& final(self)@.osc[s] == old(self)@.osc[s]
                    &&& final(self)@.player[s] == old(self)@.player[s]
                    &&& final(self)@.pos[s] == old(self)@.pos[s]
                    &&& final(self)@.rend[s] == old(self)@.rend[s]
                    &&& final(self)@.vel[s] == old(self)@.vel[s]
                    &&& final(self)@.waver[s] == old(self)@.waver[s]
                    &&& final(self)@.dam_b[s] == old(self)@.dam_b[s]
                    &&& final(self)@.dam_p[s] == old(self)@.dam_p[s]
                    &&& final(self)@.score_text[s] == old(self)@.score_text[s]
                },
            forall|s: int|
                0 <= s < old(self)@.gens.len() ==> final(self)@.gens[s] == old(self)@.gens[s],
            h.slot as int == old(self)@.gens.len() || ((h.slot as int) < old(self)@.gens.len()
                && comp_free(old(self)@, h.slot as int)),
            h.slot as int == old(self)@.gens.len() ==> h.gen == 0 && final(self)@.gens == old(
                self,
            )@.gens.push(0),
            final(self)@.gens.len() == if h.slot as int == old(self)@.gens.len() {
                old(self)@.gens.len() + 1
            } else {
                old(self)@.gens.len()
            },
            final(self)@.alive == old(self)@.alive.update(h.slot as int, true) || (
            h.slot as int == old(self)@.gens.len() && final(self)@.alive == old(
                self,
            )@.alive.push(true)),
            forall|h2: EntityHandle|
                live_v(old(self)@, h2) ==> live_v(final(self)@, h2) && h2.slot != h.slot,
    {
        let ghost pre = self@;
        let h = self.reg.allocate();
        if h.slot == self.baddy.len() {
            self.baddy.push(None);
            self.noob.push(false);
            self.osc.push(None);
            self.player.push(false);
            self.pos.push(None);
            self.rend.push(None);
            self.vel.push(None);
            self.waver.push(None);
            self.dam_b.push(false);
            self.dam_p.push(false);
            self.score_text.push(None);
        }
        proof {
            if (h.slot as int) < pre.gens.len() {
                assert(reusable_spec(pre.gens, pre.alive, h.slot as int));
                assert(!pre.alive[h.slot as int]);
                assert(comp_free(pre, h.slot as int));
                assert(comp_free(self@, h.slot as int));
                assert forall|s: int|
                    0 <= s < self@.alive.len() && !self@.alive[s] implies comp_free(
                    self@,
                    s,
                ) by {
                    assert(!pre.alive[s]);
                    assert(comp_free(pre, s));
                }
            } else {
                assert(comp_free(self@, h.slot as int));
                assert forall|s: int|
                    0 <= s < self@.alive.len() && !self@.alive[s] implies comp_free(
                    self@,
                    s,
                ) by {
                    if s < pre.gens.len() {
                        assert(!pre.alive[s]);
                        assert(comp_free(pre, s));
                    }
                }
            }
        }
        h
    }

    /// Buffer one structural mutation for the next maintain point.
    pub fn enqueue(&mut self, op: Op)
        ensures
            final(self)@ == (WorldV { queue: old(self)@.queue.push(op), ..old(self)@ }),
    {
        self.queue.push(op);
    }

    /// Applies one buffered operation against live storage.
    #[verifier::rlimit(100)]
    fn apply_one(&mut self, op: Op)
        requires
            lens_ok(old(self)@),
        ensures
            final(self)@ == apply_op(old(self)@, op),
            lens_ok(final(self)@),
            final(self).queue@ == old(self).queue@,
    {
        match op {
            Op::Create(h, b) => {
                if self.reg.is_live(h) {
                    let s = h.slot;
                    if let Some(c) = b.baddy {
                        self.baddy.set(s, Some(c));
                    }
                    if b.noob {
                        self.noob.set(s, true);
                    }
                    if let Some(c) = b.osc {
                        self.osc.set(s, Some(c));
                    }
                    if b.player {
                        self.player.set(s, true);
                    }
                    if let Some(c) = b.pos {
                        self.pos.set(s, Some(c));
                    }
                    if let Some(c) = b.rend {
                        self.rend.set(s, Some(c));
                    }
                    if let Some(c) = b.vel {
                        self.vel.set(s, Some(c));
                    }
                    if let Some(c) = b.waver {
                        self.waver.set(s, Some(c));
                    }
                    if b.dam_b {
                        self.dam_b.set(s, true);
                    }
                    if b.dam_p {
                        self.dam_p.set(s, true);
                    }
                    if let Some(c) = b.score_text {
                        self.score_text.set(s, Some(c));
                    }
                    assert(self@ =~= apply_batch(old(self)@, h.slot as int, b));
                }
            },
            Op::Remove(h, k) => {
                if self.reg.is_live(h) {
                    let s = h.slot;
                    match k {
                        CompKind::Baddy => self.baddy.set(s, None),
                        CompKind::Noob => self.noob.set(s, false),
                        CompKind::Osc => self.osc.set(s, None),
                        CompKind::Player => self.player.set(s, false),
                        CompKind::Pos => self.pos.set(s, None),
                        CompKind::Rend => self.rend.set(s, None),
                        CompKind::Vel => self.vel.set(s, None),
                        CompKind::Waver => self.waver.set(s, None),
                        CompKind::DamB => self.dam_b.set(s, false),
                        CompKind::DamP => self.dam_p.set(s, false),
                        CompKind::Score => self.score_text.set(s, None),
                    }
                    assert(self@ =~= remove_comp(old(self)@, h.slot as int, k));
                }
            },
            Op::Delete(h) => {
                if self.reg.is_live(h) {
                    let s = h.slot;
                    self.reg.free(h);
                    self.baddy.set(s, None);
                    self.noob.set(s, false);
                    self.osc.set(s, None);
                    self.player.set(s, false);
                    self.pos.set(s, None);
                    self.rend.set(s, None);
                    self.vel.set(s, None);
                    self.waver.set(s, None);
                    self.dam_b.set(s, false);
                    self.dam_p.set(s, false);
                    self.score_text.set(s, None);
                    assert(self@ =~= free_v(old(self)@, h));
                }
            },
        }
    }

    /// The maintain point: drains the deferred queue into live storage,
    /// applying every buffered operation in enqueue order (operations whose
    /// handle went stale are dropped), then clears the queue. Called exactly
    /// once per tick, after all systems finish.
    pub fn maintain(&mut self)
        requires
            lens_ok(old(self)@),
        ensures
            final(self)@ == drain_v(old(self)@),
            lens_ok(final(self)@),
    {
        let ghost pre = self@;
        let n_ops = self.queue.len();
        let mut i: usize = 0;
        while i < n_ops
            invariant
                lens_ok(pre),
                lens_ok(self@),
                i <= n_ops,
                n_ops == pre.queue.len(),
                self.queue@ == pre.queue,
                self@ == (WorldV { queue: pre.queue, ..apply_ops(pre, pre.queue.take(i as int)) }),
            decreases n_ops - i,
        {
            let op = self.queue[i];
            proof {
                lemma_apply_ops_frame(pre, pre.queue.take(i as int));
                assert(pre.queue.take(i as int).push(op) =~= pre.queue.take(i as int + 1));
                lemma_apply_ops_snoc(pre, pre.queue.take(i as int), op);
            }
            self.apply_one(op);
            proof {
                let prev = WorldV { queue: pre.queue, ..apply_ops(pre, pre.queue.take(i as int)) };
                assert(apply_op(prev, op) =~= (WorldV {
                    queue: pre.queue,
                    ..apply_op(apply_ops(pre, pre.queue.take(i as int)), op)
                }));
            }
            i += 1;
        }
        proof {
            assert(pre.queue.take(n_ops as int) =~= pre.queue);
            lemma_apply_ops_frame(pre, pre.queue);
        }
        self.queue.clear();
        assert(self@ =~= drain_v(pre));
    }
}

} // verus!
