//! Entity creation: the player (built immediately at world init) and the
//! deferred creation batches for enemies, projectiles and score popups.
//! Spawn randomness is drawn here; every batch shape is pinned exactly, with
//! the random draws existentially bounded.

use vstd::prelude::*;

use crate::components::Baddy;
use crate::components::Oscillates;
use crate::components::Position;
use crate::components::Rect;
use crate::components::Rendered;
use crate::components::ScoreText;
use crate::components::Velocity;
use crate::components::WaverBaddy;
use crate::components::GAME_HEIGHT;
use crate::components::GAME_WIDTH;
use crate::components::NOOB_PROJ_SIZE;
use crate::components::NOOB_SIZE;
use crate::components::PLAYER_PROJ_HEIGHT;
use crate::components::PLAYER_PROJ_WIDTH;
use crate::components::PLAYER_SIZE;
use crate::components::WAVER_SIZE;
use crate::registry::EntityHandle;
use crate::rng::coin;
use crate::rng::range_u64;
use crate::world::dead_clear;
use crate::world::lens_ok;
use crate::world::Batch;
use crate::world::Op;
use crate::world::World;
use crate::world::WorldV;

verus! {

/// A batch with nothing in it, to be filled per archetype.
pub open spec fn empty_batch() -> Batch {
    Batch {
        baddy: None,
        noob: false,
        osc: None,
        player: false,
        pos: None,
        rend: None,
        vel: None,
        waver: None,
        dam_b: false,
        dam_p: false,
        score_text: None,
    }
}

/// A Noob baddy: 3 health, 100 points, oscillation budget `flips`, moving
/// rightward at `speed`, firing at the player.
pub open spec fn noob_batch(pos: Position, speed: i64, flips: u8) -> Batch {
    Batch {
        baddy: Some(Baddy { age: 0, health: 3, score: 100 }),
        noob: true,
        osc: Some(Oscillates(flips)),
        pos: Some(pos),
        vel: Some(Velocity { x: speed, y: 0 }),
        rend: Some(
            Rendered {
                area: Rect { x: pos.x, y: pos.y, w: NOOB_SIZE, h: NOOB_SIZE },
                colour: (0xDD, 0x66, 0x33),
            },
        ),
        dam_p: true,
        ..empty_batch()
    }
}

/// A Waver baddy: 1 health, 10 points, carrying its wave rank and the
/// starting position and velocity shared by its whole wave.
pub open spec fn waver_batch(rank: u64, pos: Position, vel: Velocity) -> Batch {
    Batch {
        baddy: Some(Baddy { age: 0, health: 1, score: 10 }),
        waver: Some(WaverBaddy { rank, pos, vel }),
        pos: Some(pos),
        vel: Some(vel),
        rend: Some(
            Rendered {
                area: Rect { x: pos.x, y: pos.y, w: WAVER_SIZE, h: WAVER_SIZE },
                colour: (0xFF, 0x00, 0xFF),
            },
        ),
        dam_p: true,
        ..empty_batch()
    }
}

/// A Noob's projectile: drops downward with a small horizontal drift,
/// harming the player on contact.
pub open spec fn noob_proj_batch(pos: Position, drift: i64) -> Batch {
    Batch {
        pos: Some(pos),
        vel: Some(Velocity { x: drift, y: 4 }),
        rend: Some(
            Rendered {
                area: Rect { x: pos.x, y: pos.y, w: NOOB_PROJ_SIZE, h: NOOB_PROJ_SIZE },
                colour: (0xFF, 0x00, 0x00),
            },
        ),
        dam_p: true,
        ..empty_batch()
    }
}

/// The player's projectile: flies straight up, harming enemies on contact.
pub open spec fn player_proj_batch(pos: Position) -> Batch {
    Batch {
        pos: Some(pos),
        vel: Some(Velocity { x: 0, y: (-8) as i64 }),
        rend: Some(
            Rendered {
                area: Rect { x: pos.x, y: pos.y, w: PLAYER_PROJ_WIDTH, h: PLAYER_PROJ_HEIGHT },
                colour: (0x00, 0x00, 0xFF),
            },
        ),
        dam_b: true,
        ..empty_batch()
    }
}

/// A transient score popup at the fallen baddy's position.
pub open spec fn popup_batch(pos: Position, score: u32, frame: u64) -> Batch {
    Batch { pos: Some(pos), score_text: Some(ScoreText { score, frame }), ..empty_batch() }
}

/// Where the player's projectile appears: centered above the player.
pub open spec fn player_proj_pos(p: Position) -> Position {
    Position {
        x: (p.x + PLAYER_SIZE / 2 - PLAYER_PROJ_WIDTH / 2) as i64,
        y: (p.y - PLAYER_PROJ_HEIGHT) as i64,
    }
}

/// Where a Noob's projectile appears: just below the Noob.
pub open spec fn noob_proj_pos(b: Position) -> Position {
    Position { x: (b.x + NOOB_SIZE / 2) as i64, y: (b.y + NOOB_SIZE + 2) as i64 }
}

/// Creates the player entity immediately in a fresh world: centered in the
/// game area, at rest, visible, marked as the single controllable entity.
pub fn create_player(w: &mut World)
    requires
        lens_ok(old(w)@),
        dead_clear(old(w)@),
        old(w)@.gens.len() == 0,
    ensures
        final(w)@ == (WorldV {
            gens: seq![0u64],
            alive: seq![true],
            baddy: seq![None],
            noob: seq![false],
            osc: seq![None],
            player: seq![true],
            pos: seq![Some(Position { x: (GAME_WIDTH / 2) as i64, y: (GAME_HEIGHT / 2) as i64 })],
            rend: seq![
                Some(
                    Rendered {
                        area: Rect {
                            x: (GAME_WIDTH / 2) as i64,
                            y: (GAME_HEIGHT / 2) as i64,
                            w: PLAYER_SIZE,
                            h: PLAYER_SIZE,
                        },
                        colour: (0xAA, 0xAA, 0xAA),
                    },
                )
            ],
            vel: seq![Some(Velocity { x: 0, y: 0 })],
            waver: seq![None],
            dam_b: seq![false],
            dam_p: seq![false],
            score_text: seq![None],
            player_slot: 0,
            ..old(w)@
        }),
{
    let h = w.create_entity();
    w.player.set(h.slot, true);
    w.pos.set(h.slot, Some(Position { x: (GAME_WIDTH / 2) as i64, y: (GAME_HEIGHT / 2) as i64 }));
    w.vel.set(h.slot, Some(Velocity { x: 0, y: 0 }));
    w.rend.set(
        h.slot,
        Some(
            Rendered {
                area: Rect {
                    x: GAME_WIDTH / 2,
                    y: GAME_HEIGHT / 2,
                    w: PLAYER_SIZE,
                    h: PLAYER_SIZE,
                },
                colour: (0xAA, 0xAA, 0xAA),
            },
        ),
    );
    w.player_slot = h.slot;
    proof {
        assert(w@ =~= (WorldV {
            gens: seq![0u64],
            alive: seq![true],
            baddy: seq![None],
            noob: seq![false],
            osc: seq![None],
            player: seq![true],
            pos: seq![Some(Position { x: (GAME_WIDTH / 2) as i64, y: (GAME_HEIGHT / 2) as i64 })],
            rend: seq![
                Some(
                    Rendered {
                        area: Rect {
                            x: (GAME_WIDTH / 2) as i64,
                            y: (GAME_HEIGHT / 2) as i64,
                            w: PLAYER_SIZE,
                            h: PLAYER_SIZE,
                        },
                        colour: (0xAA, 0xAA, 0xAA),
                    },
                )
            ],
            vel: seq![Some(Velocity { x: 0, y: 0 })],
            waver: seq![None],
            dam_b: seq![false],
            dam_p: seq![false],
            score_text: seq![None],
            player_slot: 0,
            ..old(w)@
        }));
    }
}

/// Buffers creation of a projectile shot by the player, from the player's
/// current position.
pub fn create_player_projectile(w: &mut World, e: EntityHandle, p_pos: Position)
    requires
        -100000 <= p_pos.x <= 100000,
        -100000 <= p_pos.y <= 100000,
    ensures
        final(w)@ == (WorldV {
            queue: old(w)@.queue.push(Op::Create(e, player_proj_batch(player_proj_pos(p_pos)))),
            ..old(w)@
        }),
{
    let pos = Position {
        x: p_pos.x + PLAYER_SIZE / 2 - PLAYER_PROJ_WIDTH / 2,
        y: p_pos.y - PLAYER_PROJ_HEIGHT,
    };
    let b = Batch {
        baddy: None,
        noob: false,
        osc: None,
        player: false,
        pos: Some(pos),
        rend: Some(
            Rendered {
                area: Rect { x: pos.x, y: pos.y, w: PLAYER_PROJ_WIDTH, h: PLAYER_PROJ_HEIGHT },
                colour: (0x00, 0x00, 0xFF),
            },
        ),
        vel: Some(Velocity { x: 0, y: -8 }),
        waver: None,
        dam_b: true,
        dam_p: false,
        score_text: None,
    };
    w.enqueue(Op::Create(e, b));
}

/// Buffers creation of a projectile shot by a Noob baddy, just below the
/// Noob, with a random horizontal drift of 0 or 1.
pub fn create_noob_projectile(w: &mut World, e: EntityHandle, b_pos: Position)
    requires
        -100000 <= b_pos.x <= 100000,
        -100000 <= b_pos.y <= 100000,
    ensures
        exists|drift: i64|
            0 <= drift < 2 && final(w)@ == (WorldV {
                queue: old(w)@.queue.push(Op::Create(e, #[trigger] noob_proj_batch(noob_proj_pos(b_pos), drift))),
                ..old(w)@
            }),
{
    let drift_raw = range_u64(0, 2);
    let drift: i64 = drift_raw as i64;
    let pos = Position { x: b_pos.x + NOOB_SIZE / 2, y: b_pos.y + NOOB_SIZE + 2 };
    let b = Batch {
        baddy: None,
        noob: false,
        osc: None,
        player: false,
        pos: Some(pos),
        rend: Some(
            Rendered {
                area: Rect { x: pos.x, y: pos.y, w: NOOB_PROJ_SIZE, h: NOOB_PROJ_SIZE },
                colour: (0xFF, 0x00, 0x00),
            },
        ),
        vel: Some(Velocity { x: drift, y: 4 }),
        waver: None,
        dam_b: false,
        dam_p: true,
        score_text: None,
    };
    w.enqueue(Op::Create(e, b));
    proof {
        assert(b == noob_proj_batch(noob_proj_pos(b_pos), drift));
    }
}

/// Buffers creation of a Noob baddy: it enters at the left or right edge at
/// random, at a random height in [0, 300), moving rightward at a random
/// speed in [1, 4), with 3 health, 100 points, and a random oscillation
/// budget in [1, 4).
pub fn create_noob_baddy(w: &mut World, e: EntityHandle)
    ensures
        exists|x: i64, y: i64, speed: i64, flips: u8|
            {
                &&& x == (1 - NOOB_SIZE) as i64 || x == (GAME_WIDTH - 1) as i64
                &&& 0 <= y < 300
                &&& 1 <= speed < 4
                &&& 1 <= flips < 4
                &&& final(w)@ == (WorldV {
                    queue: old(w)@.queue.push(
                        Op::Create(e, #[trigger] noob_batch(Position { x, y }, speed, flips)),
                    ),
                    ..old(w)@
                })
            },
{
    let left = coin();
    let x: i64 = if left {
        1 - NOOB_SIZE
    } else {
        GAME_WIDTH - 1
    };
    let y: i64 = range_u64(0, 300) as i64;
    let speed: i64 = range_u64(1, 4) as i64;
    let flips: u8 = range_u64(1, 4) as u8;
    let pos = Position { x, y };
    let b = Batch {
        baddy: Some(Baddy { age: 0, health: 3, score: 100 }),
        noob: true,
        osc: Some(Oscillates(flips)),
        player: false,
        pos: Some(pos),
        rend: Some(
            Rendered {
                area: Rect { x: pos.x, y: pos.y, w: NOOB_SIZE, h: NOOB_SIZE },
                colour: (0xDD, 0x66, 0x33),
            },
        ),
        vel: Some(Velocity { x: speed, y: 0 }),
        waver: None,
        dam_b: false,
        dam_p: true,
        score_text: None,
    };
    w.enqueue(Op::Create(e, b));
    proof {
        assert(b == noob_batch(pos, speed, flips));
    }
}

/// Buffers creation of a Waver baddy. With a base, the new Waver is the
/// next follower of that wave: one rank lower, sharing the wave's original
/// starting position and velocity. Without one, it is a fresh rank-10 wave
/// head at a random edge, heading inward at 4 and downward at 8.
pub fn create_waver_baddy(w: &mut World, e: EntityHandle, base: Option<WaverBaddy>)
    requires
        base is Some ==> base->Some_0.rank >= 1,
    ensures
        base is Some ==> final(w)@ == (WorldV {
            queue: old(w)@.queue.push(
                Op::Create(
                    e,
                    waver_batch((base->Some_0.rank - 1) as u64, base->Some_0.pos, base->Some_0.vel),
                ),
            ),
            ..old(w)@
        }),
        base is None ==> exists|x: i64, y: i64, vx: i64|
            {
                &&& (x == (1 - WAVER_SIZE) as i64 && vx == 4) || (x == (GAME_WIDTH - 1) as i64
                    && vx == (-4) as i64)
                &&& 50 <= y < 149
                &&& final(w)@ == (WorldV {
                    queue: old(w)@.queue.push(
                        Op::Create(
                            e,
                            #[trigger] waver_batch(10, Position { x, y }, Velocity { x: vx, y: 8 }),
                        ),
                    ),
                    ..old(w)@
                })
            },
{
    let (rank, pos, vel): (u64, Position, Velocity) = match base {
        Some(base_w) => (base_w.rank - 1, base_w.pos, base_w.vel),
        None => {
            let start_left = coin();
            let x: i64 = if start_left {
                1 - WAVER_SIZE
            } else {
                GAME_WIDTH - 1
            };
            let y: i64 = range_u64(50, 149) as i64;
            let vx: i64 = if start_left {
                4
            } else {
                -4
            };
            (10, Position { x, y }, Velocity { x: vx, y: 8 })
        },
    };
    let b = Batch {
        baddy: Some(Baddy { age: 0, health: 1, score: 10 }),
        noob: false,
        osc: None,
        player: false,
        pos: Some(pos),
        rend: Some(
            Rendered {
                area: Rect { x: pos.x, y: pos.y, w: WAVER_SIZE, h: WAVER_SIZE },
                colour: (0xFF, 0x00, 0xFF),
            },
        ),
        vel: Some(vel),
        waver: Some(WaverBaddy { rank, pos, vel }),
        dam_b: false,
        dam_p: true,
        score_text: None,
    };
    w.enqueue(Op::Create(e, b));
    proof {
        assert(b == waver_batch(rank, pos, vel));
    }
}

/// Buffers creation of the score popup shown after a baddy is killed.
pub fn create_score_popup(
    w: &mut World,
    e: EntityHandle,
    pos: Position,
    score: u32,
    frame: u64,
)
    ensures
        final(w)@ == (WorldV {
            queue: old(w)@.queue.push(Op::Create(e, popup_batch(pos, score, frame))),
            ..old(w)@
        }),
{
    let b = Batch {
        baddy: None,
        noob: false,
        osc: None,
        player: false,
        pos: Some(pos),
        rend: None,
        vel: None,
        waver: None,
        dam_b: false,
        dam_p: false,
        score_text: Some(ScoreText { score, frame }),
    };
    w.enqueue(Op::Create(e, b));
    proof {
        assert(b == popup_batch(pos, score, frame));
    }
}

} // verus!
