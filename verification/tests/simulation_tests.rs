use galaga::components::{
    Baddy, Oscillates, Position, Rect, Rendered, Velocity, WaverBaddy, GAME_HEIGHT, GAME_WIDTH,
    MAX_PLAYER_HEALTH, PLAYER_SIZE,
};
use galaga::game::{Galaga, InputState, PlayerHealth};
use galaga::systems::{BaddyActions, CollisionSystem};
use galaga::world::{Batch, Op};

fn empty_batch() -> Batch {
    Batch {
        baddy: None,
        noob: false,
        osc: None,
        player: false,
        pos: None,
        rend: None,
        vel: None,
        waver: None,
        dam_b: false,
        dam_p: false,
        score_text: None,
    }
}

fn noob_batch(pos: Position, speed: i64, flips: u8) -> Batch {
    Batch {
        baddy: Some(Baddy { age: 0, health: 3, score: 100 }),
        noob: true,
        osc: Some(Oscillates(flips)),
        pos: Some(pos),
        vel: Some(Velocity { x: speed, y: 0 }),
        rend: Some(Rendered {
            area: Rect { x: pos.x, y: pos.y, w: 20, h: 20 },
            colour: (0xDD, 0x66, 0x33),
        }),
        dam_p: true,
        ..empty_batch()
    }
}

fn waver_batch(rank: u64, pos: Position, vel: Velocity) -> Batch {
    Batch {
        baddy: Some(Baddy { age: 0, health: 1, score: 10 }),
        waver: Some(WaverBaddy { rank, pos, vel }),
        pos: Some(pos),
        vel: Some(vel),
        rend: Some(Rendered {
            area: Rect { x: pos.x, y: pos.y, w: 10, h: 10 },
            colour: (0xFF, 0x00, 0xFF),
        }),
        dam_p: true,
        ..empty_batch()
    }
}

/// A fresh game starts centered, at full health, zero score, tick zero.
#[test]
fn new_game_initial_state() {
    let g = Galaga::new();
    assert!(!g.is_game_over());
    assert_eq!(g.score(), 0);
    assert_eq!(g.health(), MAX_PLAYER_HEALTH);
    assert_eq!(g.world.pos[0], Some(Position { x: GAME_WIDTH / 2, y: GAME_HEIGHT / 2 }));
    assert_eq!(g.world.vel[0], Some(Velocity { x: 0, y: 0 }));
    assert!(g.world.player[0]);
}

/// Tick 50 with no prior spawns: exactly one Noob exists post-maintain,
/// with health 3, score 100, and x at one of the two entry edges.
#[test]
fn tick_50_spawns_exactly_one_noob() {
    let mut g = Galaga::new();
    for _ in 0..51 {
        g.update();
    }
    let mut noobs: Vec<usize> = Vec::new();
    for s in 0..g.world.noob.len() {
        if g.world.reg.alive[s] && g.world.noob[s] {
            noobs.push(s);
        }
    }
    assert_eq!(noobs.len(), 1);
    let s = noobs[0];
    let bd = g.world.baddy[s].unwrap();
    assert_eq!(bd.health, 3);
    assert_eq!(bd.score, 100);
    let p = g.world.pos[s].unwrap();
    assert!(p.x == 1 - 20 || p.x == GAME_WIDTH - 1, "unexpected entry edge {}", p.x);
    assert!((0..300).contains(&p.y));
    let o = g.world.osc[s].unwrap();
    assert!((1..4).contains(&o.0));
}

/// Before tick 50, nothing has spawned.
#[test]
fn no_spawns_before_tick_50() {
    let mut g = Galaga::new();
    for _ in 0..50 {
        g.update();
    }
    let live: usize = (0..g.world.reg.alive.len()).filter(|&s| g.world.reg.alive[s]).count();
    assert_eq!(live, 1); // just the player
}

/// Movement clamp: holding a direction never pushes the player outside
/// [0, GAME_WIDTH - PLAYER_SIZE] x [0, GAME_HEIGHT - PLAYER_SIZE].
#[test]
fn player_clamped_to_bounds() {
    let mut g = Galaga::new();
    g.set_input(InputState { up: true, down: false, left: true, right: false, shoot: false });
    for _ in 0..80 {
        g.update();
        let p = g.world.pos[0].unwrap();
        assert!(p.x >= 0 && p.x <= GAME_WIDTH - PLAYER_SIZE);
        assert!(p.y >= 0 && p.y <= GAME_HEIGHT - PLAYER_SIZE);
    }
    let p = g.world.pos[0].unwrap();
    assert_eq!((p.x, p.y), (0, 0)); // pinned to the corner after enough ticks
    g.set_input(InputState { up: false, down: true, left: false, right: true, shoot: false });
    for _ in 0..200 {
        g.update();
        let p = g.world.pos[0].unwrap();
        assert!(p.x >= 0 && p.x <= GAME_WIDTH - PLAYER_SIZE);
        assert!(p.y >= 0 && p.y <= GAME_HEIGHT - PLAYER_SIZE);
    }
}

/// Opposing keys cancel to zero velocity.
#[test]
fn opposing_keys_cancel() {
    let mut g = Galaga::new();
    g.set_input(InputState { up: true, down: true, left: true, right: true, shoot: false });
    g.update();
    assert_eq!(g.world.vel[0], Some(Velocity { x: 0, y: 0 }));
    assert_eq!(g.world.pos[0], Some(Position { x: GAME_WIDTH / 2, y: GAME_HEIGHT / 2 }));
}

/// Firing is rate-limited to one projectile per 10 ticks.
#[test]
fn fire_rate_limited() {
    let mut g = Galaga::new();
    g.set_input(InputState { up: false, down: false, left: false, right: false, shoot: true });
    let count_projectiles = |g: &Galaga| -> usize {
        (0..g.world.dam_b.len()).filter(|&s| g.world.reg.alive[s] && g.world.dam_b[s]).count()
    };
    // The rate limit counts from tick 0, so the first shot comes at tick 10.
    for _ in 0..10 {
        g.update();
    }
    assert_eq!(count_projectiles(&g), 0);
    g.update();
    assert_eq!(count_projectiles(&g), 1);
    for _ in 0..9 {
        g.update();
    }
    assert_eq!(count_projectiles(&g), 1);
    g.update();
    // The 10-tick window has passed: a second shot was fired at tick 20.
    assert_eq!(count_projectiles(&g), 2);
}

/// Oscillation termination: a Noob with one reversal left loses the
/// Oscillates component on the tick of that reversal; with two it keeps a
/// budget of one. A reversal only happens in the outer fifths of the area.
#[test]
fn oscillation_budget_spent_exactly() {
    for (flips, expect_removed) in [(1u8, true), (2u8, false)] {
        let mut g = Galaga::new();
        let e = g.world.create_entity();
        // In the right fifth moving rightward: the boundary reflects it.
        g.world.enqueue(Op::Create(e, noob_batch(Position { x: 390, y: 100 }, 3, flips)));
        g.world.maintain();
        let mut behavior = BaddyActions;
        behavior.run(&mut g.world);
        g.world.maintain();
        assert_eq!(g.world.vel[e.slot].unwrap().x, -3);
        if expect_removed {
            assert!(g.world.osc[e.slot].is_none());
        } else {
            assert_eq!(g.world.osc[e.slot], Some(Oscillates(1)));
        }
        // In the middle of the area nothing reflects: no budget is spent.
        let mut g2 = Galaga::new();
        let e2 = g2.world.create_entity();
        g2.world.enqueue(Op::Create(e2, noob_batch(Position { x: 200, y: 100 }, 3, flips)));
        g2.world.maintain();
        let mut behavior2 = BaddyActions;
        behavior2.run(&mut g2.world);
        g2.world.maintain();
        assert_eq!(g2.world.vel[e2.slot].unwrap().x, 3);
        assert_eq!(g2.world.osc[e2.slot], Some(Oscillates(flips)));
    }
}

/// Collision resolution: a baddy with one health overlapped by an
/// enemy-damaging projectile yields exactly its score, one popup, and both
/// entities gone after the maintain point.
#[test]
fn kill_resolves_score_popup_and_deletions() {
    let mut g = Galaga::new();
    let b = g.world.create_entity();
    let mut baddy = noob_batch(Position { x: 100, y: 100 }, 3, 2);
    baddy.baddy = Some(Baddy { age: 0, health: 1, score: 10 });
    g.world.enqueue(Op::Create(b, baddy));
    let d = g.world.create_entity();
    let mut proj = empty_batch();
    proj.pos = Some(Position { x: 105, y: 105 });
    proj.rend = Some(Rendered {
        area: Rect { x: 105, y: 105, w: 4, h: 8 },
        colour: (0x00, 0x00, 0xFF),
    });
    proj.vel = Some(Velocity { x: 0, y: -8 });
    proj.dam_b = true;
    g.world.enqueue(Op::Create(d, proj));
    g.world.maintain();
    assert_eq!(g.world.score.0, 0);

    let mut collision = CollisionSystem;
    collision.run(&mut g.world);
    g.world.maintain();

    assert_eq!(g.world.score.0, 10);
    assert!(!g.world.is_live(b));
    assert!(!g.world.is_live(d));
    let popups: Vec<usize> = (0..g.world.score_text.len())
        .filter(|&s| g.world.reg.alive[s] && g.world.score_text[s].is_some())
        .collect();
    assert_eq!(popups.len(), 1);
    let st = g.world.score_text[popups[0]].unwrap();
    assert_eq!(st.score, 10);
    assert_eq!(g.world.pos[popups[0]], Some(Position { x: 100, y: 100 }));
}

/// A baddy with more health left survives the hit with one less; the
/// projectile is consumed either way.
#[test]
fn hit_decrements_health_and_consumes_projectile() {
    let mut g = Galaga::new();
    let b = g.world.create_entity();
    g.world.enqueue(Op::Create(b, noob_batch(Position { x: 100, y: 100 }, 3, 2)));
    let d = g.world.create_entity();
    let mut proj = empty_batch();
    proj.pos = Some(Position { x: 105, y: 105 });
    proj.rend = Some(Rendered {
        area: Rect { x: 105, y: 105, w: 4, h: 8 },
        colour: (0x00, 0x00, 0xFF),
    });
    proj.vel = Some(Velocity { x: 0, y: -8 });
    proj.dam_b = true;
    g.world.enqueue(Op::Create(d, proj));
    g.world.maintain();

    let mut collision = CollisionSystem;
    collision.run(&mut g.world);
    g.world.maintain();

    assert_eq!(g.world.score.0, 0);
    assert!(g.world.is_live(b));
    assert_eq!(g.world.baddy[b.slot].unwrap().health, 2);
    assert!(!g.world.is_live(d));
}

/// Waver cascade: a rank-10 head reaching age 15 buffers exactly one
/// rank-9 follower sharing its original base position and velocity; a
/// rank-0 Waver spawns no further follower.
#[test]
fn waver_cascade_spawns_one_follower_per_rank() {
    let base_pos = Position { x: -9, y: 100 };
    let base_vel = Velocity { x: 4, y: 8 };
    let mut g = Galaga::new();
    let head = g.world.create_entity();
    g.world.enqueue(Op::Create(head, waver_batch(10, base_pos, base_vel)));
    g.world.maintain();
    let count_wavers = |g: &Galaga| -> Vec<usize> {
        (0..g.world.waver.len())
            .filter(|&s| g.world.reg.alive[s] && g.world.waver[s].is_some())
            .collect()
    };
    for age in 1..=15u64 {
        let mut behavior = BaddyActions;
        behavior.run(&mut g.world);
        g.world.maintain();
        assert_eq!(g.world.baddy[head.slot].unwrap().age, age);
        if age < 15 {
            assert_eq!(count_wavers(&g).len(), 1);
        }
    }
    let wavers = count_wavers(&g);
    assert_eq!(wavers.len(), 2);
    let follower_slot = *wavers.iter().find(|&&s| s != head.slot).unwrap();
    let follower = g.world.waver[follower_slot].unwrap();
    assert_eq!(follower.rank, 9);
    assert_eq!(follower.pos, base_pos);
    assert_eq!(follower.vel, base_vel);

    // A rank-0 Waver reaching age 15 spawns nothing.
    let mut g0 = Galaga::new();
    let tail = g0.world.create_entity();
    g0.world.enqueue(Op::Create(tail, waver_batch(0, base_pos, base_vel)));
    g0.world.maintain();
    for _ in 0..20 {
        let mut behavior = BaddyActions;
        behavior.run(&mut g0.world);
        g0.world.maintain();
    }
    let wavers0: Vec<usize> = (0..g0.world.waver.len())
        .filter(|&s| g0.world.reg.alive[s] && g0.world.waver[s].is_some())
        .collect();
    assert_eq!(wavers0.len(), 1);
}

/// The Waver's vertical velocity decreases by one every 8th age tick.
#[test]
fn waver_arcs_downward_then_up() {
    let mut g = Galaga::new();
    let head = g.world.create_entity();
    g.world.enqueue(Op::Create(head, waver_batch(0, Position { x: -9, y: 100 }, Velocity { x: 4, y: 8 })));
    g.world.maintain();
    for _ in 0..8 {
        let mut behavior = BaddyActions;
        behavior.run(&mut g.world);
        g.world.maintain();
    }
    // One decrement at age 8.
    assert_eq!(g.world.vel[head.slot].unwrap().y, 7);
}

/// Player at one health hit by a player-damaging entity: health reaches
/// zero, the game-over flag rises, and the entity is deleted.
#[test]
fn lethal_hit_ends_game() {
    let mut g = Galaga::new();
    g.world.health = PlayerHealth(1);
    let d = g.world.create_entity();
    let mut proj = empty_batch();
    let px = GAME_WIDTH / 2;
    let py = GAME_HEIGHT / 2;
    proj.pos = Some(Position { x: px, y: py });
    proj.rend = Some(Rendered {
        area: Rect { x: px, y: py, w: 6, h: 6 },
        colour: (0xFF, 0x00, 0x00),
    });
    proj.dam_p = true;
    g.world.enqueue(Op::Create(d, proj));
    g.world.maintain();

    g.update();

    assert_eq!(g.health(), 0);
    assert!(g.is_game_over());
    assert!(!g.world.is_live(d));

    // Once over, ticks stop advancing.
    let frames = g.world.frames.0;
    g.update();
    assert_eq!(g.world.frames.0, frames);
}

/// Entities whose geometry leaves the playable area entirely are deleted
/// at the next maintain point.
#[test]
fn offscreen_entities_cleaned_up() {
    let mut g = Galaga::new();
    let e = g.world.create_entity();
    let mut b = empty_batch();
    b.pos = Some(Position { x: 2, y: 2 });
    b.rend = Some(Rendered { area: Rect { x: 2, y: 2, w: 6, h: 6 }, colour: (0xFF, 0, 0) });
    b.vel = Some(Velocity { x: -4, y: -8 });
    b.dam_p = true;
    g.world.enqueue(Op::Create(e, b));
    g.world.maintain();
    for _ in 0..4 {
        g.update();
    }
    assert!(!g.world.is_live(e));
}

/// Rect overlap is boundary-inclusive.
#[test]
fn rect_overlap_is_inclusive() {
    let a = Rect { x: 0, y: 0, w: 10, h: 10 };
    let touching = Rect { x: 10, y: 10, w: 5, h: 5 };
    let apart = Rect { x: 11, y: 0, w: 5, h: 5 };
    let inside = Rect { x: 2, y: 2, w: 2, h: 2 };
    assert!(a.overlaps(&touching));
    assert!(!a.overlaps(&apart));
    assert!(a.overlaps(&inside));
    assert!(inside.overlaps(&a));
}

/// The render boundary sees every live rendered entity with its colour.
#[test]
fn render_items_reflect_world() {
    let g = Galaga::new();
    let items = g.render_rects();
    assert_eq!(items.len(), 1);
    let (area, colour) = items[0];
    assert_eq!((area.x, area.y, area.w, area.h), (GAME_WIDTH / 2, GAME_HEIGHT / 2, 20, 20));
    assert_eq!(colour, (0xAA, 0xAA, 0xAA));
}

/// Score popups expire 60 ticks after they appeared, once the expiry pass
/// runs and the next maintain point drains it.
#[test]
fn popups_expire_after_60_ticks() {
    let mut g = Galaga::new();
    let e = g.world.create_entity();
    let mut b = empty_batch();
    b.pos = Some(Position { x: 50, y: 50 });
    b.score_text = Some(galaga::components::ScoreText { score: 100, frame: 0 });
    g.world.enqueue(Op::Create(e, b));
    g.world.maintain();
    for _ in 0..50 {
        g.update();
    }
    g.expire_popups();
    g.update();
    assert!(g.world.is_live(e), "popup gone too early");
    for _ in 0..11 {
        g.update();
    }
    g.expire_popups();
    g.update();
    assert!(!g.world.is_live(e), "popup survived past its display time");
    assert_eq!(g.popup_texts().len(), 0);
}

/// A Noob fires a downward projectile every 15th age tick.
#[test]
fn noob_fires_every_15_ticks() {
    let mut g = Galaga::new();
    let e = g.world.create_entity();
    g.world.enqueue(Op::Create(e, noob_batch(Position { x: 200, y: 100 }, 1, 3)));
    g.world.maintain();
    let count_dam_p = |g: &Galaga| -> usize {
        (0..g.world.dam_p.len())
            .filter(|&s| g.world.reg.alive[s] && g.world.dam_p[s] && !g.world.noob[s])
            .count()
    };
    for _ in 0..14 {
        let mut behavior = BaddyActions;
        behavior.run(&mut g.world);
        g.world.maintain();
    }
    assert_eq!(count_dam_p(&g), 0);
    let mut behavior = BaddyActions;
    behavior.run(&mut g.world);
    g.world.maintain();
    assert_eq!(count_dam_p(&g), 1);
    let proj_slot = (0..g.world.dam_p.len())
        .find(|&s| g.world.reg.alive[s] && g.world.dam_p[s] && !g.world.noob[s])
        .unwrap();
    let pp = g.world.pos[proj_slot].unwrap();
    assert_eq!(pp, Position { x: 200 + 10, y: 100 + 22 });
    let pv = g.world.vel[proj_slot].unwrap();
    assert!(pv.x == 0 || pv.x == 1);
    assert_eq!(pv.y, 4);
}
