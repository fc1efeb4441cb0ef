use galaga::registry::{EntityHandle, Registry};
use galaga::world::{Batch, Op, World};

fn empty_batch() -> Batch {
    Batch {
        baddy: None,
        noob: false,
        osc: None,
        player: false,
        pos: None,
        rend: None,
        vel: None,
        waver: None,
        dam_b: false,
        dam_p: false,
        score_text: None,
    }
}

#[test]
fn allocate_then_free_goes_stale() {
    let mut reg = Registry::new();
    let h = reg.allocate();
    assert!(reg.is_live(h));
    reg.free(h);
    assert!(!reg.is_live(h));
}

#[test]
fn recycled_slot_bumps_generation() {
    let mut reg = Registry::new();
    let h = reg.allocate();
    reg.free(h);
    let h2 = reg.allocate();
    assert_eq!(h2.slot, h.slot);
    assert_eq!(h2.gen, h.gen + 1);
    assert!(!reg.is_live(h));
    assert!(reg.is_live(h2));
}

#[test]
fn stale_free_is_a_no_op() {
    let mut reg = Registry::new();
    let h = reg.allocate();
    reg.free(h);
    let h2 = reg.allocate();
    // Freeing with the stale handle must not touch the new occupant.
    reg.free(h);
    assert!(reg.is_live(h2));
}

#[test]
fn deleted_entity_not_live_after_maintain() {
    let mut w = World::new();
    let h = w.create_entity();
    assert!(w.is_live(h));
    w.enqueue(Op::Delete(h));
    // Deletion is deferred: still live until the maintain point.
    assert!(w.is_live(h));
    w.maintain();
    assert!(!w.is_live(h));
}

#[test]
fn delete_twice_same_as_once() {
    let build = |twice: bool| -> World {
        let mut w = World::new();
        let h = w.create_entity();
        let mut b = empty_batch();
        b.dam_p = true;
        w.enqueue(Op::Create(h, b));
        w.maintain();
        w.enqueue(Op::Delete(h));
        if twice {
            w.enqueue(Op::Delete(h));
        }
        w.maintain();
        w
    };
    let once = build(false);
    let twice = build(true);
    assert_eq!(once.reg.gens, twice.reg.gens);
    assert_eq!(once.reg.alive, twice.reg.alive);
    assert_eq!(once.dam_p, twice.dam_p);
    assert_eq!(once.queue.len(), 0);
    assert_eq!(twice.queue.len(), 0);
}

#[test]
fn stale_create_is_dropped() {
    let mut w = World::new();
    let h = w.create_entity();
    w.enqueue(Op::Delete(h));
    let mut b = empty_batch();
    b.dam_p = true;
    // The creation batch sits after the deletion in the same queue: by the
    // time it is applied the handle is stale, so it is dropped.
    w.enqueue(Op::Create(h, b));
    w.maintain();
    assert!(!w.is_live(h));
    assert!(!w.dam_p[h.slot]);
}

#[test]
fn handle_carries_slot_and_generation() {
    let h = EntityHandle { slot: 3, gen: 7 };
    assert_eq!(h.slot, 3);
    assert_eq!(h.gen, 7);
}
