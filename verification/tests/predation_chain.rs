use pentagram::ecology::EcologyTuning;
use pentagram::element::{Element, PerElement};
use pentagram::fx::{Fx, V2};
use pentagram::input::InputLog;
use pentagram::race::{Kind, PerRace, Race};
use pentagram::world::World;

fn build_chain_world() -> World {
    let mut w = World::new(0x5EED, 32);
    w.retune_ecology(EcologyTuning {
        satiation: PerElement::filled(0),
        hunt_weight: PerRace::filled(1000),
        ..EcologyTuning::default()
    });
    let pos = V2::new(Fx::from_int(10), Fx::from_int(10));

    let z_id = w.spawn(Race { element: Element::Fire, kind: Kind::Animal }, pos);
    let x_id = w.spawn(Race { element: Element::Metal, kind: Kind::Animal }, pos);
    let y_id = w.spawn(Race { element: Element::Earth, kind: Kind::Animal }, pos);
    let z_idx = w.entities.iter().position(|e| e.id == z_id).unwrap();
    let x_idx = w.entities.iter().position(|e| e.id == x_id).unwrap();
    let y_idx = w.entities.iter().position(|e| e.id == y_id).unwrap();
    assert_eq!((z_idx, x_idx, y_idx), (0, 1, 2));
    w.entities[z_idx].material = 100;
    w.entities[y_idx].material = 50;
    w.entities[x_idx].material = 0;
    w.entities[z_idx].carried[Element::Wood] = 40;
    w.entities[y_idx].carried[Element::Water] = 20;
    w
}

#[test]
fn predation_chain_resolution_is_bit_identical_across_independent_runs() {
    let mut a = build_chain_world();
    let mut b = build_chain_world();
    let mut c = build_chain_world();

    let log = InputLog::new();
    for _ in 0..50 {
        a.step(&log);
        b.step(&log);
        c.step(&log);
        assert_eq!(a.state_hash(), b.state_hash(), "diverged at tick {}", a.tick);
        assert_eq!(b.state_hash(), c.state_hash(), "diverged at tick {}", b.tick);
    }
}
