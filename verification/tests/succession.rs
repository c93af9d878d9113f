use pentagram::element::Element;
use pentagram::race::TERRAIN_PERIOD;
use pentagram::replay::scripted_log;
use pentagram::world::World;

const SEED: u64 = 0xC0FFEE;

#[test]
fn terrain_replays_bit_identically_and_the_grid_moves() {
    let ticks = TERRAIN_PERIOD * 40;
    let log = scripted_log(0x5EED, ticks, 20);

    let mut a = World::new(SEED, 24);

    for y in 0..24i32 {
        for x in 0..24i32 {
            for e in Element::ALL {
                a.terrain.cell_mut(x, y)[e] = 20_000;
            }
        }
    }
    a.seed_population(4);
    let fresh_hash = a.terrain.state_hash();
    let mut b = a.clone();

    for _ in 0..ticks {
        a.step(&log);
        b.step(&log);
    }

    assert_eq!(
        a.state_hash(),
        b.state_hash(),
        "two independent runs from the same seed must agree once terrain is in the loop"
    );
    assert_ne!(
        a.terrain.state_hash(),
        fresh_hash,
        "the terrain grid must have changed over twelve simulated hours"
    );
}
