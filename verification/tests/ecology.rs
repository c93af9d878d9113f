use pentagram::ecology::{apply_attrition, apply_suppression, EcologyTuning, PropagationTuning};
use pentagram::element::{Element, PerElement};
use pentagram::entity::{Entity, MAX_HP};
use pentagram::fx::{Fx, V2};
use pentagram::hash::{Hashable, Hasher};
use pentagram::race::{attrs, Kind, Race};
use pentagram::terrain::Terrain;

#[test]
fn default_is_internally_sane() {
    for e in Element::ALL {
        let t = EcologyTuning::default();
        assert!(t.forage_radius[e] > Fx::zero(), "{} has no reach", e.name());
        assert!(t.feed_gain[e] > 0, "{} gains nothing from a meal", e.name());
        assert!(t.starve_rate[e] > 0, "{} never starves", e.name());
        assert!(
            t.repro_threshold[e] <= MAX_HP,
            "{} can never reach its own reproduction threshold",
            e.name()
        );
    }
}

#[test]
fn hunt_weight_defaults_to_near_zero_for_animals_and_zero_for_plants() {
    let t = EcologyTuning::default();
    for r in Race::all() {
        let w = t.hunt_weight[r];
        match r.kind {
            Kind::Animal => assert!(w > 0 && w < 1000, "{}-Animal hunt_weight should be a real, sub-certain dial, got {}", r.element.name(), w),
            Kind::Plant => assert_eq!(w, 0, "{}-Plant hunt_weight is unread and should stay zero", r.element.name()),
        }
    }
}

#[test]
fn ecology_hash_notices_every_field() {
    let a = EcologyTuning::default();
    let base = {
        let mut h = Hasher::new();
        a.hash_into(&mut h);
        h.finish()
    };

    let mut forage = a;
    forage.forage_radius[Element::Fire] += Fx::one();
    let mut satiation = a;
    satiation.satiation[Element::Fire] += 1;
    let mut feed_gain = a;
    feed_gain.feed_gain[Element::Fire] += 1;
    let mut starve_after = a;
    starve_after.starve_after[Element::Fire] += 1;
    let mut starve_rate = a;
    starve_rate.starve_rate[Element::Fire] += 1;
    let mut repro_threshold = a;
    repro_threshold.repro_threshold[Element::Fire] += 1;
    let mut attrition_rate = a;
    attrition_rate.attrition_rate[Element::Fire] += 1;
    let mut suppression_rate = a;
    suppression_rate.suppression_rate[Element::Fire] += 1;
    let mut hunt_weight = a;
    hunt_weight.hunt_weight[Race { element: Element::Fire, kind: Kind::Animal }] += 1;

    for (name, tuning) in [
        ("forage_radius", forage),
        ("satiation", satiation),
        ("feed_gain", feed_gain),
        ("starve_after", starve_after),
        ("starve_rate", starve_rate),
        ("repro_threshold", repro_threshold),
        ("attrition_rate", attrition_rate),
        ("suppression_rate", suppression_rate),
        ("hunt_weight", hunt_weight),
    ] {
        let mut h = Hasher::new();
        tuning.hash_into(&mut h);
        assert_ne!(h.finish(), base, "{name} does not affect the hash");
    }
}

fn spawn_at(element: Element, pos: V2) -> Entity {
    let race = Race { element, kind: Kind::Animal };
    let a = &attrs(race);
    let mut e = Entity::spawn(1, element, pos, 5, 0, a);
    e.hp = MAX_HP;
    e
}

#[test]
fn attrition_never_drives_hp_below_zero_in_one_call() {
    let mut terrain = Terrain::new(2);

    terrain.cell_mut(0, 0)[Element::Fire] = u16::MAX;
    let tuning = EcologyTuning { attrition_rate: PerElement::filled(1000), ..EcologyTuning::default() };
    let mut entities = vec![spawn_at(Element::Wood, V2::zero())];
    apply_attrition(&mut entities, &terrain, &tuning);
    assert_eq!(entities[0].hp, 0, "capped at what the body actually held");
}

#[test]
fn attrition_does_nothing_at_zero_concentration() {
    let terrain = Terrain::new(2);
    let tuning = EcologyTuning { attrition_rate: PerElement::filled(1000), ..EcologyTuning::default() };
    let mut entities = vec![spawn_at(Element::Wood, V2::zero())];
    apply_attrition(&mut entities, &terrain, &tuning);
    assert_eq!(entities[0].hp, MAX_HP, "no eater stock, no damage");
}

#[test]
fn a_fully_saturated_cell_at_the_shipped_rate_cannot_one_shot_a_full_health_body() {
    let mut terrain = Terrain::new(2);
    terrain.cell_mut(0, 0)[Element::Fire] = u16::MAX;
    let tuning = EcologyTuning::default();
    let mut entities = vec![spawn_at(Element::Wood, V2::zero())];
    apply_attrition(&mut entities, &terrain, &tuning);
    assert!(entities[0].hp > 0, "shipped attrition_rate one-shot a full-health body");
}

#[test]
fn suppression_adds_hunger_proportional_to_suppressor_concentration() {
    let mut terrain = Terrain::new(2);

    terrain.cell_mut(0, 0)[Element::Water] = 1000;
    let tuning = EcologyTuning { suppression_rate: PerElement::filled(500), ..EcologyTuning::default() };
    let mut entities = vec![spawn_at(Element::Fire, V2::zero())];
    apply_suppression(&mut entities, &terrain, &tuning);
    assert_eq!(entities[0].hunger, 500, "1000 * 500‰ = 500");
}

#[test]
fn suppression_does_nothing_at_zero_concentration() {
    let terrain = Terrain::new(2);
    let tuning = EcologyTuning { suppression_rate: PerElement::filled(1000), ..EcologyTuning::default() };
    let mut entities = vec![spawn_at(Element::Fire, V2::zero())];
    apply_suppression(&mut entities, &terrain, &tuning);
    assert_eq!(entities[0].hunger, 0, "no suppressor stock, no extra hunger");
}

#[test]
fn dead_entities_are_skipped_by_both_operators() {
    let mut terrain = Terrain::new(2);
    terrain.cell_mut(0, 0)[Element::Fire] = u16::MAX;
    terrain.cell_mut(0, 0)[Element::Water] = u16::MAX;
    let tuning = EcologyTuning {
        attrition_rate: PerElement::filled(1000),
        suppression_rate: PerElement::filled(1000),
        ..EcologyTuning::default()
    };
    let mut e = spawn_at(Element::Wood, V2::zero());
    e.alive = false;
    let mut entities = vec![e];
    apply_attrition(&mut entities, &terrain, &tuning);
    apply_suppression(&mut entities, &terrain, &tuning);
    assert_eq!(entities[0].hp, MAX_HP);
    assert_eq!(entities[0].hunger, 0);
}

#[test]
fn propagation_default_is_internally_sane() {
    let t = PropagationTuning::default();
    for e in Element::ALL {
        assert!(t.period[e] > 0, "{} never attempts propagation", e.name());
        assert!(t.chance[e] > 0 && t.chance[e] <= 1000, "{} has an out-of-range chance", e.name());
        assert!(t.offspring_size[e] > 0 && t.offspring_size[e] < 1000, "{} seedlings do not start smaller than mature", e.name());
        assert!(t.crowd_max[e] > 0, "{} can never root anywhere", e.name());
    }
}

#[test]
fn propagation_hash_notices_every_field() {
    let a = PropagationTuning::default();
    let base = {
        let mut h = Hasher::new();
        a.hash_into(&mut h);
        h.finish()
    };

    let mut period = a;
    period.period[Element::Fire] += 1;
    let mut chance = a;
    chance.chance[Element::Fire] += 1;
    let mut offspring_size = a;
    offspring_size.offspring_size[Element::Fire] += 1;
    let mut root_min = a;
    root_min.root_min[Element::Fire] += 1;
    let mut dispersal = a;
    dispersal.dispersal[Element::Fire] += Fx::one();
    let mut crowd_max = a;
    crowd_max.crowd_max[Element::Fire] += 1;
    let mut growth_ref = a;
    growth_ref.growth_ref[Element::Fire] += 1;

    for (name, tuning) in [
        ("period", period),
        ("chance", chance),
        ("offspring_size", offspring_size),
        ("root_min", root_min),
        ("dispersal", dispersal),
        ("crowd_max", crowd_max),
        ("growth_ref", growth_ref),
    ] {
        let mut h = Hasher::new();
        tuning.hash_into(&mut h);
        assert_ne!(h.finish(), base, "{name} does not affect the hash");
    }
}
