use pentagram::element::Element;
use pentagram::entity::{grown_size, growth_ceiling, initial_heading, roll_lifespan, Entity, Item};
use pentagram::fx::{Fx, V2};
use pentagram::hash::{Hashable, Hasher};
use pentagram::race::{attrs, Kind, Race};

fn animal(e: Element) -> Race {
    Race { element: e, kind: Kind::Animal }
}

#[test]
fn spawn_is_reproducible() {
    let f = &attrs(animal(Element::Fire));
    let a = Entity::spawn(7, Element::Fire, V2::zero(), 99, 12, f);
    let b = Entity::spawn(7, Element::Fire, V2::zero(), 99, 12, f);
    assert_eq!(a, b);
}

#[test]
fn different_ids_get_different_headings() {
    let w = &attrs(animal(Element::Water));
    let a = Entity::spawn(1, Element::Water, V2::zero(), 5, 0, w);
    let b = Entity::spawn(2, Element::Water, V2::zero(), 5, 0, w);
    assert_ne!(a.heading, b.heading);
}

#[test]
fn a_retuned_lifespan_reaches_the_bodies_born_after_it() {
    let mut a = attrs(animal(Element::Fire));
    a.lifespan_variance = 0;
    a.lifespan = 4242;
    let e = Entity::spawn(1, Element::Fire, V2::zero(), 5, 0, &a);
    assert_eq!(e.lifespan, 4242);
}

#[test]
fn initial_heading_is_unit_length() {
    for id in 0..500u32 {
        let h = initial_heading(3, 0, id);
        let l = h.len();
        assert!(
            (l - Fx::one()).abs().raw() <= 512,
            "id {} heading length {:?}",
            id,
            l
        );
    }
}

#[test]
fn lifespan_stays_inside_the_variance_band() {
    for race in Race::all() {
        let a = &attrs(race);
        let v = a.lifespan_variance as u128;
        let lo = (a.lifespan as u128) * (1000 - v) / 1000;
        let hi = (a.lifespan as u128) * (1000 + v) / 1000;
        for id in 0..400u32 {
            let l = roll_lifespan(a, 11, 0, id) as u128;
            assert!(l >= lo && l <= hi, "{}-{} id {} → {}", race.element.name(), race.kind.name(), id, l);
        }
    }
}

#[test]
fn a_cohort_does_not_die_together() {
    let a = &attrs(animal(Element::Fire));
    let spans: std::collections::BTreeSet<u64> =
        (0..200u32).map(|id| roll_lifespan(a, 1, 0, id)).collect();
    assert!(spans.len() > 100, "only {} distinct lifespans", spans.len());
}

#[test]
fn speed_ordering_matches_the_fantasy() {
    let order = [
        Element::Fire,
        Element::Water,
        Element::Metal,
        Element::Wood,
        Element::Earth,
    ];
    for w in order.windows(2) {
        assert!(
            attrs(animal(w[0])).speed > attrs(animal(w[1])).speed,
            "{} should be faster than {}",
            w[0].name(),
            w[1].name()
        );
    }
}

#[test]
fn every_race_has_a_kind_appropriate_body() {
    for race in Race::all() {
        let a = &attrs(race);
        match race.kind {
            Kind::Animal => assert!(a.speed > Fx::zero(), "{}-{} is immobile", race.element.name(), race.kind.name()),
            Kind::Plant => assert!(a.speed == Fx::zero(), "{}-{} should be rooted", race.element.name(), race.kind.name()),
        }
        assert!(a.radius > Fx::zero(), "{}-{} has no body", race.element.name(), race.kind.name());
    }
}

#[test]
fn entity_hash_notices_every_field() {
    let f = &attrs(animal(Element::Fire));
    let base = Entity::spawn(1, Element::Fire, V2::zero(), 5, 0, f);
    let hash_of = |e: &Entity| {
        let mut h = Hasher::new();
        e.hash_into(&mut h);
        h.finish()
    };
    let base_hash = hash_of(&base);

    let mut id = base.clone();
    id.id += 1;
    let mut element = base.clone();
    element.element = Element::Water;
    let mut kind = base.clone();
    kind.kind = Kind::Plant;
    let mut pos_x = base.clone();
    pos_x.pos.x = pos_x.pos.x + Fx::one();
    let mut pos_y = base.clone();
    pos_y.pos.y = pos_y.pos.y + Fx::one();
    let mut heading_x = base.clone();
    heading_x.heading.x = heading_x.heading.x + Fx::one();
    let mut heading_y = base.clone();
    heading_y.heading.y = heading_y.heading.y + Fx::one();
    let mut age = base.clone();
    age.age += 1;
    let mut lifespan = base.clone();
    lifespan.lifespan += 1;
    let mut hp = base.clone();
    hp.hp += 1;
    let mut alive = base.clone();
    alive.alive = !alive.alive;
    let mut acted = base.clone();
    acted.acted = !acted.acted;
    let mut hunger = base.clone();
    hunger.hunger += 1;
    let mut size = base.clone();
    size.size += 1;
    let mut material = base.clone();
    material.material += 1;
    let mut carried = base.clone();
    carried.carried[Element::Wood] += 1;
    let mut items = base.clone();
    items.items.push(Item { element: Element::Wood, quantity: 1 });
    let mut action_ready_at = base.clone();
    action_ready_at.action_ready_at[0] += 1;

    for (name, variant) in [
        ("id", id),
        ("element", element),
        ("kind", kind),
        ("pos.x", pos_x),
        ("pos.y", pos_y),
        ("heading.x", heading_x),
        ("heading.y", heading_y),
        ("age", age),
        ("lifespan", lifespan),
        ("hp", hp),
        ("alive", alive),
        ("acted", acted),
        ("hunger", hunger),
        ("size", size),
        ("material", material),
        ("carried", carried),
        ("items", items),
        ("action_ready_at", action_ready_at),
    ] {
        assert_ne!(hash_of(&variant), base_hash, "{name} does not affect the hash");
    }
}

#[test]
fn item_count_affects_the_hash_even_with_identical_items() {
    let f = &attrs(animal(Element::Fire));
    let mut two = Entity::spawn(1, Element::Fire, V2::zero(), 5, 0, f);
    two.items.push(Item { element: Element::Wood, quantity: 7 });
    two.items.push(Item { element: Element::Wood, quantity: 7 });
    let mut three = two.clone();
    three.items.push(Item { element: Element::Wood, quantity: 7 });

    let hash_of = |e: &Entity| {
        let mut h = Hasher::new();
        e.hash_into(&mut h);
        h.finish()
    };
    assert_ne!(hash_of(&two), hash_of(&three));
}

#[test]
fn grown_size_starts_at_birth_size() {
    assert_eq!(grown_size(200, 0, 4000, 1000), 200);
}

#[test]
fn grown_size_reaches_and_holds_full_size_at_maturity() {
    assert_eq!(grown_size(200, 1000, 4000, 1000), 1000);
    assert_eq!(grown_size(200, 1000000, 4000, 1000), 1000, "held at 1000 past maturity");
}

#[test]
fn grown_size_is_linear_at_the_midpoint() {
    let birth = 200u64;
    let expected = (birth + (1000 - birth) * 500 / 1000) as u16;
    assert_eq!(grown_size(200, 500, 4000, 1000), expected);
}

#[test]
fn grown_size_at_full_birth_size_is_constant_at_every_age() {
    for age in [0, 1, 500, 1000, 5000] {
        assert_eq!(grown_size(1000, age, 4000, 1000), 1000, "age {age}");
    }
}

#[test]
fn grown_size_does_not_panic_on_zero_lifespan() {
    assert_eq!(grown_size(200, 0, 0, 1000), 1000);
    assert_eq!(grown_size(200, 5, 0, 1000), 1000);
}

#[test]
fn grown_size_stops_at_a_ceiling_below_1000() {
    assert_eq!(grown_size(200, 1000, 4000, 500), 500);
    assert_eq!(grown_size(200, 1000000, 4000, 500), 500, "held at ceiling past maturity");
}

#[test]
fn grown_size_never_drops_below_birth_size_when_ceiling_is_below_it() {
    assert_eq!(grown_size(600, 1000, 4000, 500), 600, "no growth room -- stays at birth size");
    assert_eq!(grown_size(600, 0, 4000, 500), 600);
}

#[test]
fn growth_ceiling_scales_linearly_and_caps_at_1000() {
    assert_eq!(growth_ceiling(1000, 1000), 1000, "stock == growth_ref reaches full");
    assert_eq!(growth_ceiling(500, 1000), 500, "stock == growth_ref/2 is about half");
    assert_eq!(growth_ceiling(2000, 1000), 1000, "stock > growth_ref still caps at 1000");
    assert_eq!(growth_ceiling(0, 1000), 0, "no stock, no ceiling room");
    assert_eq!(growth_ceiling(12345, 0), 1000, "growth_ref == 0 always gives full 1000");
    assert_eq!(growth_ceiling(0, 0), 1000, "growth_ref == 0 always gives full 1000");
}
