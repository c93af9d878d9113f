use pentagram::element::Element;
use pentagram::fx::{Fx, V2};
use pentagram::input::{CmdKind, Command, InputLog, LogError, MAGIC};
use pentagram::race::Kind;

fn sample() -> InputLog {
    let mut l = InputLog::new();
    l.push(Command {
        tick: 5,
        entity: 2,
        kind: CmdKind::Kill,
    });
    l.push(Command {
        tick: 1,
        entity: 9,
        kind: CmdKind::SetHeading {
            dir: V2::new(Fx::ratio(3, 5), Fx::ratio(-4, 5)),
        },
    });
    l.push(Command {
        tick: 5,
        entity: 1,
        kind: CmdKind::Spawn {
            element: Element::Earth,
            kind: Kind::Plant,
            at: V2::new(Fx::from_int(12), Fx::from_int(30)),
        },
    });
    l.finalize();
    l
}

#[test]
fn finalize_imposes_a_total_order() {
    let l = sample();
    let keys: Vec<_> = l.as_slice().iter().map(|c| (c.tick, c.entity)).collect();
    assert_eq!(keys, vec![(1, 9), (5, 1), (5, 2)]);
}

#[test]
fn at_returns_only_that_tick() {
    let l = sample();
    assert_eq!(l.at(1).len(), 1);
    assert_eq!(l.at(5).len(), 2);
    assert_eq!(l.at(4).len(), 0);
    assert_eq!(l.at(999).len(), 0);
}

#[test]
fn bytes_round_trip_exactly() {
    let l = sample();
    let back = InputLog::from_bytes(&l.to_bytes()).expect("round trip");
    assert_eq!(back.as_slice(), l.as_slice());
}

#[test]
fn insertion_order_does_not_affect_the_result() {
    let a = sample();
    let mut b = InputLog::new();
    for c in a.as_slice().iter().rev() {
        b.push(*c);
    }
    b.finalize();
    assert_eq!(a.as_slice(), b.as_slice());
}

#[test]
fn rejects_a_corrupt_header() {
    assert_eq!(InputLog::from_bytes(&[0; 4]), Err(LogError::BadMagic));
    let mut bad = MAGIC.to_le_bytes().to_vec();
    bad.extend_from_slice(&99u32.to_le_bytes());
    bad.extend_from_slice(&0u64.to_le_bytes());
    assert_eq!(InputLog::from_bytes(&bad), Err(LogError::BadVersion(99)));
}

#[test]
fn rejects_truncation() {
    let l = sample();
    let bytes = l.to_bytes();
    assert_eq!(
        InputLog::from_bytes(&bytes[..bytes.len() - 3]),
        Err(LogError::Truncated)
    );
}

#[test]
fn a_v1_log_decodes_spawn_as_kind_animal() {
    let mut bytes = MAGIC.to_le_bytes().to_vec();
    bytes.extend_from_slice(&1u32.to_le_bytes());
    bytes.extend_from_slice(&1u64.to_le_bytes());
    bytes.extend_from_slice(&7u64.to_le_bytes());
    bytes.extend_from_slice(&3u32.to_le_bytes());
    bytes.push(CmdKind::Spawn { element: Element::Wood, kind: Kind::Animal, at: V2::zero() }.tag());
    bytes.push(Element::Wood as u8);

    bytes.extend_from_slice(&Fx::from_int(4).raw().to_le_bytes());
    bytes.extend_from_slice(&Fx::from_int(5).raw().to_le_bytes());

    let log = InputLog::from_bytes(&bytes).expect("v1 log must still be readable");
    assert_eq!(
        log.as_slice()[0].kind,
        CmdKind::Spawn {
            element: Element::Wood,
            kind: Kind::Animal,
            at: V2::new(Fx::from_int(4), Fx::from_int(5)),
        }
    );
}

#[test]
fn new_cmdkinds_round_trip() {
    let mut l = InputLog::new();
    l.push(Command { tick: 1, entity: 1, kind: CmdKind::Mine { element: Element::Wood } });
    l.push(Command { tick: 2, entity: 1, kind: CmdKind::Smelt { element: Element::Fire } });
    l.push(Command {
        tick: 3,
        entity: 1,
        kind: CmdKind::MakeItem { element: Element::Earth, quantity: 12_345 },
    });
    l.push(Command { tick: 4, entity: 1, kind: CmdKind::BreakItem { index: 2 } });
    l.finalize();
    let back = InputLog::from_bytes(&l.to_bytes()).expect("round trip");
    assert_eq!(back.as_slice(), l.as_slice());
}

#[test]
fn a_v2_log_is_still_readable_under_v3() {
    let mut bytes = MAGIC.to_le_bytes().to_vec();
    bytes.extend_from_slice(&2u32.to_le_bytes());
    bytes.extend_from_slice(&1u64.to_le_bytes());
    bytes.extend_from_slice(&9u64.to_le_bytes());
    bytes.extend_from_slice(&4u32.to_le_bytes());
    bytes.push(CmdKind::Kill.tag());
    let log = InputLog::from_bytes(&bytes).expect("v2 log must still be readable under v3");
    assert_eq!(log.as_slice()[0].kind, CmdKind::Kill);
}

#[test]
fn empty_log_round_trips() {
    let mut l = InputLog::new();
    l.finalize();
    let back = InputLog::from_bytes(&l.to_bytes()).unwrap();
    assert!(back.is_empty());
}
