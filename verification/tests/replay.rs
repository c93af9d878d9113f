use pentagram::input::InputLog;
use pentagram::replay::{record, scripted_log, verify};

#[test]
fn a_run_reproduces_itself() {
    let log = scripted_log(5, 400, 40);
    let t = record(0xABC, 48, 6, &log, 400);
    assert_eq!(verify(&t, &log), Ok(()));
}

#[test]
fn verify_reports_the_first_bad_tick() {
    let log = scripted_log(5, 200, 40);
    let mut t = record(0xABC, 48, 6, &log, 200);
    t.hashes[57] ^= 1;
    match verify(&t, &log) {
        Err(d) => assert_eq!(d.tick, 57),
        Ok(()) => panic!("corrupted trace verified clean"),
    }
}

#[test]
fn a_different_seed_gives_a_different_run() {
    let log = scripted_log(5, 200, 40);
    let a = record(1, 48, 6, &log, 200);
    let b = record(2, 48, 6, &log, 200);
    assert_ne!(a.final_hash(), b.final_hash());
}

#[test]
fn a_different_log_gives_a_different_run() {
    let a_log = scripted_log(5, 200, 40);
    let b_log = scripted_log(6, 200, 40);
    let a = record(1, 48, 6, &a_log, 200);
    let b = record(1, 48, 6, &b_log, 200);
    assert_ne!(a.final_hash(), b.final_hash());
}

#[test]
fn a_log_survives_a_round_trip_through_bytes() {
    let log = scripted_log(9, 300, 40);
    let shipped = InputLog::from_bytes(&log.to_bytes()).expect("round trip");
    let a = record(77, 48, 6, &log, 300);
    let b = record(77, 48, 6, &shipped, 300);
    assert_eq!(a.hashes, b.hashes);
}
