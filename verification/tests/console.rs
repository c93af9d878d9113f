use pentagram::atlas::{world_map, Visibility};
use pentagram::console::{
    inputs, population_by_race, restart, Args, Console, Effect, Flag, Screen, Sim,
};
use pentagram::element::{Element, PerElement};
use pentagram::frame::{draw, gauge, spark, Run};
use pentagram::fx::{Fx, V2};
use pentagram::input::CmdKind;
use pentagram::keys::{Key, Keys};
use pentagram::numeral::{next_word, signed, unsigned};
use pentagram::race::{attrs, ActionSlot, Kind, Race, RateBand};
use pentagram::replay::build;
use pentagram::table::{abbrev, duration, grouped, push_row, table_path, table_text};
use pentagram::term::Term;
use pentagram::terrain::{rgb, Terrain};
use pentagram::tuning::{pages, Axis, Fmt, Knob, KnobId, Step, Tuning};
use pentagram::world::World;

fn animal(e: Element) -> Race {
    Race { element: e, kind: Kind::Animal }
}

fn plant(e: Element) -> Race {
    Race { element: e, kind: Kind::Plant }
}

fn at(x: i32, y: i32) -> V2 {
    V2::new(Fx::from_int(x), Fx::from_int(y))
}

#[test]
fn options_are_kept_within_limits() {
    let mut a = Args::new();
    assert_eq!((a.size, a.pop, a.speed, a.seed), (96, 60, 120, 0xBEEF));
    a.set(Flag::Size, Some(3));
    a.set(Flag::Pop, Some(1_000));
    a.set(Flag::Speed, None);
    a.set(Flag::Seed, Some(-1));
    a.set(Flag::Rows, Some(500));
    a.set(Flag::Cols, None);
    assert_eq!((a.size, a.pop, a.speed, a.seed), (16, 250, 120, u64::MAX));
    assert_eq!((a.rows, a.cols), (Some(200), None));
}

#[test]
fn twenty_frames_run_a_second_of_ticks() {
    for speed in [1u64, 7, 20, 33, 120, 200_000] {
        let mut s = Sim::new(speed);
        let total: u64 = (0..20).map(|_| s.frame()).sum();
        assert_eq!(total, speed);
    }
    let mut s = Sim::new(120);
    s.paused = true;
    assert_eq!(s.frame(), 0);
    s.stepping = 100;
    assert_eq!(s.frame(), 100);
    assert_eq!(s.frame(), 0);
}

#[test]
fn bytes_become_keys() {
    let mut k = Keys::new();
    assert_eq!(k.poll(b"q\x1b[A\x1b[1;2Dx", false), vec![Key::Char('q'), Key::Up, Key::ShiftLeft, Key::Char('x')]);
    assert_eq!(k.poll(b"\x1b[B\x1b[C\x1b[D\x1b[Z", false), vec![Key::Down, Key::Right, Key::Left, Key::Esc]);
    assert_eq!(k.poll(b"\x1b[1;2A\x1b[1;2B\x1b[1;2C", false), vec![Key::ShiftUp, Key::ShiftDown, Key::ShiftRight]);
    assert!(!k.closed);
}

#[test]
fn a_sequence_may_come_in_pieces() {
    let mut k = Keys::new();
    assert_eq!(k.poll(b"a\x1b[1", false), vec![Key::Char('a')]);
    assert_eq!(k.poll(b";2", false), vec![]);
    assert_eq!(k.poll(b"Bz", true), vec![Key::ShiftDown, Key::Char('z')]);
    assert!(k.closed);
}

#[test]
fn a_bare_escape_is_a_key_in_the_end() {
    let mut k = Keys::new();
    assert_eq!(k.poll(b"\x1b", false), vec![]);
    assert_eq!(k.poll(b"", false), vec![]);
    assert_eq!(k.poll(b"", false), vec![Key::Esc]);
    assert!(k.buf.is_empty());
}

#[test]
fn the_cursor_goes_round_the_table() {
    let mut c = Console::new(5, 120);
    let mut w = World::new(1, 16);
    let n = c.screen.knobs().len();
    assert_eq!(c.handle(Key::Up, &mut w, 1, 16), Effect::Nothing);
    assert_eq!(c.screen.row, n - 1);
    c.handle(Key::Char('j'), &mut w, 1, 16);
    assert_eq!(c.screen.row, 0);
    c.handle(Key::Left, &mut w, 1, 16);
    assert_eq!(c.screen.col, 4);
    assert_eq!(c.screen.element(), Element::Water);
    c.handle(Key::Char('l'), &mut w, 1, 16);
    assert_eq!(c.screen.col, 0);
    for _ in 0..Screen::pages() {
        c.handle(Key::Char('\t'), &mut w, 1, 16);
    }
    assert_eq!(c.screen.page, 0);
    c.handle(Key::Char('x'), &mut w, 1, 16);
    assert_eq!(c.screen.race(), plant(Element::Wood));
    assert_eq!(c.screen.notice, Some(("viewing Plant rows".to_string(), 60)));
    c.handle(Key::Char('m'), &mut w, 1, 16);
    assert!(!c.screen.show_map);
}

#[test]
fn keys_nudge_and_reset_the_knob_under_the_cursor() {
    let mut c = Console::new(5, 120);
    let mut w = World::new(1, 16);
    c.handle(Key::Right, &mut w, 1, 16);
    let fire = animal(Element::Fire);
    assert_eq!(c.tuning.races[fire].lifespan, 800);
    c.handle(Key::Char('+'), &mut w, 1, 16);
    assert_eq!(c.tuning.races[fire].lifespan, 880);
    assert!(c.sim.retuned);
    c.handle(Key::Char('-'), &mut w, 1, 16);
    assert_eq!(c.tuning.races[fire].lifespan, 800);
    c.handle(Key::Char(']'), &mut w, 1, 16);
    assert_eq!(c.tuning.races[fire].lifespan, 1600);
    c.handle(Key::ShiftLeft, &mut w, 1, 16);
    c.handle(Key::Char('['), &mut w, 1, 16);
    assert_eq!(c.tuning.races[fire].lifespan, 400);
    c.handle(Key::Char('r'), &mut w, 1, 16);
    assert_eq!(c.tuning.races[fire].lifespan, 800);
    assert_eq!(
        c.screen.notice,
        Some(("Fire lifespan back to the shipped value".to_string(), 60))
    );
    c.handle(Key::Char('+'), &mut w, 1, 16);
    c.handle(Key::Char('R'), &mut w, 1, 16);
    assert_eq!(c.tuning.races[fire], attrs(fire));
    assert!(!c.sim.retuned);
}

#[test]
fn keys_drive_the_run() {
    let mut c = Console::new(5, 3);
    let mut w = World::new(1, 16);
    for (k, speed) in [('<', 1), (',', 1), ('>', 2), ('>', 4)] {
        c.handle(Key::Char(k), &mut w, 1, 16);
        assert_eq!(c.sim.speed, speed);
    }
    c.sim.speed = 150_000;
    c.handle(Key::Char('>'), &mut w, 1, 16);
    assert_eq!(c.sim.speed, 200_000);
    c.handle(Key::Char(' '), &mut w, 1, 16);
    assert!(c.sim.paused);
    c.handle(Key::Char('.'), &mut w, 1, 16);
    assert_eq!(c.sim.stepping, 100);
    c.handle(Key::Char('w'), &mut w, 1, 16);
    assert_eq!(c.sim.wander, 4);
    assert_eq!(
        c.screen.notice,
        Some(("wander 10% — the view re-steers that share of bodies each second".to_string(), 60))
    );
    assert_eq!(c.handle(Key::Char('T'), &mut w, 1, 16), Effect::WriteTable);
    assert_eq!(c.handle(Key::Esc, &mut w, 1, 16), Effect::Quit);
    assert_eq!(c.handle(Key::Char('q'), &mut w, 1, 16), Effect::Quit);
    assert_eq!(c.handle(Key::Char('?'), &mut w, 1, 16), Effect::Nothing);
}

#[test]
fn a_restart_begins_anew_on_the_live_tables() {
    let mut c = Console::new(3, 120);
    let mut w = build(1, 16, 1);
    c.tuning.races[animal(Element::Fire)].lifespan = 4242;
    assert_eq!(c.handle(Key::Char('z'), &mut w, 9, 20), Effect::Restart);
    assert_eq!((w.tick, w.seed, w.entities.len()), (0, 9, 30));
    assert_eq!(w.races[animal(Element::Fire)].lifespan, 4242);
    for (_, n) in population_by_race(&w).iter() {
        assert_eq!(*n, 3);
    }
    assert_eq!(restart(&c.tuning, 9, 20).state_hash(), w.state_hash());
}

#[test]
fn samples_are_kept_for_a_while_and_messages_fade() {
    let mut c = Console::new(3, 120);
    let w = build(1, 16, 2);
    for _ in 0..60 {
        c.screen.sample(&w);
    }
    let h = &c.screen.history[plant(Element::Metal)];
    assert_eq!(h.len(), 48);
    assert!(h.iter().all(|n| *n == 2));
    c.screen.say("hello".to_string());
    for _ in 0..59 {
        c.screen.fade();
    }
    assert_eq!(c.screen.notice, Some(("hello".to_string(), 1)));
    c.screen.fade();
    assert_eq!(c.screen.notice, None);
}

#[test]
fn the_console_restocks_and_steers_by_commands() {
    let t = Tuning::new(4);
    let w = World::new(5, 32);
    let log = inputs(&w, &t, 5, 5, 40);
    assert_eq!(log.len(), 20, "two births of each race, and nobody to steer");
    for c in log.as_slice() {
        assert_eq!((c.tick, c.entity), (0, 0));
        assert!(matches!(c.kind, CmdKind::Spawn { .. }));
    }

    let mut w = build(5, 32, 4);
    w.tick = 1_000;
    let log = inputs(&w, &t, 50, 5, 100);
    assert_eq!(log.len(), 20, "half of forty bodies in one second");
    for c in log.as_slice() {
        assert!((1_000..1_100).contains(&c.tick));
        assert!(matches!(c.kind, CmdKind::SetHeading { .. }));
    }
    assert_eq!(inputs(&w, &t, 0, 5, 100).len(), 0);
}

#[test]
fn durations_and_counts_are_written_short() {
    for (t, s) in [(99, "99t"), (100, "1m"), (8_999, "89m"), (9_000, "1h30"), (287_999, "47h59"), (288_000, "2d00h")] {
        assert_eq!(duration(t), s);
    }
    for (v, s) in [(0, "0"), (9_999, "9999"), (10_000, "10.0k"), (-12_345, "-12.3k"), (1_234_567, "1.2M")] {
        assert_eq!(abbrev(v), s);
    }
    for (v, s) in [(7, "7"), (1_000, "1 000"), (-1_234_567, "-1 234 567"), (1_000_001, "1 000 001")] {
        assert_eq!(grouped(v), s);
    }
    assert_eq!(Fx::ratio(-1, 2).text(), "-1.500fx");
    assert_eq!(Fx::ratio(5, 4).text(), "1.250fx");
}

#[test]
fn knobs_write_their_values() {
    let life = Knob::of(KnobId::Lifespan);
    assert_eq!(life.short(800), "8m");
    assert_eq!(life.long(2_016_000), "2 016 000 ticks · 14d00h");
    let speed = Knob::of(KnobId::Speed);
    assert_eq!(speed.short(146), "1.46");
    assert_eq!(speed.long(9), "0.09 cells");
    assert_eq!(speed.short(-5), "0.05");
    let chance = Knob::of(KnobId::Chance);
    assert_eq!(chance.short(200), "200");
    assert_eq!(chance.long(200), "200‰ of the unit");
    assert_eq!(Knob::of(KnobId::RootMin).long(12_345), "12 345");
}

#[test]
fn a_knob_shows_what_it_was_set_to() {
    for p in pages() {
        for k in &p.knobs {
            if k.id == KnobId::TurnRate {
                continue;
            }
            let mut t = Tuning::new(1);
            let r = animal(Element::Metal);
            if k.id == KnobId::RatioOut {
                Knob::of(KnobId::RatioIn).set(&mut t, r, 100_000);
            }
            for v in [k.lo, (k.lo + k.hi) / 2, k.hi] {
                k.set(&mut t, r, v);
                assert_eq!(k.value(&t, r), v, "{}", k.name);
            }
        }
    }
}

#[test]
fn a_nudge_stays_in_range_and_makes_no_mass() {
    for p in pages() {
        for k in &p.knobs {
            let mut t = Tuning::new(1);
            let r = animal(Element::Water);
            for up in [false, true] {
                for _ in 0..40 {
                    k.nudge(&mut t, r, up, true);
                    let v = k.value(&t, r);
                    assert!(v >= k.lo && v <= k.hi, "{} at {v}", k.name);
                    for (_, a) in t.races.iter() {
                        assert!(a.actions.iter().all(|x| x.is_valid()), "{}", k.name);
                    }
                }
            }
        }
    }
    let mut t = Tuning::new(1);
    let r = animal(Element::Wood);
    let input = Knob::of(KnobId::RatioIn);
    input.set(&mut t, r, 1);
    let exist = t.races[r].action(ActionSlot::Exist).unwrap();
    assert_eq!((exist.ratio_in, exist.ratio_out), (1, 1));
    Knob::of(KnobId::RatioOut).set(&mut t, r, 50);
    assert_eq!(Knob::of(KnobId::RatioOut).value(&t, r), 1);
    assert_eq!(Knob::of(KnobId::MiningRate).value(&t, plant(Element::Wood)), 0);
}

#[test]
fn shared_pages_ignore_the_kind() {
    let ps = pages();
    assert_eq!(ps.len(), 5);
    for p in &ps {
        for k in &p.knobs {
            let mut t = Tuning::new(1);
            k.set(&mut t, plant(Element::Fire), k.lo + 1);
            let same = k.value(&t, plant(Element::Fire)) == k.value(&t, animal(Element::Fire));
            if p.axis == Axis::Element {
                assert!(same, "{}", k.name);
            }
        }
    }
    assert_eq!(ps[2].title, "ecology (S2)");
    assert_eq!(ps[0].knobs[1].fmt, Fmt::Permille);
    assert_eq!(ps[0].knobs[0].step, Step::Scale);
    assert_eq!(ps[0].knobs[0].slider(), (100, 12_960_000, true));
    assert_eq!(ps[1].knobs[6].slider(), (1, 12_960_000, true));
    assert_eq!(ps[0].knobs[2].slider(), (0, 400, false));
}

#[test]
fn the_tables_are_written_as_source() {
    let mut t = Tuning::new(1);
    t.climate.base_range[Element::Fire] = (3, 9);
    let s = table_text(&t);
    assert!(s.starts_with("// Written by the chaos live view."));
    assert!(s.contains("fantasy: \"Born from a lightning strike, burns hot, dies fast, and the ground remembers.\",\n"));
    assert!(s.contains("        lifespan: 800,\n        lifespan_variance: 300,\n        speed: Fx::ratio(46, 100),\n        radius: Fx::ratio(40, 100),\n"));
    assert!(s.contains("    diffuse_rate: PerElement([200, 200, 200, 200, 200]),\n"));
    assert!(s.contains("    base_range: PerElement([(0, 40), (3, 9), (0, 40), (0, 40), (0, 40)]),\n"));
    assert!(s.contains("    season_ticks: 8640,\n};\n"));
    assert!(s.contains("    forage_radius: PerElement([Fx::ratio(400, 100), "));
    assert!(s.contains("        8000, // Wood Animal\n"));
    assert!(s.contains("        Fx::ratio(250, 1000), // Water Animal\n"));
    assert!(s.ends_with("    ]),\n};\n"));
    assert_eq!(table_path(Some("/home/x")), "/home/x/src/race.tuned.rs");
    assert_eq!(table_path(None), "race.tuned.rs");
}

#[test]
fn a_row_ends_with_the_text_it_was_given() {
    let race = plant(Element::Water);
    let mut s = String::from("// before\n");
    push_row(&mut s, race, &attrs(race), "FANTASY");
    assert!(s.starts_with("// before\n    RaceAttrs {\n        element: Element::Water,\n        kind: Kind::Plant,\n        lifespan: 10500,\n"));
    assert!(s.contains(",\n        speed: Fx::ratio(0, 100),\n"));
    assert!(s.ends_with("        ],\n        fantasy: FANTASY,\n    },\n"));
}

#[test]
fn a_fantasy_is_quoted_with_escapes() {
    let mut t = Tuning::new(1);
    t.races[animal(Element::Wood)].fantasy = "say \"hi\"\n";
    assert!(table_text(&t).contains("fantasy: \"say \\\"hi\\\"\\n\",\n"));
}

#[test]
fn a_spark_is_right_aligned_and_scaled() {
    assert_eq!(spark(&vec![0, 4, 8], 8, 5), "  ▁▄█");
    assert_eq!(spark(&vec![9, 0, 7], 7, 2), "▁█");
    assert_eq!(spark(&vec![], 0, 3), "   ");
}

#[test]
fn a_gauge_marks_its_band() {
    let b = RateBand::new(1, 4, 8, 1);
    let dim = "\x1b[38;2;110;118;134m";
    assert_eq!(gauge(6, b, "*", 8), format!("{dim}│*▓╵▓▓┊▓{dim}░░│\x1b[0m"));
    assert_eq!(gauge(0, RateBand::new(0, 0, 0, 1), "*", 2), format!("{dim}│*{dim}┊░│\x1b[0m"));
}

fn run() -> Run {
    Run { paused: false, speed: 120, realtime: Some(72), retuned: true, wander: 5 }
}

#[test]
fn a_frame_has_its_parts() {
    let c = Console::new(3, 120);
    let mut w = build(1, 32, 3);
    w.tick = 144_000 + 6_000 * 2 + 300;
    let s = draw(&w, &c.screen, &c.tuning, &run(), 60, 100);
    assert!(s.starts_with("\x1b[H") && s.ends_with("\x1b[J"));
    assert!(s.contains("tick 156 300  ·  1d 02h 03m sim"));
    assert!(s.contains("120 t/s  ·  72× real  ·  30 alive"));
    assert!(s.contains("✎ retuned"));
    assert!(s.contains("── knobs ── body & rates   (tab: page 1/5)"));
    assert!(s.contains("▸ Wood lifespan"));
    assert!(s.contains("15 000 ticks · 2h30"));
    assert!(s.contains("-/+ ±10%   [/] ×2"));
    assert!(s.contains("terrain dominant-element colour behind bodies"));
    let small = draw(&w, &c.screen, &c.tuning, &run(), 25, 10);
    assert!(!small.contains("dominant-element"), "no room for a map");
}

#[test]
fn a_map_has_a_line_per_two_rows() {
    let w = build(1, 32, 3);
    let s = world_map(&w, 10, 80);
    assert_eq!(s.lines().count(), 12);
    assert!(s.contains(&"─".repeat(20)));
    let narrow = world_map(&w, 10, 14);
    assert!(narrow.contains(&"─".repeat(10)) && !narrow.contains(&"─".repeat(11)));
}

#[test]
fn a_lone_body_is_a_mark_of_its_colour() {
    let mut w = World::new(1, 8);
    w.spawn(animal(Element::Fire), at(0, 0));
    let (r, g, b) = rgb(Element::Fire);
    let s = world_map(&w, 4, 80);
    assert!(s.contains(&format!("\x1b[38;2;{r};{g};{b}m˙")));
    for _ in 0..9 {
        w.spawn(animal(Element::Fire), at(0, 1));
    }
    let s = world_map(&w, 4, 80);
    assert!(s.contains(&format!("\x1b[48;2;{r};{g};{b}m\x1b[38;2;{r};{g};{b}m▀")));
}

#[test]
fn visibility_hides_layers_and_bodies() {
    let mut w = World::new(1, 4);
    w.spawn(animal(Element::Fire), at(1, 1));
    let mut t = Terrain::new(2);
    t.cell_mut(1, 0)[Element::Water] = 50;
    let mut v = Visibility::default();
    assert!(v.body(&w.entities[0]));
    assert_eq!(v.image(&t), vec![(18, 18, 24), rgb(Element::Water), (18, 18, 24), (18, 18, 24)]);
    v.terrain_el = PerElement::filled(true);
    v.terrain_el[Element::Water] = false;
    assert_eq!(v.image(&t)[1], (18, 18, 24));
    v.animal_el[Element::Fire] = false;
    assert!(!v.body(&w.entities[0]));
    v = Visibility::default();
    v.terrain_on = false;
    v.animals_on = false;
    assert!(!v.body(&w.entities[0]));
    assert_eq!(v.image(&t)[1], (18, 18, 24));
}

fn line(words: &[&str]) -> Vec<String> {
    words.iter().map(|s| s.to_string()).collect()
}

#[test]
fn a_console_starts_at_the_speed_it_is_given() {
    let c = Console::new(7, 250);
    assert_eq!(c.sim, Sim::new(250));
    assert_eq!((c.sim.speed, c.sim.paused, c.sim.wander, c.sim.retuned), (250, false, 3, false));
    assert_eq!((c.screen.page, c.screen.row, c.screen.col, c.screen.show_map), (0, 0, 0, true));
    assert_eq!(c.tuning.restock[animal(Element::Fire)], 7);
}

#[test]
fn a_command_line_sets_what_it_names() {
    let a = Args::parse(&line(&["--size", "128", "noise", "--pop", "-3", "--seed", "x", "--rows", "+30"])).unwrap();
    assert_eq!((a.size, a.pop, a.speed, a.seed), (128, 0, 120, 0xBEEF));
    assert_eq!((a.rows, a.cols), (Some(30), None));
    let b = Args::parse(&line(&["--cols", "1000", "--speed"])).unwrap();
    assert_eq!((b.cols, b.speed), (Some(400), 120));
    assert_eq!(Args::parse(&line(&[])), Some(Args::new()));
    assert_eq!(Args::parse(&line(&["--size", "20", "-h"])), None);
    assert_eq!(Args::parse(&line(&["--help"])), None);
}

#[test]
fn numbers_read_as_they_are_written() {
    for s in [
        "0", "-0", "+7", "007", "-9223372036854775808", "9223372036854775807", "9223372036854775808",
        "-9223372036854775809", "99999999999999999999999", "", "-", "+", "--1", "1 ", " 1", "1_0", "0x1", "٣",
    ] {
        assert_eq!(signed(s), s.parse::<i64>().ok(), "{s}");
        assert_eq!(unsigned(s), s.parse::<usize>().ok(), "{s}");
    }
    assert_eq!(unsigned("18446744073709551615"), "18446744073709551615".parse::<usize>().ok());
    assert_eq!(unsigned("18446744073709551616"), None);
}

#[test]
fn words_are_what_stands_between_white_space() {
    let s = "  one\ttwo\u{2003}three\n";
    let mut at = 0;
    let mut words = Vec::new();
    while let Some((w, end)) = next_word(s, at) {
        words.push(w);
        at = end;
    }
    assert_eq!(words, s.split_whitespace().collect::<Vec<_>>());
}

#[test]
fn the_terminal_is_asked_now_and_then() {
    let mut t = Term::new();
    assert!(t.is_due());
    assert_eq!(t.size(Some("24 80\n")), Some((24, 80)));
    for _ in 1..20 {
        assert!(!t.is_due());
        assert_eq!(t.size(None), Some((24, 80)));
    }
    assert!(t.is_due());
    assert_eq!(t.size(Some("24 wide")), None);
    assert_eq!(t.size, Some((24, 80)));
    assert!(!t.is_due());
    assert_eq!(t.size(None), Some((24, 80)));
    let mut u = Term::new();
    assert_eq!(u.size(None), None);
    assert!(u.is_due());
    assert_eq!(u.size(Some("50 132 9")), Some((50, 132)));
}
