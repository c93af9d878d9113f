//! The console: what each key does, how fast the world runs, and the commands
//! that the console itself submits.
use crate::element::{element_at, Element};
use crate::entity::EntityV;
use crate::fx::{Fx, V2};
use crate::input::{CmdKind, Command, InputLog};
use crate::keys::Key;
use crate::numeral::{same, signed, signed_in};
use crate::order::sorted;
use crate::race::{race_at, Kind, PerRace, Race, RaceAttrs, TERRAIN_PERIOD};
use crate::rand::{draw_below, draw_signed, law_draw_below_bound, rand_below, rand_signed, Channel};
use crate::replay::{genesis, law_genesis_is_unique};
use crate::text::{decimal, push_decimal};
use crate::tuning::{
    is_table, kept, law_tuning_keeps_recipes_valid, name_of, nudged, page, page_ids, reading, row,
    shipped_tuning, written, Knob, KnobId, Tuning, TuningV,
};
use crate::world::{rows, spawned, World, WorldV};
use vstd::prelude::*;
use vstd::string::*;

verus! {

/// Shares of the population, in percent per second, that the console steers.
pub const WANDER_STEPS: [u32; 7] = [0, 1, 2, 5, 10, 25, 50];

/// The most bodies of one race that are spawned back in one frame.
pub const RESTOCK_MAX: u64 = 24;

/// Samples of the population that are kept.
pub const HISTORY: usize = 48;

/// What the console starts with.
#[derive(Clone, Copy, PartialEq, Eq, Debug, Structural)]
pub struct Args {
    pub size: i32,
    pub pop: u32,
    pub speed: u64,
    pub seed: u64,
    pub rows: Option<usize>,
    pub cols: Option<usize>,
}

/// An option of the command line.
#[derive(Clone, Copy, PartialEq, Eq, Debug, Structural)]
pub enum Flag {
    Size,
    Pop,
    Speed,
    Seed,
    Rows,
    Cols,
}

/// The number given for an option, or its default, within limits.
pub open spec fn limited(v: Option<i64>, default: i64, lo: i64, hi: i64) -> i64 {
    kept(match v {
        Some(n) => n as int,
        None => default as int,
    }, lo, hi)
}

fn limit(v: Option<i64>, default: i64, lo: i64, hi: i64) -> (r: i64)
    requires
        lo <= hi,
    ensures
        r == limited(v, default, lo, hi),
        lo <= r <= hi,
{
    let n: i64 = match v {
        Some(n) => n,
        None => default,
    };
    if n < lo {
        lo
    } else if n > hi {
        hi
    } else {
        n
    }
}

impl Args {
    /// What holds of every command line.
    pub open spec fn wf(self) -> bool {
        &&& 16 <= self.size <= 4096
        &&& self.pop <= 250
        &&& 1 <= self.speed <= 200_000
        &&& self.rows matches Some(n) ==> 20 <= n <= 200
        &&& self.cols matches Some(n) ==> 60 <= n <= 400
    }

    pub open spec fn start() -> Args {
        Args { size: 96, pop: 60, speed: 120, seed: 0xBEEF, rows: None, cols: None }
    }

    pub fn new() -> (a: Args)
        ensures
            a == Args::start(),
            a.wf(),
    {
        Args { size: 96, pop: 60, speed: 120, seed: 0xBEEF, rows: None, cols: None }
    }

    /// The arguments after an option with the number that follows it, if one
    /// does.
    pub open spec fn with(self, flag: Flag, v: Option<i64>) -> Args {
        match flag {
            Flag::Size => Args { size: limited(v, 96, 16, 4096) as i32, ..self },
            Flag::Pop => Args { pop: limited(v, 60, 0, 250) as u32, ..self },
            Flag::Speed => Args { speed: limited(v, 120, 1, 200_000) as u64, ..self },
            Flag::Seed => Args {
                seed: match v {
                    Some(n) => n as u64,
                    None => 0xBEEF,
                },
                ..self
            },
            Flag::Rows => Args {
                rows: match v {
                    Some(n) => Some(kept(n as int, 20, 200) as usize),
                    None => None,
                },
                ..self
            },
            Flag::Cols => Args {
                cols: match v {
                    Some(n) => Some(kept(n as int, 60, 400) as usize),
                    None => None,
                },
                ..self
            },
        }
    }

    pub fn set(&mut self, flag: Flag, v: Option<i64>)
        requires
            old(self).wf(),
        ensures
            *final(self) == old(self).with(flag, v),
            final(self).wf(),
    {
        match flag {
            Flag::Size => {
                self.size = limit(v, 96, 16, 4096) as i32;
            },
            Flag::Pop => {
                self.pop = limit(v, 60, 0, 250) as u32;
            },
            Flag::Speed => {
                self.speed = limit(v, 120, 1, 200_000) as u64;
            },
            Flag::Seed => {
                self.seed = match v {
                    Some(n) => #[verifier::truncate] (n as u64),
                    None => 0xBEEF,
                };
            },
            Flag::Rows => {
                self.rows = match v {
                    Some(n) => Some(limit(Some(n), 20, 20, 200) as usize),
                    None => None,
                };
            },
            Flag::Cols => {
                self.cols = match v {
                    Some(n) => Some(limit(Some(n), 60, 60, 400) as usize),
                    None => None,
                };
            },
        }
    }
}

impl Flag {
    /// The option that an argument names.
    pub open spec fn named(s: Seq<char>) -> Option<Flag> {
        if s == "--size"@ {
            Some(Flag::Size)
        } else if s == "--pop"@ {
            Some(Flag::Pop)
        } else if s == "--speed"@ {
            Some(Flag::Speed)
        } else if s == "--seed"@ {
            Some(Flag::Seed)
        } else if s == "--rows"@ {
            Some(Flag::Rows)
        } else if s == "--cols"@ {
            Some(Flag::Cols)
        } else {
            None
        }
    }

    fn read(s: &str) -> (r: Option<Flag>)
        ensures
            r == Flag::named(s@),
    {
        if same(s, "--size") {
            Some(Flag::Size)
        } else if same(s, "--pop") {
            Some(Flag::Pop)
        } else if same(s, "--speed") {
            Some(Flag::Speed)
        } else if same(s, "--seed") {
            Some(Flag::Seed)
        } else if same(s, "--rows") {
            Some(Flag::Rows)
        } else if same(s, "--cols") {
            Some(Flag::Cols)
        } else {
            None
        }
    }
}

/// Whether an argument asks for help.
pub open spec fn asks_for_help(s: Seq<char>) -> bool {
    s == "--help"@ || s == "-h"@
}

impl Args {
    /// What the first `n` arguments of a command line set. An option takes the
    /// argument after it as its number, and what is no option is passed over.
    pub open spec fn read(argv: Seq<String>, n: int) -> Args
        decreases n,
    {
        if n <= 0 {
            Args::start()
        } else {
            let a = Args::read(argv, n - 1);
            match Flag::named(argv[n - 1]@) {
                Some(flag) => a.with(
                    flag,
                    if n < argv.len() {
                        signed_in(argv[n]@)
                    } else {
                        None
                    },
                ),
                None => a,
            }
        }
    }

    /// Read a command line. There are no arguments to go by where it asks for
    /// help.
    pub fn parse(argv: &Vec<String>) -> (r: Option<Args>)
        ensures
            r is None <==> exists|i: int| 0 <= i < argv@.len() && asks_for_help(#[trigger] argv@[i]@),
            r matches Some(a) ==> a == Args::read(argv@, argv@.len() as int) && a.wf(),
    {
        let mut a: Args = Args::new();
        let mut i: usize = 0;
        while i < argv.len()
            invariant
                i <= argv@.len(),
                a == Args::read(argv@, i as int),
                a.wf(),
                forall|j: int| 0 <= j < i ==> !asks_for_help(#[trigger] argv@[j]@),
            decreases argv.len() - i,
        {
            let arg: &str = argv[i].as_str();
            if same(arg, "--help") || same(arg, "-h") {
                assert(asks_for_help(argv@[i as int]@));
                return None;
            }
            if let Some(flag) = Flag::read(arg) {
                let v: Option<i64> = if i + 1 < argv.len() {
                    signed(argv[i + 1].as_str())
                } else {
                    None
                };
                a.set(flag, v);
            }
            i = i + 1;
        }
        Some(a)
    }
}

/// How the run goes.
#[derive(Clone, Copy, PartialEq, Eq, Debug, Structural)]
pub struct Sim {
    /// Ticks per second.
    pub speed: u64,
    pub paused: bool,
    /// What is left of a tick, in twentieths, so that slow speeds advance too.
    pub carry: u64,
    /// Ticks still to run while paused.
    pub stepping: u64,
    /// Which of [`WANDER_STEPS`] applies.
    pub wander: usize,
    /// Ticks run since the world began.
    pub ticked: u64,
    /// Whether the tables have been changed under the running world.
    pub retuned: bool,
}

impl Sim {
    pub open spec fn wf(self) -> bool {
        &&& 1 <= self.speed <= 200_000
        &&& self.carry < 20
        &&& self.stepping <= 100
        &&& self.wander < 7
    }

    pub fn new(speed: u64) -> (s: Sim)
        requires
            1 <= speed <= 200_000,
        ensures
            s == (Sim {
                speed,
                paused: false,
                carry: 0,
                stepping: 0,
                wander: 3,
                ticked: 0,
                retuned: false,
            }),
            s.wf(),
    {
        Sim { speed, paused: false, carry: 0, stepping: 0, wander: 3, ticked: 0, retuned: false }
    }

    /// How many ticks a frame runs, and what that leaves.
    pub open spec fn framed(self) -> (Sim, int) {
        if self.stepping > 0 {
            let n = if self.stepping < 100 {
                self.stepping as int
            } else {
                100
            };
            (Sim { stepping: (self.stepping - n) as u64, ..self }, n)
        } else if self.paused {
            (self, 0)
        } else {
            (
                Sim { carry: ((self.carry + self.speed) % 20) as u64, ..self },
                (self.carry + self.speed) / 20,
            )
        }
    }

    /// The ticks of the next frame: twenty frames make a second.
    pub fn frame(&mut self) -> (n: u64)
        requires
            old(self).wf(),
        ensures
            (*final(self), n as int) == old(self).framed(),
            final(self).wf(),
            n <= 10_000,
    {
        if self.stepping > 0 {
            let n: u64 = if self.stepping < TERRAIN_PERIOD {
                self.stepping
            } else {
                TERRAIN_PERIOD
            };
            self.stepping = self.stepping - n;
            n
        } else if self.paused {
            0
        } else {
            let all: u64 = self.carry + self.speed;
            self.carry = all % 20;
            all / 20
        }
    }
}

/// Over twenty frames, one second, exactly `speed` ticks run: fractions are
/// carried, not lost.
pub proof fn law_a_second_runs_at_speed(s: Sim)
    requires
        s.wf(),
        !s.paused,
        s.stepping == 0,
    ensures
        ran(s, 20) == s.speed,
        after(s, 20).carry == s.carry,
{
    lemma_ran(s, 20);
    assert((s.carry + 20 * s.speed) / 20 == s.speed + s.carry / 20);
    let (c, v) = (s.carry as int, s.speed as int);
    assert((c + 20 * v) / 20 == v && (c + 20 * v) % 20 == c) by (nonlinear_arith)
        requires
            0 <= c < 20,
            0 <= v,
    ;
}

/// The run after `n` frames.
pub open spec fn after(s: Sim, n: int) -> Sim
    decreases n,
{
    if n <= 0 {
        s
    } else {
        after(s, n - 1).framed().0
    }
}

/// The ticks of `n` frames.
pub open spec fn ran(s: Sim, n: int) -> int
    decreases n,
{
    if n <= 0 {
        0
    } else {
        ran(s, n - 1) + after(s, n - 1).framed().1
    }
}

proof fn lemma_ran(s: Sim, n: int)
    requires
        s.wf(),
        !s.paused,
        s.stepping == 0,
        0 <= n,
    ensures
        after(s, n) == (Sim { carry: ((s.carry + n * s.speed) % 20) as u64, ..s }),
        ran(s, n) == (s.carry + n * s.speed) / 20,
    decreases n,
{
    if n > 0 {
        lemma_ran(s, n - 1);
        let (c, v) = (s.carry as int, s.speed as int);
        let p = c + (n - 1) * v;
        assert(c + n * v == p + v) by (nonlinear_arith)
            requires
                p == c + (n - 1) * v,
        ;
        assert(0 <= p) by (nonlinear_arith)
            requires
                p == c + (n - 1) * v,
                0 <= c,
                0 <= v,
                n >= 1,
        ;
        assert((p % 20 + v) / 20 + p / 20 == (p + v) / 20);
        assert((p % 20 + v) % 20 == (p + v) % 20);
    } else {
        assert(0 * s.speed == 0) by (nonlinear_arith);
    }
}

// ----------------------------------------------------------------------
// The view.
// ----------------------------------------------------------------------

/// How many living bodies are of race `r`.
pub open spec fn headcount(ents: Seq<EntityV>, r: Race) -> int
    decreases ents.len(),
{
    if ents.len() == 0 {
        0
    } else {
        headcount(ents.drop_last(), r) + (if ents.last().alive && ents.last().race() == r {
            1
        } else {
            0int
        })
    }
}

proof fn lemma_headcount(ents: Seq<EntityV>, r: Race)
    ensures
        0 <= headcount(ents, r) <= ents.len(),
    decreases ents.len(),
{
    if ents.len() > 0 {
        lemma_headcount(ents.drop_last(), r);
    }
}

/// How many living bodies each race has.
pub fn population_by_race(w: &World) -> (p: PerRace<u32>)
    requires
        w.entities@.len() <= u32::MAX,
    ensures
        forall|r: Race| #[trigger] p@[r.at()] == headcount(w@.ents, r),
{
    let ghost ents = w@.ents;
    let mut p: PerRace<u32> = PerRace::filled(0u32);
    let mut i: usize = 0;
    proof {
        assert forall|r: Race| #[trigger] p@[r.at()] == headcount(ents.take(0), r) by {
            crate::race::law_race_positions(r, 0);
        }
    }
    while i < w.entities.len()
        invariant
            ents == w@.ents,
            ents.len() <= u32::MAX,
            i <= ents.len(),
            forall|r: Race| #[trigger] p@[r.at()] == headcount(ents.take(i as int), r),
        decreases w.entities.len() - i,
    {
        let ghost q = p@;
        assert(ents.take(i + 1).drop_last() =~= ents.take(i as int));
        assert(ents[i as int] == w.entities@[i as int]@);
        if w.entities[i].alive {
            let r: Race = w.entities[i].race();
            proof {
                lemma_headcount(ents.take(i as int), r);
                crate::race::law_race_positions(r, 0);
                assert(q[r.at()] == headcount(ents.take(i as int), r));
            }
            p.set(r, *p.get(r) + 1);
        }
        proof {
            assert forall|r: Race| #[trigger] p@[r.at()] == headcount(ents.take(i + 1), r) by {
                crate::race::law_race_positions(r, 0);
                assert(q[r.at()] == headcount(ents.take(i as int), r));
                let s = w.entities@[i as int]@.race();
                crate::race::law_race_positions(s, 0);
                crate::race::law_race_positions(r, r.at());
                crate::race::law_race_positions(s, s.at());
            }
        }
        i = i + 1;
    }
    assert(ents.take(i as int) =~= ents);
    p
}

/// Where the cursor is and what is shown.
pub struct Screen {
    pub page: usize,
    pub row: usize,
    pub col: usize,
    /// Which kind's rows are shown.
    pub kind: Kind,
    pub show_map: bool,
    pub history: PerRace<Vec<u32>>,
    /// A message, with the frames that it has left.
    pub notice: Option<(String, u32)>,
}

/// The value of a [`Screen`].
#[verifier::ext_equal]
pub struct ScreenV {
    pub page: int,
    pub row: int,
    pub col: int,
    pub kind: Kind,
    pub show_map: bool,
    pub history: Seq<Seq<u32>>,
    pub notice: Option<(Seq<char>, u32)>,
}

impl Screen {
    pub open spec fn histories(&self) -> Seq<Seq<u32>> {
        Seq::new(10, |i: int| self.history@[i]@)
    }

    /// The value of the view.
    pub open spec fn value(&self) -> ScreenV {
        ScreenV {
            page: self.page as int,
            row: self.row as int,
            col: self.col as int,
            kind: self.kind,
            show_map: self.show_map,
            history: self.histories(),
            notice: match self.notice {
                Some((m, n)) => Some((m@, n)),
                None => None,
            },
        }
    }
}

/// No samples yet.
pub open spec fn no_history() -> Seq<Seq<u32>> {
    Seq::new(10, |i: int| Seq::<u32>::empty())
}

/// The samples with one more at the end, and no more than are kept.
pub open spec fn sampled(h: Seq<u32>, n: u32) -> Seq<u32> {
    let t = h.push(n);
    if t.len() > 48 {
        t.skip(1)
    } else {
        t
    }
}

impl ScreenV {
    /// The view that a console starts with.
    pub open spec fn start() -> ScreenV {
        ScreenV {
            page: 0,
            row: 0,
            col: 0,
            kind: Kind::Animal,
            show_map: true,
            history: no_history(),
            notice: None,
        }
    }

    /// The cursor is on a cell of the table.
    pub open spec fn wf(self) -> bool {
        &&& 0 <= self.page < 5
        &&& 0 <= self.row < page_ids(self.page).len()
        &&& 0 <= self.col < 5
        &&& self.history.len() == 10
    }

    /// The race that the cursor is on.
    pub open spec fn race(self) -> Race {
        Race { element: element_at(self.col), kind: self.kind }
    }

    /// The knob that the cursor is on.
    pub open spec fn knob(self) -> KnobId {
        page_ids(self.page)[self.row]
    }

    /// The view with a message.
    pub open spec fn saying(self, m: Seq<char>) -> ScreenV {
        ScreenV { notice: Some((m, 60)), ..self }
    }

    /// The view with its cursor back on a cell of the table.
    pub open spec fn held(self) -> ScreenV {
        let page = self.page % 5;
        let n = page_ids(page).len();
        ScreenV {
            page,
            row: if self.row >= n {
                n - 1
            } else {
                self.row
            },
            col: self.col % 5,
            ..self
        }
    }

    /// The view one frame later, as far as its message goes.
    pub open spec fn faded(self) -> ScreenV {
        match self.notice {
            Some((m, n)) => ScreenV {
                notice: if n <= 1 {
                    None
                } else {
                    Some((m, (n - 1) as u32))
                },
                ..self
            },
            None => self,
        }
    }
}

fn empty_history() -> (h: PerRace<Vec<u32>>)
    ensures
        forall|i: int| 0 <= i < 10 ==> (#[trigger] h@[i])@ == Seq::<u32>::empty(),
{
    PerRace(
        [
            Vec::new(),
            Vec::new(),
            Vec::new(),
            Vec::new(),
            Vec::new(),
            Vec::new(),
            Vec::new(),
            Vec::new(),
            Vec::new(),
            Vec::new(),
        ],
    )
}

impl Screen {
    pub fn new() -> (v: Screen)
        ensures
            v.value() == ScreenV::start(),
            v.value().wf(),
    {
        let v = Screen {
            page: 0,
            row: 0,
            col: 0,
            kind: Kind::Animal,
            show_map: true,
            history: empty_history(),
            notice: None,
        };
        assert(v.histories() =~= no_history());
        v
    }

    /// Show a message for three seconds.
    pub fn say(&mut self, msg: String)
        ensures
            final(self).value() == old(self).value().saying(msg@),
    {
        self.notice = Some((msg, 60));
        assert(self.histories() =~= old(self).histories());
    }

    /// One frame less for the message.
    pub fn fade(&mut self)
        ensures
            final(self).value() == old(self).value().faded(),
    {
        let ghost before = self.histories();
        let gone: bool = match &mut self.notice {
            Some(x) => {
                if x.1 > 1 {
                    x.1 = x.1 - 1;
                    false
                } else {
                    true
                }
            },
            None => false,
        };
        if gone {
            self.notice = None;
        }
        assert(self.histories() =~= before);
    }

    pub fn element(&self) -> (e: Element)
        requires
            self.value().wf(),
        ensures
            e == element_at(self.col as int),
    {
        Element::from_index(self.col)
    }

    pub fn race(&self) -> (r: Race)
        requires
            self.value().wf(),
        ensures
            r == self.value().race(),
    {
        Race { element: self.element(), kind: self.kind }
    }

    /// The knobs of the page.
    pub fn knobs(&self) -> (v: Vec<Knob>)
        requires
            self.page < 5,
        ensures
            v@.len() == page_ids(self.page as int).len(),
            forall|k: int|
                0 <= k < v@.len() ==> (#[trigger] v@[k]).wf() && v@[k].id == page_ids(
                    self.page as int,
                )[k],
    {
        page(self.page).knobs
    }

    /// How many pages there are.
    pub fn pages() -> (n: usize)
        ensures
            n == 5,
    {
        crate::tuning::PAGE_COUNT
    }

    /// Take a sample of the population.
    pub fn sample(&mut self, w: &World)
        requires
            w.entities@.len() <= u32::MAX,
            forall|i: int| 0 <= i < 10 ==> (#[trigger] old(self).history@[i])@.len() <= 48,
        ensures
            final(self).value() == (ScreenV {
                history: Seq::new(
                    10,
                    |i: int|
                        sampled(
                            old(self).value().history[i],
                            headcount(w@.ents, race_at(i)) as u32,
                        ),
                ),
                ..old(self).value()
            }),
            forall|i: int| 0 <= i < 10 ==> (#[trigger] final(self).history@[i])@.len() <= 48,
    {
        let pop: PerRace<u32> = population_by_race(w);
        let ghost before = self.value();
        let ghost want = Seq::new(
            10,
            |i: int| sampled(before.history[i], headcount(w@.ents, race_at(i)) as u32),
        );
        let mut k: usize = 0;
        while k < 10
            invariant
                k <= 10,
                want == Seq::new(
                    10,
                    |i: int| sampled(before.history[i], headcount(w@.ents, race_at(i)) as u32),
                ),
                forall|r: Race| #[trigger] pop@[r.at()] == headcount(w@.ents, r),
                self.value() == (ScreenV { history: self.histories(), ..before }),
                before.history.len() == 10,
                forall|i: int| 0 <= i < 10 ==> (#[trigger] before.history[i]).len() <= 48,
                forall|i: int|
                    0 <= i < 10 ==> (#[trigger] self.history@[i])@ == (if i < k {
                        want[i]
                    } else {
                        before.history[i]
                    }),
            decreases 10 - k,
        {
            let r: Race = Race::from_index(k);
            proof {
                crate::race::law_race_positions(r, k as int);
                assert(pop@[r.at()] == headcount(w@.ents, r));
                assert(before.history[k as int].len() <= 48);
            }
            let n: u32 = *pop.get(r);
            let ghost was = self.history@;
            let ghost mine = was[k as int]@;
            let h: &mut Vec<u32> = self.history.get_mut(r);
            h.push(n);
            if h.len() > HISTORY {
                h.remove(0);
            }
            proof {
                let t = mine.push(n);
                if t.len() > 48 {
                    assert(t.remove(0) =~= t.skip(1));
                }
                assert(self.history@[k as int]@ =~= want[k as int]);
            }
            k = k + 1;
        }
        proof {
            assert(self.histories() =~= want);
            assert forall|i: int| 0 <= i < 10 implies (#[trigger] self.history@[i])@.len() <= 48 by {
                assert(before.history[i].len() <= 48);
                assert(self.history@[i]@ == want[i]);
            }
        }
    }

    /// Keep the cursor on a cell of the table.
    pub fn clamp(&mut self)
        ensures
            final(self).value() == old(self).value().held(),
            final(self).value().wf(),
    {
        self.page = self.page % crate::tuning::PAGE_COUNT;
        let n: usize = page(self.page).knobs.len();
        if self.row >= n {
            self.row = n - 1;
        }
        self.col = self.col % 5;
        assert(self.histories() =~= old(self).histories());
    }
}

// ----------------------------------------------------------------------
// Pushing the tables at a world.
// ----------------------------------------------------------------------

/// The world with the tables of `t`.
pub open spec fn adopted(w: WorldV, t: Tuning) -> WorldV {
    WorldV {
        races: rows(t.races@),
        terrain_tuning: t.terrain,
        decay: w.decay.rebanded(t.terrain.ground_decay),
        ecology: t.ecology,
        behavior: t.behavior,
        propagation: t.propagation,
        ..w
    }
}

fn copy_races(t: &PerRace<RaceAttrs>) -> (r: PerRace<RaceAttrs>)
    ensures
        rows(r@) == rows(t@),
{
    let r = PerRace(
        [
            t.0[0].copy(),
            t.0[1].copy(),
            t.0[2].copy(),
            t.0[3].copy(),
            t.0[4].copy(),
            t.0[5].copy(),
            t.0[6].copy(),
            t.0[7].copy(),
            t.0[8].copy(),
            t.0[9].copy(),
        ],
    );
    assert(rows(r@) =~= rows(t@));
    r
}

impl World {
    /// Run on the tables of `t` from here on.
    pub fn adopt(&mut self, t: &Tuning)
        ensures
            final(self)@ == adopted(old(self)@, *t),
    {
        self.retune(copy_races(&t.races));
        self.retune_terrain(t.terrain);
        self.retune_ecology(t.ecology);
        self.retune_behavior(t.behavior);
        self.retune_propagation(t.propagation);
    }
}

/// The upper bound of the coordinates that bodies are placed at.
pub open spec fn spread(size: int) -> u32 {
    if size < 1 {
        1
    } else {
        size as u32
    }
}

/// The world after `k` bodies of the race at position `r` have been placed.
pub open spec fn placed_race(w: WorldV, seed: u64, size: int, r: int, k: int) -> WorldV
    decreases k,
{
    if k <= 0 {
        w
    } else {
        let u = placed_race(w, seed, size, r, k - 1);
        let n = spread(size);
        let at = V2 {
            x: Fx::of_int(draw_below(seed, u.tick, u.next_id, Channel::SpawnPlacement, n)),
            y: Fx::of_int(
                draw_below(seed, u.tick, u.next_id ^ 0x5A5A, Channel::SpawnPlacement, n),
            ),
        };
        spawned(u, race_at(r), at, 1000)
    }
}

/// The world after the first `n` races have been placed.
pub open spec fn placed(w: WorldV, seed: u64, size: int, restock: Seq<u32>, n: int) -> WorldV
    decreases n,
{
    if n <= 0 {
        w
    } else {
        placed_race(
            placed(w, seed, size, restock, n - 1),
            seed,
            size,
            n - 1,
            restock[n - 1] as int,
        )
    }
}

/// A fresh world on the tables of `t`, with as many bodies of each race as
/// they keep up.
pub open spec fn restarted(t: Tuning, seed: u64, size: i32) -> WorldV {
    placed(adopted(genesis(seed, size), t), seed, size as int, t.restock@, 10)
}

/// The tables can be run: recipes make no mass, and nothing that a nudge
/// doubles is at its limit.
#[verifier::opaque]
pub open spec fn tame(t: TuningV) -> bool {
    &&& is_table(t)
    &&& forall|i: int|
        0 <= i < 10 ==> (#[trigger] t.races[i]).actions_valid() && t.races[i].lifespan < i64::MAX
    &&& forall|i: int| 0 <= i < 10 ==> #[trigger] t.restock[i] <= 250
    &&& forall|i: int| 0 <= i < 5 ==> #[trigger] t.period[i] < i64::MAX
    &&& t.season_ticks < i64::MAX
}

/// What a knob shows is a number whose size can be written down.
pub proof fn lemma_tame_reading(id: KnobId, t: TuningV, r: Race)
    requires
        tame(t),
    ensures
        reading(id, t, r) > i64::MIN,
{
    reveal(tame);
    crate::race::law_race_positions(r, 0);
    assert(t.races[r.at()].lifespan < i64::MAX);
    assert(t.period[r.element.at()] < i64::MAX);
    let a = t.races[r.at()];
    assert(-0x8000_0000 <= a.speed.0 <= 0x7FFF_FFFF);
    lemma_cells_range(a.speed);
    lemma_cells_range(a.radius);
    lemma_cells_range(t.forage_radius[r.element.at()]);
    lemma_cells_range(t.dispersal[r.element.at()]);
    lemma_cells_range(t.turn_rate[r.at()]);
}

proof fn lemma_cells_range(f: Fx)
    ensures
        -4_000_000 <= crate::tuning::in_cells(f) <= 4_000_000,
        -33_000_000 <= crate::tuning::in_permille(f) <= 33_000_000,
{
}

/// A fresh world on the tables of `t`.
pub fn restart(t: &Tuning, seed: u64, size: i32) -> (w: World)
    requires
        tame(t@),
    ensures
        w@ == restarted(*t, seed, size),
        w@.wf(),
        w@.inside(),
{
    reveal(tame);
    let mut w: World = World::new(seed, size);
    proof {
        law_genesis_is_unique(w@, genesis(seed, size), seed, size);
    }
    let ghost fresh = w@;
    w.adopt(t);
    proof {
        assert(crate::world::mass(w@) == crate::world::mass(fresh));
        assert forall|i: int| 0 <= i < 10 implies (#[trigger] w@.races[i]).actions_valid() by {
            assert(t@.races[i].actions_valid());
        }
        assert(w@.wf());
    }
    let ghost start = w@;
    let n: u32 = if size < 1 {
        1
    } else {
        size as u32
    };
    let mut r: usize = 0;
    while r < 10
        invariant
            r <= 10,
            tame(t@),
            n == spread(size as int),
            n <= i32::MAX,
            w@ == placed(start, seed, size as int, t.restock@, r as int),
            w@.wf(),
            w@.inside(),
            w.next_id <= 1 + 250 * r,
            w.stats.births <= 250 * r,
        decreases 10 - r,
    {
        let ghost before = w@;
        let race: Race = Race::from_index(r);
        let many: u32 = t.restock.0[r];
        proof {
            reveal(tame);
            assert(t@.restock[r as int] <= 250);
        }
        let mut k: u32 = 0;
        while k < many
            invariant
                k <= many <= 250,
                r < 10,
                race == race_at(r as int),
                1 <= n <= i32::MAX,
                n == spread(size as int),
                w@ == placed_race(before, seed, size as int, r as int, k as int),
                w@.wf(),
                w@.inside(),
                w.next_id <= 1 + 250 * r + k,
                w.stats.births <= 250 * r + k,
            decreases many - k,
        {
            let salt: u32 = w.next_id ^ 0x5A5A;
            proof {
                law_draw_below_bound(seed, w.tick, w.next_id, Channel::SpawnPlacement, n);
                law_draw_below_bound(seed, w.tick, salt, Channel::SpawnPlacement, n);
            }
            let x: u32 = rand_below(seed, w.tick, w.next_id, Channel::SpawnPlacement, n);
            let y: u32 = rand_below(seed, w.tick, salt, Channel::SpawnPlacement, n);
            w.spawn(race, V2::new(Fx::from_int(x as i32), Fx::from_int(y as i32)));
            k = k + 1;
        }
        r = r + 1;
    }
    w
}

// ----------------------------------------------------------------------
// Keys.
// ----------------------------------------------------------------------

/// The console: screen, tables and run.
pub struct Console {
    pub screen: Screen,
    pub tuning: Tuning,
    pub sim: Sim,
}

/// The value of a [`Console`].
#[verifier::ext_equal]
pub struct ConsoleV {
    pub screen: ScreenV,
    pub tuning: TuningV,
    pub sim: Sim,
}

/// What is left for the caller of [`Console::handle`] to do.
#[derive(Clone, Copy, PartialEq, Eq, Debug, Structural)]
pub enum Effect {
    Nothing,
    Quit,
    /// The world has begun anew: measure time from here.
    Restart,
    /// Write the tables out and say how it went.
    WriteTable,
}

impl ConsoleV {
    pub open spec fn wf(self) -> bool {
        self.screen.wf() && self.sim.wf() && tame(self.tuning)
    }

    /// The knob under the cursor, nudged.
    #[verifier::opaque]
    pub open spec fn turned(self, up: bool, coarse: bool) -> ConsoleV {
        let id = self.screen.knob();
        let r = self.screen.race();
        let v = nudged(row(id).1, reading(id, self.tuning, r) as int, up, coarse);
        ConsoleV {
            tuning: written(id, self.tuning, r, kept(v, row(id).2, row(id).3)),
            sim: Sim { retuned: true, ..self.sim },
            ..self
        }
    }

    /// The knob under the cursor, back at its shipped value.
    #[verifier::opaque]
    pub open spec fn undone(self) -> ConsoleV {
        let id = self.screen.knob();
        let r = self.screen.race();
        let many = self.tuning.restock[r.at()];
        let v = reading(id, shipped_tuning(Seq::new(10, |i: int| many)), r);
        ConsoleV {
            tuning: written(id, self.tuning, r, v),
            screen: self.screen.saying(
                r.element.spec_name() + " "@ + name_of(id) + " back to the shipped value"@,
            ),
            ..self
        }
    }

    /// The console after a key that does not quit, before its cursor is held,
    /// and what is left to do.
    pub open spec fn pressed(self, k: Key) -> (ConsoleV, Effect) {
        let v = self.screen;
        let s = self.sim;
        let n = page_ids(v.page).len() as int;
        if k == Key::Up || k == Key::Char('k') {
            let row = if v.row == 0 {
                n - 1
            } else {
                v.row - 1
            };
            (ConsoleV { screen: ScreenV { row, ..v }, ..self }, Effect::Nothing)
        } else if k == Key::Down || k == Key::Char('j') {
            (ConsoleV { screen: ScreenV { row: (v.row + 1) % n, ..v }, ..self }, Effect::Nothing)
        } else if k == Key::Left || k == Key::Char('h') {
            (ConsoleV { screen: ScreenV { col: (v.col + 4) % 5, ..v }, ..self }, Effect::Nothing)
        } else if k == Key::Right || k == Key::Char('l') {
            (ConsoleV { screen: ScreenV { col: (v.col + 1) % 5, ..v }, ..self }, Effect::Nothing)
        } else if k == Key::Char('-') || k == Key::Char('_') {
            (self.turned(false, false), Effect::Nothing)
        } else if k == Key::Char('+') || k == Key::Char('=') {
            (self.turned(true, false), Effect::Nothing)
        } else if k == Key::Char('[') || k == Key::ShiftLeft {
            (self.turned(false, true), Effect::Nothing)
        } else if k == Key::Char(']') || k == Key::ShiftRight {
            (self.turned(true, true), Effect::Nothing)
        } else if k == Key::Char('<') || k == Key::Char(',') {
            let speed = if s.speed / 2 < 1 {
                1
            } else {
                s.speed / 2
            };
            (ConsoleV { sim: Sim { speed: speed as u64, ..s }, ..self }, Effect::Nothing)
        } else if k == Key::Char('>') {
            let speed = if s.speed * 2 > 200_000 {
                200_000
            } else {
                s.speed * 2
            };
            (ConsoleV { sim: Sim { speed: speed as u64, ..s }, ..self }, Effect::Nothing)
        } else if k == Key::Char(' ') {
            (ConsoleV { sim: Sim { paused: !s.paused, ..s }, ..self }, Effect::Nothing)
        } else if k == Key::Char('.') {
            (ConsoleV { sim: Sim { paused: true, stepping: 100, ..s }, ..self }, Effect::Nothing)
        } else if k == Key::Char('\t') {
            (
                ConsoleV { screen: ScreenV { page: (v.page + 1) % 5, row: 0, ..v }, ..self },
                Effect::Nothing,
            )
        } else if k == Key::Char('m') {
            (ConsoleV { screen: ScreenV { show_map: !v.show_map, ..v }, ..self }, Effect::Nothing)
        } else if k == Key::Char('x') {
            let kind = if v.kind == Kind::Animal {
                Kind::Plant
            } else {
                Kind::Animal
            };
            (
                ConsoleV {
                    screen: ScreenV { kind, ..v }.saying(
                        "viewing "@ + kind.spec_name() + " rows"@,
                    ),
                    ..self
                },
                Effect::Nothing,
            )
        } else if k == Key::Char('w') {
            let wander = ((s.wander + 1) % 7) as usize;
            (
                ConsoleV {
                    sim: Sim { wander, ..s },
                    screen: v.saying(
                        "wander "@ + decimal(WANDER_STEPS[wander as int] as int)
                            + "% — the view re-steers that share of bodies each second"@,
                    ),
                    ..self
                },
                Effect::Nothing,
            )
        } else if k == Key::Char('r') {
            (self.undone(), Effect::Nothing)
        } else if k == Key::Char('R') {
            (
                ConsoleV {
                    tuning: shipped_tuning(self.tuning.restock),
                    sim: Sim { retuned: false, ..s },
                    screen: v.saying("whole table back to shipped defaults"@),
                },
                Effect::Nothing,
            )
        } else if k == Key::Char('z') {
            (
                ConsoleV {
                    sim: Sim { ticked: 0, retuned: false, ..s },
                    screen: ScreenV { history: no_history(), ..v }.saying(
                        "restarted at tick 0 — this run is reproducible from these knobs"@,
                    ),
                    ..self
                },
                Effect::Restart,
            )
        } else if k == Key::Char('T') {
            (self, Effect::WriteTable)
        } else {
            (self, Effect::Nothing)
        }
    }

    /// The console after a key, and what is left to do.
    pub open spec fn handled(self, k: Key) -> (ConsoleV, Effect) {
        if k == Key::Char('q') || k == Key::Char('\x03') || k == Key::Esc {
            (self, Effect::Quit)
        } else {
            let (c, e) = self.pressed(k);
            (ConsoleV { screen: c.screen.held(), ..c }, e)
        }
    }
}

/// A knob that is set within its range leaves the tables runnable.
proof fn lemma_tame_written(id: KnobId, t: TuningV, r: Race, v: i64)
    requires
        tame(t),
        id == KnobId::RatioIn || id == KnobId::RatioOut ==> 1 <= v <= u32::MAX,
        id == KnobId::Restock ==> 0 <= v <= 250,
        id == KnobId::Lifespan || id == KnobId::SeasonLength || id == KnobId::Period ==> 0 <= v
            < i64::MAX,
    ensures
        tame(written(id, t, r, v)),
{
    reveal(tame);
    crate::race::law_race_positions(r, 0);
    law_tuning_keeps_recipes_valid(id, t, r, v);
    let u = written(id, t, r, v);
    assert forall|i: int| 0 <= i < 10 implies (#[trigger] u.races[i]).lifespan < i64::MAX by {
        assert(t.races[i].lifespan < i64::MAX);
    }
    assert forall|i: int| 0 <= i < 10 implies #[trigger] u.restock[i] <= 250 by {
        assert(t.restock[i] <= 250);
    }
    assert forall|i: int| 0 <= i < 5 implies #[trigger] u.period[i] < i64::MAX by {
        assert(t.period[i] < i64::MAX);
    }
}

/// The shipped tables can be run.
pub proof fn law_shipped_tables_are_tame(restock: Seq<u32>)
    requires
        restock.len() == 10,
        forall|i: int| 0 <= i < 10 ==> #[trigger] restock[i] <= 250,
    ensures
        tame(shipped_tuning(restock)),
{
    reveal(tame);
    let t = shipped_tuning(restock);
    assert forall|i: int| 0 <= i < 10 implies (#[trigger] t.races[i]).actions_valid()
        && t.races[i].lifespan < i64::MAX by {
        crate::race::law_shipped_rows_are_valid(race_at(i));
    }
}

/// What a knob ships with is within what the tables can be run with.
proof fn lemma_shipped_reading(id: KnobId, many: u32, r: Race)
    requires
        many <= 250,
    ensures
        ({
            let v = reading(id, shipped_tuning(Seq::new(10, |i: int| many)), r);
            &&& id == KnobId::RatioIn || id == KnobId::RatioOut ==> 1 <= v <= u32::MAX
            &&& id == KnobId::Restock ==> 0 <= v <= 250
            &&& id == KnobId::Lifespan || id == KnobId::SeasonLength || id == KnobId::Period ==> 0
                <= v < i64::MAX
        }),
{
    crate::race::law_race_positions(r, 0);
    crate::race::law_shipped_rows_are_valid(r);
    let s = crate::race::shipped(r).actions;
    crate::race::lemma_action_for(s, crate::race::ActionSlot::Exist);
}

/// Whatever key is pressed, the cursor stays on the table and the tables stay
/// runnable.
pub proof fn law_keys_keep_the_console(c: ConsoleV, k: Key)
    requires
        c.wf(),
    ensures
        c.handled(k).0.wf(),
{
    assert(c.tuning.restock.len() == 10 && forall|i: int|
        0 <= i < 10 ==> #[trigger] c.tuning.restock[i] <= 250) by {
        reveal(tame);
    }
    law_shipped_tables_are_tame(c.tuning.restock);
    lemma_undone(c);
    lemma_turned(c, false, false);
    lemma_turned(c, true, false);
    lemma_turned(c, false, true);
    lemma_turned(c, true, true);
}

proof fn lemma_undone(c: ConsoleV)
    requires
        c.wf(),
    ensures
        tame(c.undone().tuning),
        c.undone().sim == c.sim,
        c.undone().screen == (ScreenV { notice: c.undone().screen.notice, ..c.screen }),
{
    reveal(ConsoleV::undone);
    let id = c.screen.knob();
    let r = c.screen.race();
    crate::race::law_race_positions(r, 0);
    let many = c.tuning.restock[r.at()];
    assert(many <= 250) by {
        reveal(tame);
    }
    lemma_shipped_reading(id, many, r);
    lemma_tame_written(
        id,
        c.tuning,
        r,
        reading(id, shipped_tuning(Seq::new(10, |i: int| many)), r),
    );
}

proof fn lemma_turned(c: ConsoleV, up: bool, coarse: bool)
    requires
        c.wf(),
    ensures
        tame(c.turned(up, coarse).tuning),
        c.turned(up, coarse).screen == c.screen,
        c.turned(up, coarse).sim == (Sim { retuned: true, ..c.sim }),
{
    reveal(ConsoleV::turned);
    let id = c.screen.knob();
    let r = c.screen.race();
    let v = nudged(row(id).1, reading(id, c.tuning, r) as int, up, coarse);
    lemma_tame_written(id, c.tuning, r, kept(v, row(id).2, row(id).3));
}

impl Console {
    /// The value of the console.
    pub open spec fn value(&self) -> ConsoleV {
        ConsoleV { screen: self.screen.value(), tuning: self.tuning@, sim: self.sim }
    }

    pub fn new(pop: u32, speed: u64) -> (c: Console)
        requires
            pop <= 250,
            1 <= speed <= 200_000,
        ensures
            c.value() == (ConsoleV {
                screen: ScreenV::start(),
                tuning: shipped_tuning(Seq::new(10, |i: int| pop)),
                sim: Sim {
                    speed,
                    paused: false,
                    carry: 0,
                    stepping: 0,
                    wander: 3,
                    ticked: 0,
                    retuned: false,
                },
            }),
            c.value().wf(),
    {
        proof {
            law_shipped_tables_are_tame(Seq::new(10, |i: int| pop));
        }
        Console { screen: Screen::new(), tuning: Tuning::new(pop), sim: Sim::new(speed) }
    }

    /// Nudge the knob under the cursor.
    fn turn(&mut self, up: bool, coarse: bool)
        requires
            old(self).value().wf(),
        ensures
            final(self).value() == old(self).value().turned(up, coarse),
    {
        reveal(tame);
        reveal(ConsoleV::turned);
        let ghost before = self.value();
        let knobs: Vec<Knob> = self.screen.knobs();
        let knob: Knob = knobs[self.screen.row];
        let race: Race = self.screen.race();
        proof {
            crate::race::law_race_positions(race, 0);
            assert(self.tuning@.races[race.at()].lifespan < i64::MAX);
        }
        knob.nudge(&mut self.tuning, race, up, coarse);
        self.sim.retuned = true;
        assert(self.value() =~= before.turned(up, coarse));
    }

    /// Put the knob under the cursor back at its shipped value.
    fn undo(&mut self)
        requires
            old(self).value().wf(),
        ensures
            final(self).value() == old(self).value().undone(),
    {
        reveal(ConsoleV::undone);
        let ghost before = self.value();
        let knobs: Vec<Knob> = self.screen.knobs();
        let knob: Knob = knobs[self.screen.row];
        let race: Race = self.screen.race();
        proof {
            crate::race::law_race_positions(race, 0);
        }
        let shipped: Tuning = Tuning::new(*self.tuning.restock.get(race));
        let v: i64 = knob.value(&shipped, race);
        knob.set(&mut self.tuning, race, v);
        let mut m: String = String::new();
        m.append(race.element.name());
        m.append(" ");
        m.append(knob.name);
        m.append(" back to the shipped value");
        assert(m@ =~= race.element.spec_name() + " "@ + name_of(knob.id)
            + " back to the shipped value"@);
        self.screen.say(m);
        assert(self.value() =~= before.undone());
    }

    /// Say something that does not change.
    fn tell(&mut self, m: &str)
        ensures
            final(self).value() == (ConsoleV {
                screen: old(self).value().screen.saying(m@),
                ..old(self).value()
            }),
    {
        let mut s: String = String::new();
        s.append(m);
        assert(s@ =~= m@);
        self.screen.say(s);
    }

    /// The keys that move the cursor or what is shown. Whether this was one.
    fn steer(&mut self, k: Key) -> (r: bool)
        requires
            old(self).value().wf(),
        ensures
            r ==> (final(self).value(), Effect::Nothing) == old(self).value().pressed(k),
            !r ==> final(self).value() == old(self).value(),
            r == (k == Key::Up || k == Key::Char('k') || k == Key::Down || k == Key::Char('j') || k
                == Key::Left || k == Key::Char('h') || k == Key::Right || k == Key::Char('l') || k
                == Key::Char('\t') || k == Key::Char('m') || k == Key::Char('x')),
    {
        let ghost before = self.value();
        let n: usize = self.screen.knobs().len();
        if k == Key::Up || k == Key::Char('k') {
            self.screen.row = if self.screen.row == 0 {
                n - 1
            } else {
                self.screen.row - 1
            };
        } else if k == Key::Down || k == Key::Char('j') {
            self.screen.row = (self.screen.row + 1) % n;
        } else if k == Key::Left || k == Key::Char('h') {
            self.screen.col = (self.screen.col + 4) % 5;
        } else if k == Key::Right || k == Key::Char('l') {
            self.screen.col = (self.screen.col + 1) % 5;
        } else if k == Key::Char('\t') {
            self.screen.page = (self.screen.page + 1) % Screen::pages();
            self.screen.row = 0;
        } else if k == Key::Char('m') {
            self.screen.show_map = !self.screen.show_map;
        } else if k == Key::Char('x') {
            let kind: Kind = if self.screen.kind == Kind::Animal {
                Kind::Plant
            } else {
                Kind::Animal
            };
            self.screen.kind = kind;
            let mut m: String = String::new();
            m.append("viewing ");
            m.append(kind.name());
            m.append(" rows");
            assert(m@ =~= "viewing "@ + kind.spec_name() + " rows"@);
            self.screen.say(m);
        } else {
            return false;
        }
        assert(self.value() =~= before.pressed(k).0);
        true
    }

    /// The keys that change how the run goes. Whether this was one.
    fn drive(&mut self, k: Key) -> (r: bool)
        requires
            old(self).value().wf(),
        ensures
            r ==> (final(self).value(), Effect::Nothing) == old(self).value().pressed(k),
            !r ==> final(self).value() == old(self).value(),
            r == (k == Key::Char('<') || k == Key::Char(',') || k == Key::Char('>') || k
                == Key::Char(' ') || k == Key::Char('.') || k == Key::Char('w')),
    {
        let ghost before = self.value();
        if k == Key::Char('<') || k == Key::Char(',') {
            let half: u64 = self.sim.speed / 2;
            self.sim.speed = if half < 1 {
                1
            } else {
                half
            };
        } else if k == Key::Char('>') {
            let twice: u64 = self.sim.speed * 2;
            self.sim.speed = if twice > 200_000 {
                200_000
            } else {
                twice
            };
        } else if k == Key::Char(' ') {
            self.sim.paused = !self.sim.paused;
        } else if k == Key::Char('.') {
            self.sim.paused = true;
            self.sim.stepping = TERRAIN_PERIOD;
        } else if k == Key::Char('w') {
            let wander: usize = (self.sim.wander + 1) % 7;
            self.sim.wander = wander;
            let mut m: String = String::new();
            m.append("wander ");
            push_decimal(&mut m, WANDER_STEPS[wander] as u64);
            m.append("% — the view re-steers that share of bodies each second");
            assert(m@ =~= "wander "@ + decimal(WANDER_STEPS[wander as int] as int)
                + "% — the view re-steers that share of bodies each second"@);
            self.screen.say(m);
        } else {
            return false;
        }
        assert(self.value() =~= before.pressed(k).0);
        true
    }

    /// The keys that change the tables. Whether this was one.
    fn adjust(&mut self, k: Key) -> (r: bool)
        requires
            old(self).value().wf(),
        ensures
            r ==> (final(self).value(), Effect::Nothing) == old(self).value().pressed(k),
            !r ==> final(self).value() == old(self).value(),
            r == (k == Key::Char('-') || k == Key::Char('_') || k == Key::Char('+') || k
                == Key::Char('=') || k == Key::Char('[') || k == Key::ShiftLeft || k == Key::Char(
                ']',
            ) || k == Key::ShiftRight || k == Key::Char('r') || k == Key::Char('R')),
    {
        let ghost before = self.value();
        if k == Key::Char('-') || k == Key::Char('_') {
            self.turn(false, false);
        } else if k == Key::Char('+') || k == Key::Char('=') {
            self.turn(true, false);
        } else if k == Key::Char('[') || k == Key::ShiftLeft {
            self.turn(false, true);
        } else if k == Key::Char(']') || k == Key::ShiftRight {
            self.turn(true, true);
        } else if k == Key::Char('r') {
            self.undo();
        } else if k == Key::Char('R') {
            self.tuning.reset();
            self.sim.retuned = false;
            self.tell("whole table back to shipped defaults");
        } else {
            return false;
        }
        assert(self.value() =~= before.pressed(k).0);
        true
    }

    /// Begin the world anew on the live tables.
    fn begin(&mut self, w: &mut World, seed: u64, size: i32)
        requires
            old(self).value().wf(),
        ensures
            final(self).value() == old(self).value().pressed(Key::Char('z')).0,
            final(w)@ == restarted(old(self).tuning, seed, size),
    {
        let ghost before = self.value();
        *w = restart(&self.tuning, seed, size);
        self.sim.ticked = 0;
        self.sim.retuned = false;
        self.screen.history = empty_history();
        assert(self.screen.histories() =~= no_history());
        self.tell("restarted at tick 0 — this run is reproducible from these knobs");
        assert(self.value() =~= before.pressed(Key::Char('z')).0);
    }

    /// Do what a key asks for. A restart replaces the world.
    pub fn handle(&mut self, k: Key, w: &mut World, seed: u64, size: i32) -> (e: Effect)
        requires
            old(self).value().wf(),
        ensures
            (final(self).value(), e) == old(self).value().handled(k),
            final(self).value().wf(),
            final(w)@ == (if e == Effect::Restart {
                restarted(old(self).tuning, seed, size)
            } else {
                old(w)@
            }),
    {
        let ghost before = self.value();
        proof {
            law_keys_keep_the_console(before, k);
        }
        if k == Key::Char('q') || k == Key::Char('\x03') || k == Key::Esc {
            return Effect::Quit;
        }
        let mut e: Effect = Effect::Nothing;
        if k == Key::Char('z') {
            self.begin(w, seed, size);
            e = Effect::Restart;
        } else if k == Key::Char('T') {
            e = Effect::WriteTable;
        } else if !self.steer(k) && !self.drive(k) && !self.adjust(k) {
            assert(before.pressed(k) == (before, Effect::Nothing));
        }
        assert((self.value(), e) == before.pressed(k));
        self.screen.clamp();
        assert(self.value() =~= before.handled(k).0);
        e
    }
}

// ----------------------------------------------------------------------
// The commands that the console submits.
// ----------------------------------------------------------------------

/// How many bodies of one race may be spawned back in a frame of `ticks`
/// ticks.
pub open spec fn allowance(ticks: u64) -> int {
    if ticks / 20 < 1 {
        1
    } else if ticks / 20 > 24 {
        24
    } else {
        ticks as int / 20
    }
}

/// How many bodies of race `r` are spawned back.
pub open spec fn deficit(w: WorldV, restock: Seq<u32>, ticks: u64, r: Race) -> int {
    let d = restock[r.at()] - headcount(w.ents, r);
    if d < 0 {
        0
    } else if d > allowance(ticks) {
        allowance(ticks)
    } else {
        d
    }
}

/// The `k`-th birth of race `r`.
pub open spec fn birth(w: WorldV, seed: u64, r: Race, k: int) -> Command {
    let salt = (r.at() * 7919 + k) as u32;
    let n = spread(w.size.floor());
    Command {
        tick: w.tick,
        entity: 0,
        kind: CmdKind::Spawn {
            element: r.element,
            kind: r.kind,
            at: V2 {
                x: Fx::of_int(draw_below(seed, w.tick, salt, Channel::SpawnPlacement, n)),
                y: Fx::of_int(draw_below(seed, w.tick, salt ^ 0x5A5A, Channel::SpawnPlacement, n)),
            },
        },
    }
}

/// The first `n` births of race `r`.
pub open spec fn births_of(w: WorldV, seed: u64, r: Race, n: int) -> Seq<Command> {
    Seq::new(n as nat, |k: int| birth(w, seed, r, k))
}

/// The births of the first `n` races.
pub open spec fn births(w: WorldV, restock: Seq<u32>, seed: u64, ticks: u64, n: int) -> Seq<Command>
    decreases n,
{
    if n <= 0 {
        Seq::empty()
    } else {
        births(w, restock, seed, ticks, n - 1) + births_of(
            w,
            seed,
            race_at(n - 1),
            deficit(w, restock, ticks, race_at(n - 1)),
        )
    }
}

/// How many bodies are steered: `percent` of them per second.
pub open spec fn steer_count(n: int, percent: int, ticks: int) -> int {
    let s = n * percent * ticks / 100 / 100;
    if percent == 0 || n == 0 {
        0
    } else if s < 1 {
        1
    } else if s > n {
        n
    } else {
        s
    }
}

/// The `s`-th steering command of `count`, spread over the ticks.
pub open spec fn steering(w: WorldV, seed: u64, ticks: u64, s: int, count: int) -> Command {
    let n = w.ents.len() as u32;
    Command {
        tick: (w.tick + s * ticks / count) as u64,
        entity: w.ents[draw_below(seed, w.tick, s as u32, Channel::Wander, n)].id,
        kind: CmdKind::SetHeading {
            dir: V2 {
                x: draw_signed(seed, w.tick, (s + 1) as u32, Channel::Wander),
                y: draw_signed(seed, w.tick, (s + 2) as u32, Channel::Wander),
            },
        },
    }
}

/// The commands that the console submits for the next `ticks` ticks, in the
/// order that it thinks of them.
pub open spec fn submitted(w: WorldV, restock: Seq<u32>, percent: u32, seed: u64, ticks: u64) -> Seq<
    Command,
> {
    let count = steer_count(w.ents.len() as int, percent as int, ticks as int);
    births(w, restock, seed, ticks, 10) + Seq::new(
        count as nat,
        |s: int| steering(w, seed, ticks, s, count),
    )
}

proof fn lemma_steer_tick(s: int, ticks: int, count: int)
    requires
        0 <= s < count,
        1 <= ticks,
    ensures
        0 <= s * ticks / count < ticks,
        0 <= s * ticks <= count * ticks,
{
    assert(0 <= s * ticks <= count * ticks) by (nonlinear_arith)
        requires
            0 <= s < count,
            1 <= ticks,
    ;
    assert(0 <= s * ticks / count < ticks) by (nonlinear_arith)
        requires
            0 <= s < count,
            1 <= ticks,
    ;
}

/// Every command that the console submits is stamped for one of the ticks that
/// are about to run.
pub proof fn law_commands_are_for_the_next_ticks(
    w: WorldV,
    restock: Seq<u32>,
    percent: u32,
    seed: u64,
    ticks: u64,
)
    requires
        1 <= ticks,
        w.tick + ticks <= u64::MAX,
    ensures
        forall|i: int|
            0 <= i < submitted(w, restock, percent, seed, ticks).len() ==> w.tick <= (
            #[trigger] submitted(w, restock, percent, seed, ticks)[i]).tick < w.tick + ticks,
{
    let b = births(w, restock, seed, ticks, 10);
    let count = steer_count(w.ents.len() as int, percent as int, ticks as int);
    lemma_births_now(w, restock, seed, ticks, 10);
    let all = submitted(w, restock, percent, seed, ticks);
    assert forall|i: int| 0 <= i < all.len() implies w.tick <= (#[trigger] all[i]).tick < w.tick
        + ticks by {
        if i < b.len() {
            assert(all[i] == b[i]);
        } else {
            let s = i - b.len();
            assert(all[i] == steering(w, seed, ticks, s, count));
            lemma_steer_tick(s, ticks as int, count);
        }
    }
}

proof fn lemma_births_now(w: WorldV, restock: Seq<u32>, seed: u64, ticks: u64, n: int)
    ensures
        forall|i: int|
            0 <= i < births(w, restock, seed, ticks, n).len() ==> (#[trigger] births(
                w,
                restock,
                seed,
                ticks,
                n,
            )[i]).tick == w.tick,
    decreases n,
{
    if n > 0 {
        lemma_births_now(w, restock, seed, ticks, n - 1);
        let a = births(w, restock, seed, ticks, n - 1);
        let all = births(w, restock, seed, ticks, n);
        assert forall|i: int| 0 <= i < all.len() implies (#[trigger] all[i]).tick == w.tick by {
            if i < a.len() {
                assert(all[i] == a[i]);
            }
        }
    }
}

/// Append the births of one race.
fn push_births(log: &mut InputLog, w: &World, seed: u64, r: Race, many: u32)
    requires
        old(log).wf(),
        many <= 24,
    ensures
        final(log)@ == old(log)@ + births_of(w@, seed, r, many as int),
        final(log).wf(),
{
    let ghost before = log@;
    let f: i32 = w.size.floor_int();
    let n: u32 = if f < 1 {
        1
    } else {
        f as u32
    };
    proof {
        crate::race::law_race_positions(r, 0);
    }
    let mut k: u32 = 0;
    assert(log@ =~= before + births_of(w@, seed, r, 0));
    while k < many
        invariant
            k <= many <= 24,
            log.wf(),
            n == spread(w@.size.floor()),
            1 <= n <= i32::MAX,
            0 <= r.at() < 10,
            log@ == before + births_of(w@, seed, r, k as int),
        decreases many - k,
    {
        let salt: u32 = r.index() as u32 * 7919 + k;
        proof {
            law_draw_below_bound(seed, w.tick, salt, Channel::SpawnPlacement, n);
            law_draw_below_bound(seed, w.tick, salt ^ 0x5A5A, Channel::SpawnPlacement, n);
        }
        let x: u32 = rand_below(seed, w.tick, salt, Channel::SpawnPlacement, n);
        let y: u32 = rand_below(seed, w.tick, salt ^ 0x5A5A, Channel::SpawnPlacement, n);
        log.push(
            Command {
                tick: w.tick,
                entity: 0,
                kind: CmdKind::Spawn {
                    element: r.element,
                    kind: r.kind,
                    at: V2::new(Fx::from_int(x as i32), Fx::from_int(y as i32)),
                },
            },
        );
        k = k + 1;
        assert(log@ =~= before + births_of(w@, seed, r, k as int));
    }
}

/// The console's own commands for the next `ticks` ticks: bring each race back
/// up to what the tables keep up, and steer some bodies about.
pub fn inputs(w: &World, t: &Tuning, wander_pct: u32, seed: u64, ticks: u64) -> (log: InputLog)
    requires
        w.entities@.len() < u32::MAX - 1,
        w.entities@.len() * wander_pct * ticks <= u64::MAX,
        w.tick + ticks <= u64::MAX,
    ensures
        log@ == sorted(submitted(w@, t.restock@, wander_pct, seed, ticks)),
        log.ready(),
{
    let mut log: InputLog = InputLog::new();
    let pop: PerRace<u32> = population_by_race(w);
    let cap: u32 = if ticks / 20 < 1 {
        1
    } else if ticks / 20 > RESTOCK_MAX {
        RESTOCK_MAX as u32
    } else {
        (ticks / 20) as u32
    };
    let mut i: usize = 0;
    while i < 10
        invariant
            i <= 10,
            log.wf(),
            cap == allowance(ticks),
            forall|r: Race| #[trigger] pop@[r.at()] == headcount(w@.ents, r),
            log@ == births(w@, t.restock@, seed, ticks, i as int),
        decreases 10 - i,
    {
        let r: Race = Race::from_index(i);
        proof {
            crate::race::law_race_positions(r, i as int);
            assert(pop@[r.at()] == headcount(w@.ents, r));
        }
        let want: u32 = *t.restock.get(r);
        let have: u32 = *pop.get(r);
        let short: u32 = if want < have {
            0
        } else {
            want - have
        };
        let many: u32 = if short > cap {
            cap
        } else {
            short
        };
        push_births(&mut log, w, seed, r, many);
        i = i + 1;
    }
    let ghost before = log@;
    let ghost count = steer_count(w@.ents.len() as int, wander_pct as int, ticks as int);
    let n: u64 = w.entities.len() as u64;
    if wander_pct > 0 && n > 0 {
        proof {
            assert(0 <= n * wander_pct <= n * wander_pct * ticks || ticks == 0) by (nonlinear_arith)
                requires
                    0 <= n,
                    0 <= wander_pct,
                    0 <= ticks,
            ;
            assert(n * wander_pct <= u32::MAX * u32::MAX) by (nonlinear_arith)
                requires
                    0 <= n <= u32::MAX,
                    0 <= wander_pct <= u32::MAX,
            ;
            assert(n * ticks <= n * wander_pct * ticks) by (nonlinear_arith)
                requires
                    0 <= n,
                    1 <= wander_pct,
                    0 <= ticks,
            ;
        }
        let share: u64 = n * wander_pct as u64 * ticks / 100 / 100;
        let steers: u64 = if share < 1 {
            1
        } else if share > n {
            n
        } else {
            share
        };
        let mut s: u64 = 0;
        assert(log@ =~= before + Seq::new(
            0,
            |s: int| steering(w@, seed, ticks, s, count),
        ));
        while s < steers
            invariant
                s <= steers <= n,
                steers == count,
                1 <= count,
                n == w@.ents.len(),
                n == w.entities@.len(),
                1 <= n < u32::MAX - 1,
                n * ticks <= u64::MAX,
                w.tick + ticks <= u64::MAX,
                log.wf(),
                log@ == before + Seq::new(
                    s as nat,
                    |s: int| steering(w@, seed, ticks, s, count),
                ),
            decreases steers - s,
        {
            proof {
                law_draw_below_bound(seed, w.tick, s as u32, Channel::Wander, n as u32);
                if ticks >= 1 {
                    lemma_steer_tick(s as int, ticks as int, count);
                } else {
                    assert(s * 0 == 0) by (nonlinear_arith);
                }
                assert(s * ticks <= n * ticks) by (nonlinear_arith)
                    requires
                        0 <= s <= n,
                        0 <= ticks,
                ;
            }
            let at: usize = rand_below(seed, w.tick, s as u32, Channel::Wander, n as u32) as usize;
            assert(w@.ents[at as int] == w.entities@[at as int]@);
            log.push(
                Command {
                    tick: w.tick + s * ticks / steers,
                    entity: w.entities[at].id,
                    kind: CmdKind::SetHeading {
                        dir: V2::new(
                            rand_signed(seed, w.tick, s as u32 + 1, Channel::Wander),
                            rand_signed(seed, w.tick, s as u32 + 2, Channel::Wander),
                        ),
                    },
                },
            );
            s = s + 1;
            assert(log@ =~= before + Seq::new(
                s as nat,
                |s: int| steering(w@, seed, ticks, s, count),
            ));
        }
    }
    assert(log@ =~= submitted(w@, t.restock@, wander_pct, seed, ticks));
    log.finalize();
    log
}

} // verus!
