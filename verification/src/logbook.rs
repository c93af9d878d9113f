//! How commands are ordered, written down, read and made up.
use crate::console::{Args, Flag};
use crate::hash::{le16, le32, le64};
use crate::input::{command_bytes, commands_bytes, log_bytes, read_log, CmdKind, Command, LogError};
use crate::lettering::{is_decimal, worth};
use crate::numeral::{is_digit, is_space, signed_in, turn, unsigned_in, value};
use crate::order::{law_sorted_is_a_sorted_permutation, sorted, Keyed};
use crate::race::Kind;
use crate::rand::{draw, law_draw_below_bound, Channel};
use crate::replay::{script, scripted};
use crate::term::dimensions;
use crate::tuning::kept;
use vstd::prelude::*;

verus! {

/// A finalized log goes by tick; within a tick by entity; and for one entity a
/// heading comes before a birth, that before a death, and then the deeds.
pub proof fn law_a_log_goes_by_tick_then_entity(s: Seq<Command>, i: int, j: int)
    requires
        0 <= i < j < sorted(s).len(),
    ensures
        ({
            let (a, b) = (sorted(s)[i], sorted(s)[j]);
            &&& a.tick <= b.tick
            &&& a.tick == b.tick ==> a.entity <= b.entity
            &&& a.tick == b.tick && a.entity == b.entity ==> {
                &&& b.kind is SetHeading ==> a.kind is SetHeading
                &&& b.kind is Spawn ==> a.kind is SetHeading || a.kind is Spawn
                &&& b.kind is Kill ==> a.kind is SetHeading || a.kind is Spawn || a.kind is Kill
                &&& a.kind is Pickup ==> b.kind is Pickup
            }
        }),
{
    law_sorted_is_a_sorted_permutation(s);
    let (a, b) = (sorted(s)[i], sorted(s)[j]);
    assert(a.key() <= b.key());
    lemma_rank(a.kind);
    lemma_rank(b.kind);
    assert(a.stamp() <= b.stamp());
}

proof fn lemma_rank(k: CmdKind)
    ensures
        0 <= k.rank() < crate::input::RANK_LIMIT,
{
}

/// Numbers are written with their lowest byte first.
pub proof fn law_numbers_are_written_lowest_byte_first(a: u16, b: u32, c: u64)
    ensures
        le16(a).len() == 2,
        le16(a)[0] + 256 * le16(a)[1] == a,
        le32(b).len() == 4,
        le32(b)[0] + 256 * le32(b)[1] + 65536 * le32(b)[2] + 16777216 * le32(b)[3] == b,
        le64(c).len() == 8,
        le64(c).take(4) == le32((c % 0x1_0000_0000) as u32),
        le64(c).skip(4) == le32((c / 0x1_0000_0000) as u32),
{
    assert(le64(c).take(4) =~= le32((c % 0x1_0000_0000) as u32));
    assert(le64(c).skip(4) =~= le32((c / 0x1_0000_0000) as u32));
}

/// How many bytes a command takes behind its tag.
pub open spec fn payload_size(k: CmdKind) -> int {
    match k {
        CmdKind::SetHeading { .. } => 8,
        CmdKind::Spawn { .. } => 10,
        CmdKind::Kill => 0,
        CmdKind::MakeItem { .. } => 9,
        CmdKind::BreakItem { .. } => 4,
        _ => 1,
    }
}

/// The bytes of the first `k` commands.
pub open spec fn size_of(s: Seq<Command>, k: int) -> int
    decreases k,
{
    if k <= 0 {
        0
    } else {
        size_of(s, k - 1) + 13 + payload_size(s[k - 1].kind)
    }
}

/// A log is written as the letters `LIGP`, the version, the number of commands, and
/// then the commands one behind another, each with its tick, its entity and its
/// tag in front.
pub proof fn law_a_log_is_laid_out(s: Seq<Command>, k: int)
    requires
        0 <= k < s.len() <= u64::MAX,
    ensures
        ({
            let b = log_bytes(s);
            let at = 16 + size_of(s, k);
            let c = s[k];
            &&& b[0] == 0x4c && b[1] == 0x49 && b[2] == 0x47 && b[3] == 0x50
            &&& b[4] == 3 && b[5] == 0 && b[6] == 0 && b[7] == 0
            &&& b.subrange(8, 16) == le64(s.len() as u64)
            &&& b.len() == 16 + size_of(s, s.len() as int)
            &&& at + 13 + payload_size(c.kind) <= b.len()
            &&& b.subrange(at, at + 8) == le64(c.tick)
            &&& b.subrange(at + 8, at + 12) == le32(c.entity)
            &&& b[at + 12] == c.kind.spec_tag()
        }),
{
    let (x, m) = (heading(s), commands_bytes(s));
    let c = s[k];
    let (i, j) = (size_of(s, k), size_of(s, k + 1));
    lemma_heading(s);
    lemma_front(c);
    lemma_command_len(c);
    lemma_commands(s, k);
    lemma_commands_len(s);
    lemma_joined(x, m, i, j);
    lemma_inside(x + m, 0, 16, 8, 16);
    lemma_inside(x + m, 0, 16, 0, 8);
    lemma_inside(x + m, 16 + i, 16 + j, 0, 8);
    lemma_inside(x + m, 16 + i, 16 + j, 8, 12);
    assert((x + m).subrange(16 + i, 16 + j)[12] == command_bytes(c)[12]);
    let first = x.subrange(0, 8);
    assert((x + m).subrange(0, 8) == first);
    assert((x + m)[0] == first[0] && (x + m)[1] == first[1] && (x + m)[2] == first[2]);
    assert((x + m)[3] == first[3] && (x + m)[4] == first[4] && (x + m)[5] == first[5]);
    assert((x + m)[6] == first[6] && (x + m)[7] == first[7]);
}

/// What stands in front of the commands.
spec fn heading(s: Seq<Command>) -> Seq<u8> {
    le32(crate::input::MAGIC) + le32(crate::input::VERSION) + le64(s.len() as u64)
}

proof fn lemma_heading(s: Seq<Command>)
    ensures
        log_bytes(s) == heading(s) + commands_bytes(s),
        heading(s).len() == 16,
        heading(s).subrange(8, 16) == le64(s.len() as u64),
        heading(s).subrange(0, 8) == seq![0x4cu8, 0x49, 0x47, 0x50, 3, 0, 0, 0],
{
    let (a, b) = (le32(crate::input::MAGIC), le32(crate::input::VERSION));
    let n = le64(s.len() as u64);
    assert(a =~= seq![0x4cu8, 0x49, 0x47, 0x50]);
    assert(b =~= seq![3u8, 0, 0, 0]);
    assert(a + b =~= seq![0x4cu8, 0x49, 0x47, 0x50, 3, 0, 0, 0]);
    assert(n.len() == 8);
    lemma_joined(a + b, n, 0, 8);
    assert(n.subrange(0, 8) =~= n);
}

proof fn lemma_front(c: Command)
    ensures
        command_bytes(c).len() >= 13,
        command_bytes(c).subrange(0, 8) == le64(c.tick),
        command_bytes(c).subrange(8, 12) == le32(c.entity),
        command_bytes(c)[12] == c.kind.spec_tag(),
{
    assert(command_bytes(c).subrange(0, 8) =~= le64(c.tick));
    assert(command_bytes(c).subrange(8, 12) =~= le32(c.entity));
}

proof fn lemma_inside<A>(x: Seq<A>, i: int, j: int, a: int, b: int)
    requires
        0 <= i <= j <= x.len(),
        0 <= a <= b <= j - i,
    ensures
        x.subrange(i, j).subrange(a, b) == x.subrange(i + a, i + b),
{
    assert(x.subrange(i, j).subrange(a, b) =~= x.subrange(i + a, i + b));
}

proof fn lemma_size(s: Seq<Command>, k: int, n: int)
    requires
        0 <= k <= n,
    ensures
        0 <= size_of(s, k) <= size_of(s, n),
    decreases n,
{
    if k < n {
        lemma_size(s, k, n - 1);
    } else if k > 0 {
        lemma_size(s, k - 1, k - 1);
    }
}

proof fn lemma_command_len(c: Command)
    ensures
        command_bytes(c).len() == 13 + payload_size(c.kind),
{
}

/// Sizes of a log and of the same without its first command.
proof fn lemma_size_skip(s: Seq<Command>, k: int)
    requires
        1 <= k <= s.len(),
    ensures
        size_of(s, k) == 13 + payload_size(s[0].kind) + size_of(s.skip(1), k - 1),
    decreases k,
{
    if k > 1 {
        lemma_size_skip(s, k - 1);
        assert(s.skip(1)[k - 2] == s[k - 1]);
    } else {
        assert(size_of(s, 0) == 0);
        assert(size_of(s.skip(1), 0) == 0);
    }
}

proof fn lemma_commands_len(s: Seq<Command>)
    ensures
        commands_bytes(s).len() == size_of(s, s.len() as int),
    decreases s.len(),
{
    if s.len() > 0 {
        lemma_command_len(s[0]);
        lemma_size_skip(s, s.len() as int);
        lemma_commands_len(s.skip(1));
    }
}

proof fn lemma_joined<A>(x: Seq<A>, y: Seq<A>, i: int, j: int)
    requires
        0 <= i <= j <= y.len(),
    ensures
        (x + y).subrange(x.len() + i, x.len() + j) == y.subrange(i, j),
        (x + y).subrange(0, x.len() as int) == x,
{
    assert((x + y).subrange(x.len() + i, x.len() + j) =~= y.subrange(i, j));
    assert((x + y).subrange(0, x.len() as int) =~= x);
}

proof fn lemma_commands(s: Seq<Command>, k: int)
    requires
        0 <= k < s.len(),
    ensures
        0 <= size_of(s, k) <= size_of(s, k + 1) <= commands_bytes(s).len(),
        size_of(s, k + 1) == size_of(s, k) + command_bytes(s[k]).len(),
        commands_bytes(s).subrange(size_of(s, k), size_of(s, k + 1)) == command_bytes(s[k]),
    decreases s.len(),
{
    let (c, t) = (s[0], s.skip(1));
    lemma_command_len(c);
    lemma_command_len(s[k]);
    lemma_commands_len(s);
    lemma_size(s, 0, k);
    lemma_size(s, k, k + 1);
    lemma_size(s, k + 1, s.len() as int);
    let (x, y) = (command_bytes(c), commands_bytes(t));
    if k > 0 {
        lemma_commands(t, k - 1);
        lemma_size_skip(s, k);
        lemma_size_skip(s, k + 1);
        assert(t[k - 1] == s[k]);
        lemma_joined(x, y, size_of(t, k - 1), size_of(t, k));
    } else {
        assert(size_of(s, 0) == 0);
        lemma_joined(x, y, 0, 0);
    }
}

/// Bytes that do not begin with the letters are no log; nor are those of a version
/// below one or above the one that is written.
pub proof fn law_other_bytes_are_refused(b: Seq<u8>)
    requires
        b.len() >= 8,
    ensures
        ({
            let named = b[0] == 0x4c && b[1] == 0x49 && b[2] == 0x47 && b[3] == 0x50;
            let version = b[4] + 256 * b[5] + 65536 * b[6] + 16777216 * b[7];
            &&& read_log(b) == Err::<Seq<Command>, LogError>(LogError::BadMagic) <==> !named
            &&& named && !(1 <= version <= 3) ==> read_log(b) == Err::<Seq<Command>, LogError>(
                LogError::BadVersion(version as u32),
            )
        }),
{
    let named = b[0] == 0x4c && b[1] == 0x49 && b[2] == 0x47 && b[3] == 0x50;
    if named && b.len() >= 16 {
        lemma_not_magic(b, crate::input::u32_at(b, 4), 16, crate::input::u64_at(b, 8) as int);
    }
}

proof fn lemma_not_magic(b: Seq<u8>, v: u32, at: int, n: int)
    ensures
        crate::input::read_commands(b, v, at, n) != Err::<Seq<Command>, LogError>(
            LogError::BadMagic,
        ),
    decreases n,
{
    reveal(crate::input::read_command);
    reveal(crate::input::read_payload);
    if n > 0 {
        match crate::input::read_command(b, v, at) {
            Ok((c, next)) => lemma_not_magic(b, v, next, n - 1),
            Err(e) => {},
        }
    }
}

/// Digits alone are the number that they come to, if it is not too large; with a
/// minus sign they are that number below zero; and anything else is no number.
pub proof fn law_a_text_of_digits_is_a_number(s: Seq<char>)
    requires
        s.len() > 0,
    ensures
        is_decimal(s) && worth(s, 10) <= i64::MAX ==> signed_in(s) == Some(worth(s, 10) as i64),
        is_decimal(s) && worth(s, 10) <= usize::MAX ==> unsigned_in(s) == Some(
            worth(s, 10) as usize,
        ),
        is_decimal(s) && 0 < worth(s, 10) <= i64::MAX ==> signed_in(seq!['-'] + s) == Some(
            (-worth(s, 10)) as i64,
        ),
        unsigned_in(seq!['-'] + s) is None,
        !is_decimal(s) && s[0] != '-' && s[0] != '+' ==> signed_in(s) is None && unsigned_in(s) is None,
{
    if is_decimal(s) {
        lemma_worth(s);
        assert('0' <= s[0]);
        assert forall|i: int| 0 <= i < s.len() implies is_digit(#[trigger] s[i]) by {}
        assert((seq!['-'] + s).skip(1) =~= s);
    } else {
        let i = choose|i: int| 0 <= i < s.len() && !('0' <= #[trigger] s[i] && s[i] <= '9');
        assert(!is_digit(s[i]));
    }
}

proof fn lemma_worth(s: Seq<char>)
    requires
        is_decimal(s),
    ensures
        value(s) == worth(s, 10),
        0 <= worth(s, 10),
    decreases s.len(),
{
    if s.len() > 0 {
        let p = s.drop_last();
        assert forall|i: int| 0 <= i < p.len() implies '0' <= #[trigger] p[i] && p[i] <= '9' by {
            assert(p[i] == s[i]);
        }
        lemma_worth(p);
        assert('0' <= s[s.len() - 1]);
    }
}

/// An option sets the one thing that it names, kept within its limits; without a
/// number it is back at what it starts with.
pub proof fn law_an_option_sets_what_it_names(a: Args, n: i64)
    ensures
        a.with(Flag::Size, Some(n)) == (Args { size: kept(n as int, 16, 4096) as i32, ..a }),
        a.with(Flag::Pop, Some(n)) == (Args { pop: kept(n as int, 0, 250) as u32, ..a }),
        a.with(Flag::Speed, Some(n)) == (Args { speed: kept(n as int, 1, 200_000) as u64, ..a }),
        a.with(Flag::Rows, Some(n)) == (Args { rows: Some(kept(n as int, 20, 200) as usize), ..a }),
        a.with(Flag::Cols, Some(n)) == (Args { cols: Some(kept(n as int, 60, 400) as usize), ..a }),
        n >= 0 ==> a.with(Flag::Seed, Some(n)) == (Args { seed: n as u64, ..a }),
        a.with(Flag::Size, None) == (Args { size: Args::start().size, ..a }),
        a.with(Flag::Pop, None) == (Args { pop: Args::start().pop, ..a }),
        a.with(Flag::Speed, None) == (Args { speed: Args::start().speed, ..a }),
        a.with(Flag::Seed, None) == (Args { seed: Args::start().seed, ..a }),
        a.with(Flag::Rows, None) == (Args { rows: Args::start().rows, ..a }),
        a.with(Flag::Cols, None) == (Args { cols: Args::start().cols, ..a }),
{
}

/// An answer of two numbers with a blank between is those rows and those columns.
pub proof fn law_an_answer_gives_rows_then_columns(a: Seq<char>, b: Seq<char>)
    requires
        a.len() > 0,
        b.len() > 0,
        is_decimal(a),
        is_decimal(b),
        worth(a, 10) <= usize::MAX,
        worth(b, 10) <= usize::MAX,
    ensures
        dimensions(a + seq![' '] + b) == Some((worth(a, 10) as usize, worth(b, 10) as usize)),
{
    let s = a + seq![' '] + b;
    let n = a.len() as int;
    assert forall|i: int| 0 <= i < s.len() && i != n implies !is_space(#[trigger] s[i]) by {
        if i < n {
            assert(s[i] == a[i]);
        } else {
            assert(s[i] == b[i - n - 1]);
        }
    }
    assert(is_space(s[n]));
    lemma_turn(s, 0, true, n);
    lemma_turn(s, n, false, n + 1);
    lemma_turn(s, n + 1, true, s.len() as int);
    assert(s.subrange(0, n) =~= a);
    assert(s.subrange(n + 1, s.len() as int) =~= b);
    law_a_text_of_digits_is_a_number(a);
    law_a_text_of_digits_is_a_number(b);
}

proof fn lemma_turn(s: Seq<char>, i: int, at_space: bool, j: int)
    requires
        0 <= i <= j <= s.len(),
        forall|k: int| i <= k < j ==> is_space(#[trigger] s[k]) != at_space,
        j < s.len() ==> is_space(s[j]) == at_space,
    ensures
        turn(s, i, at_space) == j,
    decreases j - i,
{
    if i < j {
        lemma_turn(s, i + 1, at_space, j);
    }
}

/// The command is one that a script gives: a heading or a death for an id that
/// lives, or an animal's birth on a whole cell of a square of sixty.
pub open spec fn is_scripted(c: Command, live: u32) -> bool {
    match c.kind {
        CmdKind::SetHeading { .. } => 1 <= c.entity <= live,
        CmdKind::Kill => 1 <= c.entity <= live,
        CmdKind::Spawn { kind, at, .. } => kind == Kind::Animal && 0 <= at.x.0 <= 59 * 65536 && 0
            <= at.y.0 <= 59 * 65536 && at.x.0 as int % 65536 == 0 && at.y.0 as int % 65536 == 0,
        _ => false,
    }
}

/// What a script gives is for its own ticks, in order, and for nobody else than it
/// says.
pub proof fn law_a_script_keeps_to_its_run(seed: u64, n: int, live: u32, i: int)
    requires
        0 <= n <= u64::MAX,
        1 <= live < u32::MAX,
        0 <= i < scripted(seed, n, live).len(),
    ensures
        scripted(seed, n, live)[i].tick < n,
        i > 0 ==> scripted(seed, n, live)[i - 1].tick <= scripted(seed, n, live)[i].tick,
        is_scripted(scripted(seed, n, live)[i], live),
    decreases n,
{
    if n > 0 {
        let a = scripted(seed, n - 1, live);
        let b = script(seed, (n - 1) as u64, live);
        lemma_script(seed, (n - 1) as u64, live);
        if i < a.len() {
            law_a_script_keeps_to_its_run(seed, n - 1, live, i);
        } else {
            assert((a + b)[i] == b[i - a.len()]);
            if i > a.len() {
                assert((a + b)[i - 1] == b[i - 1 - a.len()]);
            } else if i > 0 {
                law_a_script_keeps_to_its_run(seed, n - 1, live, i - 1);
            }
        }
    }
}

proof fn lemma_script(seed: u64, t: u64, live: u32)
    requires
        1 <= live < u32::MAX,
    ensures
        forall|k: int|
            0 <= k < script(seed, t, live).len() ==> (#[trigger] script(seed, t, live)[k]).tick == t
                && is_scripted(script(seed, t, live)[k], live),
{
    law_draw_below_bound(seed, t, 1, Channel::Wander, live);
    law_draw_below_bound(seed, t, 9, Channel::Crit, live);
    law_draw_below_bound(seed, t, 6, Channel::SpawnPlacement, 60);
    law_draw_below_bound(seed, t, 7, Channel::SpawnPlacement, 60);
}

/// A script steers at a third of its ticks, by the draws, gives birth at a fortieth
/// and death at a ninetieth; at each tick at most one of either.
pub proof fn law_a_script_goes_by_its_draws(seed: u64, t: u64, live: u32)
    ensures
        ({
            let s = script(seed, t, live);
            let steers = draw(seed, t, 0, Channel::Wander) * 3 < 0x1_0000_0000;
            let bears = draw(seed, t, 4, Channel::SpawnPlacement) * 40 < 0x1_0000_0000;
            let kills = draw(seed, t, 8, Channel::Crit) * 90 < 0x1_0000_0000;
            let one = |b: bool|
                if b {
                    1int
                } else {
                    0int
                };
            &&& s.len() == one(steers) + one(bears) + one(kills)
            &&& forall|i: int| 0 <= i < s.len() ==> (#[trigger] s[i]).tick == t
            &&& steers ==> s[0].kind is SetHeading
            &&& bears ==> s[one(steers)].kind is Spawn
            &&& kills ==> s[one(steers) + one(bears)].kind is Kill
        }),
{
    law_draw_below_bound(seed, t, 0, Channel::Wander, 3);
    law_draw_below_bound(seed, t, 4, Channel::SpawnPlacement, 40);
    law_draw_below_bound(seed, t, 8, Channel::Crit, 90);
}

} // verus!
