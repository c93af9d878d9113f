//! The input log: the canonical record of a run.
//!
//! Every tick is reproducible from the world seed and the log alone, so the
//! log is what travels between processes. Commands are held in one total
//! order, by tick, then entity, then command, then what the command says, so
//! that the same commands in another order of arrival apply alike; and a log
//! survives the trip through bytes.
use crate::element::{element_at, Element};
use crate::fx::{Fx, V2};
use crate::hash::{le32, le64};
use crate::order::{is_sorted, law_sorted_is_a_sorted_permutation, law_sorting_is_idempotent, sort, sorted, Keyed};
use crate::race::Kind;
use vstd::prelude::*;
use vstd::slice::slice_subrange;

verus! {

/// The letters `PGIL`, most significant first.
pub const MAGIC: u32 = 0x5047_494C;

/// The layout that is written. A log of version 1 has no kind byte in a
/// `Spawn` and is read as if each were an animal's; versions 2 and 3 lay out
/// alike what both can hold. None of them has a tag for a `Pickup`.
pub const VERSION: u32 = 3;

/// The tag of a `Pickup`, which is past those that a reader takes.
pub const PICKUP_TAG: u8 = 7;

#[derive(Clone, Copy, PartialEq, Eq, Debug, Structural)]
pub enum CmdKind {
    /// Steer. The vector is normalised when applied.
    SetHeading { dir: V2 },
    Spawn { element: Element, kind: Kind, at: V2 },
    Kill,
    /// Draw from the terrain into carried stock.
    Mine { element: Element },
    /// Convert carried stock along the ring.
    Smelt { element: Element },
    /// Bundle carried stock into an item.
    MakeItem { element: Element, quantity: u64 },
    /// Return an item to the terrain.
    BreakItem { index: u32 },
    /// Gather from the ground. The byte format has no place for it: a log that
    /// holds one is refused where it is read back.
    Pickup { element: Element },
}

impl CmdKind {
    pub open spec fn spec_tag(self) -> u8 {
        match self {
            CmdKind::SetHeading { .. } => 0,
            CmdKind::Spawn { .. } => 1,
            CmdKind::Kill => 2,
            CmdKind::Mine { .. } => 3,
            CmdKind::Smelt { .. } => 4,
            CmdKind::MakeItem { .. } => 5,
            CmdKind::BreakItem { .. } => 6,
            CmdKind::Pickup { .. } => PICKUP_TAG,
        }
    }

    pub fn tag(&self) -> (r: u8)
        ensures
            r == self.spec_tag(),
    {
        match self {
            CmdKind::SetHeading { .. } => 0,
            CmdKind::Spawn { .. } => 1,
            CmdKind::Kill => 2,
            CmdKind::Mine { .. } => 3,
            CmdKind::Smelt { .. } => 4,
            CmdKind::MakeItem { .. } => 5,
            CmdKind::BreakItem { .. } => 6,
            CmdKind::Pickup { .. } => PICKUP_TAG,
        }
    }
}

#[derive(Clone, Copy, PartialEq, Eq, Debug, Structural)]
pub struct Command {
    pub tick: u64,
    pub entity: u32,
    pub kind: CmdKind,
}

impl Command {
    pub fn order_key(&self) -> (r: (u64, u32, u8))
        ensures
            r == (self.tick, self.entity, self.kind.spec_tag()),
    {
        (self.tick, self.entity, self.kind.tag())
    }
}

/// A vector as one number.
pub open spec fn vector_rank(v: V2) -> int {
    (v.x.0 + 0x8000_0000) * 0x1_0000_0000 + (v.y.0 + 0x8000_0000)
}

impl CmdKind {
    /// What a command says beyond its tag, as one number below
    /// [`RANK_LIMIT`].
    pub open spec fn rank(self) -> int {
        match self {
            CmdKind::SetHeading { dir } => vector_rank(dir),
            CmdKind::Spawn { element, kind, at } => (element.at() * 2 + kind.at())
                * 0x1_0000_0000_0000_0000 + vector_rank(at),
            CmdKind::Kill => 0,
            CmdKind::Mine { element } => element.at(),
            CmdKind::Smelt { element } => element.at(),
            CmdKind::MakeItem { element, quantity } => element.at() * 0x1_0000_0000_0000_0000
                + quantity,
            CmdKind::BreakItem { index } => index as int,
            CmdKind::Pickup { element } => element.at(),
        }
    }

    fn payload_rank(&self) -> (r: u128)
        ensures
            r == self.rank(),
    {
        match self {
            CmdKind::SetHeading { dir } => rank_vector(*dir),
            CmdKind::Spawn { element, kind, at } => (element.index() * 2 + kind.index()) as u128
                * 0x1_0000_0000_0000_0000 + rank_vector(*at),
            CmdKind::Kill => 0,
            CmdKind::Mine { element } => element.index() as u128,
            CmdKind::Smelt { element } => element.index() as u128,
            CmdKind::MakeItem { element, quantity } => element.index() as u128
                * 0x1_0000_0000_0000_0000 + *quantity as u128,
            CmdKind::BreakItem { index } => *index as u128,
            CmdKind::Pickup { element } => element.index() as u128,
        }
    }
}

fn rank_vector(v: V2) -> (r: u128)
    ensures
        r == vector_rank(v),
        r < 0x1_0000_0000_0000_0000,
{
    let x: u128 = (v.x.0 as i64 + 0x8000_0000) as u128;
    let y: u128 = (v.y.0 as i64 + 0x8000_0000) as u128;
    x * 0x1_0000_0000 + y
}

/// Above every rank.
pub const RANK_LIMIT: u128 = 0x10_0000_0000_0000_0000;

proof fn lemma_rank(k: CmdKind)
    ensures
        0 <= k.rank() < RANK_LIMIT,
{
}

impl Command {
    /// Tick, entity and tag as one number, most significant first.
    pub open spec fn stamp(self) -> int {
        self.tick * 0x100_0000_0000 + self.entity * 0x100 + self.kind.spec_tag()
    }
}

impl Keyed for Command {
    /// Tick, entity, tag, and then what the command says, most significant
    /// first.
    open spec fn key(&self) -> int {
        self.stamp() * RANK_LIMIT + self.kind.rank()
    }

    fn after(&self, other: &Command) -> (r: bool) {
        let (t, e, k): (u64, u32, u8) = self.order_key();
        let (t2, e2, k2): (u64, u32, u8) = other.order_key();
        let p: u128 = self.kind.payload_rank();
        let p2: u128 = other.kind.payload_rank();
        proof {
            lemma_rank(self.kind);
            lemma_rank(other.kind);
        }
        t > t2 || (t == t2 && (e > e2 || (e == e2 && (k > k2 || (k == k2 && p > p2)))))
    }
}

/// A command is known by its key: no two that differ share one.
pub proof fn law_a_key_names_its_command(a: Command, b: Command)
    ensures
        a.key() == b.key() <==> a == b,
{
    if a.key() == b.key() {
        lemma_rank(a.kind);
        lemma_rank(b.kind);
        assert(a.stamp() == b.stamp());
        assert(a.tick == b.tick && a.entity == b.entity && a.kind.spec_tag() == b.kind.spec_tag());
        assert(a.kind.rank() == b.kind.rank());
        lemma_same_rank(a.kind, b.kind);
    }
}

proof fn lemma_same_vector(v: V2, u: V2)
    requires
        vector_rank(v) == vector_rank(u),
    ensures
        v == u,
{
    assert(v.x.0 == u.x.0 && v.y.0 == u.y.0);
}

proof fn lemma_same_rank(a: CmdKind, b: CmdKind)
    requires
        a.spec_tag() == b.spec_tag(),
        a.rank() == b.rank(),
    ensures
        a == b,
{
    match (a, b) {
        (CmdKind::SetHeading { dir: v }, CmdKind::SetHeading { dir: u }) => {
            lemma_same_vector(v, u);
        },
        (CmdKind::Spawn { element, kind, at: v }, CmdKind::Spawn { element: e2, kind: k2, at: u }) => {
            assert(0 <= vector_rank(v) < 0x1_0000_0000_0000_0000);
            assert(0 <= vector_rank(u) < 0x1_0000_0000_0000_0000);
            assert(vector_rank(v) == vector_rank(u));
            assert(element.at() == e2.at() && kind.at() == k2.at());
            lemma_same_vector(v, u);
        },
        _ => {},
    }
}

#[derive(Clone, Debug, PartialEq, Eq)]
pub struct InputLog {
    pub cmds: Vec<Command>,
    /// Whether the order has been imposed since the last push.
    pub sorted: bool,
}

impl Default for InputLog {
    fn default() -> (r: InputLog)
        ensures
            r@ == Seq::<Command>::empty(),
            r.wf(),
            !r.sorted,
    {
        InputLog { cmds: Vec::new(), sorted: false }
    }
}

impl View for InputLog {
    type V = Seq<Command>;

    open spec fn view(&self) -> Seq<Command> {
        self.cmds@
    }
}

/// The commands of `s` stamped for `tick`, in the order they have.
pub open spec fn stamped(s: Seq<Command>, tick: u64) -> Seq<Command> {
    s.filter(|c: Command| c.tick == tick)
}

impl InputLog {
    /// A log that says it is in order is.
    pub open spec fn wf(self) -> bool {
        self.sorted ==> is_sorted(self.cmds@)
    }

    /// The log can be read: its order has been imposed.
    pub open spec fn ready(self) -> bool {
        self.wf() && self.sorted
    }

    pub fn new() -> (r: InputLog)
        ensures
            r@ == Seq::<Command>::empty(),
            r.ready(),
    {
        InputLog { cmds: Vec::new(), sorted: true }
    }

    pub fn push(&mut self, c: Command)
        ensures
            final(self)@ == old(self)@.push(c),
            !final(self).sorted,
            final(self).wf(),
    {
        self.cmds.push(c);
        self.sorted = false;
    }

    pub fn len(&self) -> (r: usize)
        ensures
            r == self@.len(),
    {
        self.cmds.len()
    }

    pub fn is_empty(&self) -> (r: bool)
        ensures
            r == (self@.len() == 0),
    {
        self.cmds.len() == 0
    }

    /// Impose the order: by tick, entity and command, and among commands of
    /// one tag by what they say. Only equal commands share a place, so the
    /// order of arrival leaves no trace.
    pub fn finalize(&mut self)
        requires
            old(self).wf(),
        ensures
            final(self)@ == sorted(old(self)@),
            final(self).ready(),
    {
        proof {
            law_sorted_is_a_sorted_permutation(self@);
            law_sorting_is_idempotent(self@);
        }
        if !self.sorted {
            self.cmds = sort(&self.cmds);
            self.sorted = true;
        }
    }

    pub fn as_slice(&self) -> (r: &[Command])
        requires
            self.ready(),
        ensures
            r@ == self@,
    {
        self.cmds.as_slice()
    }

    /// How many commands are stamped before `tick`, or up to it.
    fn split(&self, tick: u64, through: bool) -> (r: usize)
        requires
            self.ready(),
        ensures
            r <= self@.len(),
            forall|i: int|
                0 <= i < r ==> (#[trigger] self@[i]).tick < tick || (through && self@[i].tick
                    == tick),
            forall|i: int|
                r <= i < self@.len() ==> (#[trigger] self@[i]).tick > tick || (!through
                    && self@[i].tick == tick),
    {
        let mut lo: usize = 0;
        let mut hi: usize = self.cmds.len();
        while lo < hi
            invariant
                self.ready(),
                lo <= hi <= self@.len(),
                forall|i: int|
                    0 <= i < lo ==> (#[trigger] self@[i]).tick < tick || (through && self@[i].tick
                        == tick),
                forall|i: int|
                    hi <= i < self@.len() ==> (#[trigger] self@[i]).tick > tick || (!through
                        && self@[i].tick == tick),
            decreases hi - lo,
        {
            let mid: usize = lo + (hi - lo) / 2;
            let t: u64 = self.cmds[mid].tick;
            if t < tick || (through && t == tick) {
                assert forall|i: int| 0 <= i < mid + 1 implies (#[trigger] self@[i]).tick < tick || (
                through && self@[i].tick == tick) by {
                    assert(self@[i].key() <= self@[mid as int].key());
                    lemma_rank(self@[i].kind);
                    lemma_rank(self@[mid as int].kind);
                }
                lo = mid + 1;
            } else {
                assert forall|i: int| mid <= i < self@.len() implies (#[trigger] self@[i]).tick
                    > tick || (!through && self@[i].tick == tick) by {
                    assert(self@[mid as int].key() <= self@[i].key());
                    lemma_rank(self@[i].kind);
                    lemma_rank(self@[mid as int].kind);
                }
                hi = mid;
            }
        }
        lo
    }

    /// All commands stamped for `tick`, in order.
    pub fn at(&self, tick: u64) -> (r: &[Command])
        requires
            self.ready(),
        ensures
            r@ == stamped(self@, tick),
    {
        let lo: usize = self.split(tick, false);
        let hi: usize = self.split(tick, true);
        proof {
            if hi < lo {
                assert(self@[hi as int].tick < tick);
            }
            lemma_stamped(self@, tick, lo as int, hi as int);
        }
        slice_subrange(self.cmds.as_slice(), lo, hi)
    }

    pub fn last_tick(&self) -> (r: u64)
        ensures
            r == (if self@.len() == 0 {
                0
            } else {
                self@.last().tick
            }),
    {
        if self.cmds.len() == 0 {
            0
        } else {
            self.cmds[self.cmds.len() - 1].tick
        }
    }
}

proof fn lemma_stamped(s: Seq<Command>, tick: u64, lo: int, hi: int)
    requires
        0 <= lo <= hi <= s.len(),
        forall|i: int| 0 <= i < lo ==> (#[trigger] s[i]).tick != tick,
        forall|i: int| lo <= i < hi ==> (#[trigger] s[i]).tick == tick,
        forall|i: int| hi <= i < s.len() ==> (#[trigger] s[i]).tick != tick,
    ensures
        s.subrange(lo, hi) == stamped(s, tick),
    decreases s.len(),
{
    reveal(Seq::filter);
    if s.len() > 0 {
        let p = s.drop_last();
        assert(forall|i: int| 0 <= i < p.len() ==> #[trigger] p[i] == s[i]);
        if hi == s.len() {
            if lo == s.len() {
                assert(s[s.len() - 1].tick != tick);
                lemma_stamped(p, tick, lo - 1, hi - 1);
                assert(s.subrange(lo, hi) =~= p.subrange(lo - 1, hi - 1));
            } else {
                assert(s[s.len() - 1].tick == tick);
                lemma_stamped(p, tick, lo, hi - 1);
                assert(s.subrange(lo, hi) =~= p.subrange(lo, hi - 1).push(s.last()));
            }
        } else {
            assert(s[s.len() - 1].tick != tick);
            lemma_stamped(p, tick, lo, hi);
            assert(s.subrange(lo, hi) =~= p.subrange(lo, hi));
        }
    } else {
        assert(s.subrange(lo, hi) =~= s);
    }
}

/// Two logs with the same commands are the same log once finalized: order of
/// arrival does not matter.
pub proof fn law_arrival_order_does_not_matter(a: Seq<Command>, b: Seq<Command>)
    requires
        a.to_multiset() == b.to_multiset(),
    ensures
        sorted(a) == sorted(b),
{
    law_sorted_is_a_sorted_permutation(a);
    law_sorted_is_a_sorted_permutation(b);
    lemma_sorted_unique(sorted(a), sorted(b));
}

proof fn lemma_sorted_unique(s: Seq<Command>, t: Seq<Command>)
    requires
        is_sorted(s),
        is_sorted(t),
        s.to_multiset() == t.to_multiset(),
    ensures
        s == t,
    decreases s.len(),
{
    broadcast use vstd::seq_lib::group_to_multiset_ensures;

    assert(s.len() == s.to_multiset().len());
    assert(t.len() == t.to_multiset().len());
    if s.len() > 0 {
        let (x, y) = (s.last(), t.last());
        assert(s.contains(s[s.len() - 1]));
        assert(t.contains(t[t.len() - 1]));
        assert(s.to_multiset().count(x) > 0 && t.to_multiset().count(y) > 0);
        assert(t.to_multiset().count(x) > 0 && s.to_multiset().count(y) > 0);
        assert(t.contains(x) && s.contains(y));
        let i = t.index_of(x);
        let j = s.index_of(y);
        assert(t[i].key() <= t[t.len() - 1].key());
        assert(s[j].key() <= s[s.len() - 1].key());
        law_a_key_names_its_command(x, y);
        assert(x == y);
        let (p, q) = (s.drop_last(), t.drop_last());
        assert(s =~= p.push(x));
        assert(t =~= q.push(x));
        vstd::seq_lib::to_multiset_build(p, x);
        vstd::seq_lib::to_multiset_build(q, x);
        assert(p.to_multiset() =~= s.to_multiset().remove(x));
        assert(q.to_multiset() =~= t.to_multiset().remove(x));
        assert forall|i: int, j: int| 0 <= i <= j < p.len() implies (#[trigger] p[i]).key() <= (
        #[trigger] p[j]).key() by {
            assert(p[i] == s[i] && p[j] == s[j]);
        }
        assert forall|i: int, j: int| 0 <= i <= j < q.len() implies (#[trigger] q[i]).key() <= (
        #[trigger] q[j]).key() by {
            assert(q[i] == t[i] && q[j] == t[j]);
        }
        lemma_sorted_unique(p, q);
    } else {
        assert(s =~= t);
    }
}

// ----------------------------------------------------------------------
// The byte format.
// ----------------------------------------------------------------------

#[derive(Clone, Copy, PartialEq, Eq, Debug, Structural)]
pub enum LogError {
    BadMagic,
    BadVersion(u32),
    BadKind(u8),
    BadTag(u8),
    BadElement(u8),
    Truncated,
}

/// What follows a command's tag.
pub open spec fn payload(k: CmdKind) -> Seq<u8> {
    match k {
        CmdKind::SetHeading { dir } => le32(dir.x.0 as u32) + le32(dir.y.0 as u32),
        CmdKind::Spawn { element, kind, at } => seq![element.at() as u8] + seq![kind.at() as u8]
            + le32(at.x.0 as u32) + le32(at.y.0 as u32),
        CmdKind::Kill => Seq::empty(),
        CmdKind::Mine { element } => seq![element.at() as u8],
        CmdKind::Smelt { element } => seq![element.at() as u8],
        CmdKind::MakeItem { element, quantity } => seq![element.at() as u8] + le64(quantity),
        CmdKind::BreakItem { index } => le32(index),
        CmdKind::Pickup { element } => seq![element.at() as u8],
    }
}

/// The bytes of one command.
pub open spec fn command_bytes(c: Command) -> Seq<u8> {
    le64(c.tick) + le32(c.entity) + seq![c.kind.spec_tag()] + payload(c.kind)
}

/// The bytes of some commands, one after another.
pub open spec fn commands_bytes(s: Seq<Command>) -> Seq<u8>
    decreases s.len(),
{
    if s.len() == 0 {
        Seq::empty()
    } else {
        command_bytes(s[0]) + commands_bytes(s.skip(1))
    }
}

/// Whether a log holds a command that the byte format has no place for.
pub open spec fn has_pickup(s: Seq<Command>) -> bool {
    exists|i: int| 0 <= i < s.len() && (#[trigger] s[i]).kind is Pickup
}

/// The bytes of a whole log.
pub open spec fn log_bytes(s: Seq<Command>) -> Seq<u8> {
    le32(MAGIC) + le32(VERSION) + le64(s.len() as u64) + commands_bytes(s)
}

pub open spec fn u32_at(b: Seq<u8>, at: int) -> u32 {
    (b[at] + 256 * b[at + 1] + 65536 * b[at + 2] + 16777216 * b[at + 3]) as u32
}

pub open spec fn u64_at(b: Seq<u8>, at: int) -> u64 {
    (u32_at(b, at) + 0x1_0000_0000 * u32_at(b, at + 4)) as u64
}

pub open spec fn v2_at(b: Seq<u8>, at: int) -> V2 {
    V2 { x: Fx(u32_at(b, at) as i32), y: Fx(u32_at(b, at + 4) as i32) }
}

/// The element byte at `at`, or why there is none.
pub open spec fn read_element(b: Seq<u8>, at: int) -> Result<Element, LogError> {
    if at + 1 > b.len() {
        Err(LogError::Truncated)
    } else if b[at] >= 5 {
        Err(LogError::BadElement(b[at]))
    } else {
        Ok(element_at(b[at] as int))
    }
}

/// Reads the payload of a command whose tag is `tag`: what it holds and where
/// it ends.
#[verifier::opaque]
pub open spec fn read_payload(b: Seq<u8>, v: u32, tag: u8, at: int) -> Result<
    (CmdKind, int),
    LogError,
> {
    if tag == 0 {
        if at + 8 > b.len() {
            Err(LogError::Truncated)
        } else {
            Ok((CmdKind::SetHeading { dir: v2_at(b, at) }, at + 8))
        }
    } else if tag == 1 {
        match read_element(b, at) {
            Err(e) => Err(e),
            Ok(element) => {
                let k = at + 1;
                if v == 1 {
                    if k + 8 > b.len() {
                        Err(LogError::Truncated)
                    } else {
                        Ok(
                            (
                                CmdKind::Spawn { element, kind: Kind::Animal, at: v2_at(b, k) },
                                k + 8,
                            ),
                        )
                    }
                } else if k + 1 > b.len() {
                    Err(LogError::Truncated)
                } else if b[k] > 1 {
                    Err(LogError::BadKind(b[k]))
                } else if k + 9 > b.len() {
                    Err(LogError::Truncated)
                } else {
                    let kind = if b[k] == 0 {
                        Kind::Plant
                    } else {
                        Kind::Animal
                    };
                    Ok((CmdKind::Spawn { element, kind, at: v2_at(b, k + 1) }, k + 9))
                }
            },
        }
    } else if tag == 2 {
        Ok((CmdKind::Kill, at))
    } else if tag == 3 {
        match read_element(b, at) {
            Err(e) => Err(e),
            Ok(element) => Ok((CmdKind::Mine { element }, at + 1)),
        }
    } else if tag == 4 {
        match read_element(b, at) {
            Err(e) => Err(e),
            Ok(element) => Ok((CmdKind::Smelt { element }, at + 1)),
        }
    } else if tag == 5 {
        match read_element(b, at) {
            Err(e) => Err(e),
            Ok(element) => if at + 9 > b.len() {
                Err(LogError::Truncated)
            } else {
                Ok((CmdKind::MakeItem { element, quantity: u64_at(b, at + 1) }, at + 9))
            },
        }
    } else if tag == 6 {
        if at + 4 > b.len() {
            Err(LogError::Truncated)
        } else {
            Ok((CmdKind::BreakItem { index: u32_at(b, at) }, at + 4))
        }
    } else {
        Err(LogError::BadTag(tag))
    }
}

/// Reads one command: what it is and where it ends.
#[verifier::opaque]
pub open spec fn read_command(b: Seq<u8>, v: u32, at: int) -> Result<(Command, int), LogError> {
    if at + 13 > b.len() {
        Err(LogError::Truncated)
    } else {
        match read_payload(b, v, b[at + 12], at + 13) {
            Err(e) => Err(e),
            Ok((kind, next)) => Ok(
                (Command { tick: u64_at(b, at), entity: u32_at(b, at + 8), kind }, next),
            ),
        }
    }
}

/// Reads `n` commands.
pub open spec fn read_commands(b: Seq<u8>, v: u32, at: int, n: int) -> Result<
    Seq<Command>,
    LogError,
>
    decreases n,
{
    if n <= 0 {
        Ok(Seq::empty())
    } else {
        match read_command(b, v, at) {
            Err(e) => Err(e),
            Ok((c, next)) => match read_commands(b, v, next, n - 1) {
                Err(e) => Err(e),
                Ok(rest) => Ok(seq![c] + rest),
            },
        }
    }
}

/// Reads a whole log, in the order it is written. What follows the last
/// command is not looked at.
pub open spec fn read_log(b: Seq<u8>) -> Result<Seq<Command>, LogError> {
    if b.len() < 4 {
        Err(LogError::Truncated)
    } else if u32_at(b, 0) != MAGIC {
        Err(LogError::BadMagic)
    } else if b.len() < 8 {
        Err(LogError::Truncated)
    } else if !(1 <= u32_at(b, 4) <= 3) {
        Err(LogError::BadVersion(u32_at(b, 4)))
    } else if b.len() < 16 {
        Err(LogError::Truncated)
    } else {
        read_commands(b, u32_at(b, 4), 16, u64_at(b, 8) as int)
    }
}

fn push_u32(out: &mut Vec<u8>, v: u32)
    ensures
        final(out)@ == old(out)@ + le32(v),
{
    let ghost before = out@;
    out.push((v % 256) as u8);
    out.push(((v / 256) % 256) as u8);
    out.push(((v / 65_536) % 256) as u8);
    out.push((v / 16_777_216) as u8);
    assert(out@ =~= before + le32(v));
}

fn push_i32(out: &mut Vec<u8>, v: i32)
    ensures
        final(out)@ == old(out)@ + le32(v as u32),
{
    push_u32(out, #[verifier::truncate] (v as u32));
}

fn push_u64(out: &mut Vec<u8>, v: u64)
    ensures
        final(out)@ == old(out)@ + le64(v),
{
    let ghost before = out@;
    push_u32(out, (v % 0x1_0000_0000) as u32);
    push_u32(out, (v / 0x1_0000_0000) as u32);
    assert(out@ =~= before + le64(v));
}

fn push_payload(out: &mut Vec<u8>, k: CmdKind)
    ensures
        final(out)@ == old(out)@ + payload(k),
{
    let ghost before = out@;
    match k {
        CmdKind::SetHeading { dir } => {
            push_i32(out, dir.x.raw());
            push_i32(out, dir.y.raw());
        },
        CmdKind::Spawn { element, kind, at } => {
            out.push(element.index() as u8);
            out.push(kind.index() as u8);
            push_i32(out, at.x.raw());
            push_i32(out, at.y.raw());
        },
        CmdKind::Kill => {},
        CmdKind::Mine { element } => {
            out.push(element.index() as u8);
        },
        CmdKind::Smelt { element } => {
            out.push(element.index() as u8);
        },
        CmdKind::MakeItem { element, quantity } => {
            out.push(element.index() as u8);
            push_u64(out, quantity);
        },
        CmdKind::BreakItem { index } => {
            push_u32(out, index);
        },
        CmdKind::Pickup { element } => {
            out.push(element.index() as u8);
        },
    }
    assert(out@ =~= before + payload(k));
}

fn push_command(out: &mut Vec<u8>, c: Command)
    ensures
        final(out)@ == old(out)@ + command_bytes(c),
{
    let ghost before = out@;
    push_u64(out, c.tick);
    push_u32(out, c.entity);
    out.push(c.kind.tag());
    push_payload(out, c.kind);
    assert(out@ =~= before + command_bytes(c));
}

/// A place in some bytes.
struct Reader<'a> {
    b: &'a [u8],
    at: usize,
}

impl<'a> Reader<'a> {
    spec fn wf(self) -> bool {
        self.at <= self.b@.len()
    }

    fn has(&self, n: usize) -> (r: bool)
        requires
            self.wf(),
        ensures
            r == (self.at + n <= self.b@.len()),
    {
        n <= self.b.len() - self.at
    }

    fn u8(&mut self) -> (r: Result<u8, LogError>)
        requires
            old(self).wf(),
        ensures
            final(self).wf(),
            final(self).b == old(self).b,
            match r {
                Ok(v) => {
                    &&& final(self).at == old(self).at + 1
                    &&& v == old(self).b@[old(self).at as int]
                },
                Err(e) => {
                    &&& e == LogError::Truncated
                    &&& old(self).at + 1 > old(self).b@.len()
                },
            },
    {
        if !self.has(1) {
            return Err(LogError::Truncated);
        }
        let v: u8 = self.b[self.at];
        self.at = self.at + 1;
        Ok(v)
    }

    fn u32(&mut self) -> (r: Result<u32, LogError>)
        requires
            old(self).wf(),
        ensures
            final(self).wf(),
            final(self).b == old(self).b,
            match r {
                Ok(v) => {
                    &&& final(self).at == old(self).at + 4
                    &&& v == u32_at(old(self).b@, old(self).at as int)
                },
                Err(e) => {
                    &&& e == LogError::Truncated
                    &&& old(self).at + 4 > old(self).b@.len()
                },
            },
    {
        if !self.has(4) {
            return Err(LogError::Truncated);
        }
        let a: u32 = self.b[self.at] as u32;
        let b: u32 = self.b[self.at + 1] as u32;
        let c: u32 = self.b[self.at + 2] as u32;
        let d: u32 = self.b[self.at + 3] as u32;
        self.at = self.at + 4;
        Ok(a + 256 * b + 65_536 * c + 16_777_216 * d)
    }

    fn u64(&mut self) -> (r: Result<u64, LogError>)
        requires
            old(self).wf(),
        ensures
            final(self).wf(),
            final(self).b == old(self).b,
            match r {
                Ok(v) => {
                    &&& final(self).at == old(self).at + 8
                    &&& v == u64_at(old(self).b@, old(self).at as int)
                },
                Err(e) => {
                    &&& e == LogError::Truncated
                    &&& old(self).at + 8 > old(self).b@.len()
                },
            },
    {
        match self.u32() {
            Err(e) => Err(e),
            Ok(lo) => match self.u32() {
                Err(e) => Err(e),
                Ok(hi) => Ok(lo as u64 + 0x1_0000_0000 * hi as u64),
            },
        }
    }

    fn v2(&mut self) -> (r: Result<V2, LogError>)
        requires
            old(self).wf(),
        ensures
            final(self).wf(),
            final(self).b == old(self).b,
            match r {
                Ok(v) => {
                    &&& final(self).at == old(self).at + 8
                    &&& v == v2_at(old(self).b@, old(self).at as int)
                },
                Err(e) => {
                    &&& e == LogError::Truncated
                    &&& old(self).at + 8 > old(self).b@.len()
                },
            },
    {
        match self.u32() {
            Err(e) => Err(e),
            Ok(x) => match self.u32() {
                Err(e) => Err(e),
                Ok(y) => Ok(
                    V2::new(
                        Fx::from_raw(#[verifier::truncate] (x as i32)),
                        Fx::from_raw(#[verifier::truncate] (y as i32)),
                    ),
                ),
            },
        }
    }

    fn element(&mut self) -> (r: Result<Element, LogError>)
        requires
            old(self).wf(),
        ensures
            final(self).wf(),
            final(self).b == old(self).b,
            r == read_element(old(self).b@, old(self).at as int),
            r is Ok ==> final(self).at == old(self).at + 1,
    {
        match self.u8() {
            Err(e) => Err(e),
            Ok(e) => {
                if e >= 5 {
                    Err(LogError::BadElement(e))
                } else {
                    Ok(Element::from_index(e as usize))
                }
            },
        }
    }

    fn payload(&mut self, v: u32, tag: u8) -> (r: Result<CmdKind, LogError>)
        requires
            old(self).wf(),
        ensures
            final(self).wf(),
            final(self).b == old(self).b,
            match (r, read_payload(old(self).b@, v, tag, old(self).at as int)) {
                (Ok(k), Ok((k2, next))) => k == k2 && final(self).at == next,
                (Err(e), Err(e2)) => e == e2,
                _ => false,
            },
    {
        proof {
            reveal(read_payload);
        }
        match tag {
            0 => match self.v2() {
                Err(e) => Err(e),
                Ok(dir) => Ok(CmdKind::SetHeading { dir }),
            },
            1 => match self.element() {
                Err(e) => Err(e),
                Ok(element) => {
                    let mut kind: Kind = Kind::Animal;
                    if v != 1 {
                        match self.u8() {
                            Err(e) => {
                                return Err(e);
                            },
                            Ok(k) => {
                                if k > 1 {
                                    return Err(LogError::BadKind(k));
                                }
                                if k == 0 {
                                    kind = Kind::Plant;
                                }
                            },
                        }
                    }
                    match self.v2() {
                        Err(e) => Err(e),
                        Ok(at) => Ok(CmdKind::Spawn { element, kind, at }),
                    }
                },
            },
            2 => Ok(CmdKind::Kill),
            3 => match self.element() {
                Err(e) => Err(e),
                Ok(element) => Ok(CmdKind::Mine { element }),
            },
            4 => match self.element() {
                Err(e) => Err(e),
                Ok(element) => Ok(CmdKind::Smelt { element }),
            },
            5 => match self.element() {
                Err(e) => Err(e),
                Ok(element) => match self.u64() {
                    Err(e) => Err(e),
                    Ok(quantity) => Ok(CmdKind::MakeItem { element, quantity }),
                },
            },
            6 => match self.u32() {
                Err(e) => Err(e),
                Ok(index) => Ok(CmdKind::BreakItem { index }),
            },
            t => Err(LogError::BadTag(t)),
        }
    }

    fn command(&mut self, v: u32) -> (r: Result<Command, LogError>)
        requires
            old(self).wf(),
        ensures
            final(self).wf(),
            final(self).b == old(self).b,
            match (r, read_command(old(self).b@, v, old(self).at as int)) {
                (Ok(c), Ok((c2, next))) => c == c2 && final(self).at == next,
                (Err(e), Err(e2)) => e == e2,
                _ => false,
            },
    {
        proof {
            reveal(read_command);
        }
        let tick: u64 = match self.u64() {
            Err(e) => {
                return Err(e);
            },
            Ok(t) => t,
        };
        let entity: u32 = match self.u32() {
            Err(e) => {
                return Err(e);
            },
            Ok(t) => t,
        };
        let tag: u8 = match self.u8() {
            Err(e) => {
                return Err(e);
            },
            Ok(t) => t,
        };
        match self.payload(v, tag) {
            Err(e) => Err(e),
            Ok(kind) => Ok(Command { tick, entity, kind }),
        }
    }
}

impl InputLog {
    /// The log as bytes. They read back as this log, unless it holds a
    /// `Pickup`.
    pub fn to_bytes(&self) -> (out: Vec<u8>)
        requires
            self.ready(),
        ensures
            out@ == log_bytes(self@),
    {
        let mut out: Vec<u8> = Vec::new();
        push_u32(&mut out, MAGIC);
        push_u32(&mut out, VERSION);
        push_u64(&mut out, self.cmds.len() as u64);
        let ghost all = self@;
        assert(all.skip(0) =~= all);
        assert(out@ + commands_bytes(all.skip(0)) =~= log_bytes(all));
        let mut i: usize = 0;
        while i < self.cmds.len()
            invariant
                all == self.cmds@,
                i <= all.len(),
                out@ + commands_bytes(all.skip(i as int)) == log_bytes(all),
            decreases self.cmds.len() - i,
        {
            let ghost before = out@;
            push_command(&mut out, self.cmds[i]);
            proof {
                let rest = all.skip(i as int);
                assert(rest[0] == all[i as int]);
                assert(rest.skip(1) =~= all.skip(i + 1));
                assert(before + commands_bytes(rest) =~= out@ + commands_bytes(all.skip(i + 1)));
            }
            i = i + 1;
        }
        assert(all.skip(i as int) =~= Seq::empty());
        assert(out@ + Seq::<u8>::empty() =~= out@);
        out
    }

    /// Reads a log back from bytes and imposes the order.
    pub fn from_bytes(b: &[u8]) -> (r: Result<InputLog, LogError>)
        ensures
            match (r, read_log(b@)) {
                (Ok(log), Ok(s)) => log@ == sorted(s) && log.ready(),
                (Err(e), Err(e2)) => e == e2,
                _ => false,
            },
    {
        let mut r = Reader { b, at: 0 };
        match r.u32() {
            Err(e) => {
                return Err(e);
            },
            Ok(m) => {
                if m != MAGIC {
                    return Err(LogError::BadMagic);
                }
            },
        }
        let v: u32 = match r.u32() {
            Err(e) => {
                return Err(e);
            },
            Ok(v) => v,
        };
        if v != VERSION && v != 1 && v != 2 {
            return Err(LogError::BadVersion(v));
        }
        let n: u64 = match r.u64() {
            Err(e) => {
                return Err(e);
            },
            Ok(n) => n,
        };
        let mut cmds: Vec<Command> = Vec::new();
        let mut i: u64 = 0;
        while i < n
            invariant
                i <= n,
                r.wf(),
                r.b == b,
                read_log(b@) == read_commands(b@, v, 16, n as int),
                match (read_commands(b@, v, 16, n as int), read_commands(
                    b@,
                    v,
                    r.at as int,
                    n - i,
                )) {
                    (Ok(all), Ok(rest)) => all == cmds@ + rest,
                    (Err(e), Err(e2)) => e == e2,
                    _ => false,
                },
            decreases n - i,
        {
            let ghost before = cmds@;
            let ghost at = r.at as int;
            match r.command(v) {
                Err(e) => {
                    return Err(e);
                },
                Ok(c) => {
                    cmds.push(c);
                    proof {
                        match read_commands(b@, v, r.at as int, n - i - 1) {
                            Ok(rest) => {
                                assert(before + (seq![c] + rest) =~= cmds@ + rest);
                            },
                            Err(e) => {},
                        }
                    }
                },
            }
            i = i + 1;
        }
        assert(cmds@ + Seq::<Command>::empty() =~= cmds@);
        let mut log = InputLog { cmds, sorted: false };
        log.finalize();
        Ok(log)
    }
}

// ----------------------------------------------------------------------
// Reading back what was written.
// ----------------------------------------------------------------------

/// `b` holds `s` at `at`.
pub open spec fn holds(b: Seq<u8>, at: int, s: Seq<u8>) -> bool {
    0 <= at && at + s.len() <= b.len() && b.subrange(at, at + s.len()) == s
}

proof fn lemma_holds_split(b: Seq<u8>, at: int, s: Seq<u8>, t: Seq<u8>)
    requires
        holds(b, at, s + t),
    ensures
        holds(b, at, s),
        holds(b, at + s.len(), t),
{
    let w = b.subrange(at, at + (s + t).len());
    assert(b.subrange(at, at + s.len()) =~= w.subrange(0, s.len() as int));
    assert((s + t).subrange(0, s.len() as int) =~= s);
    assert(b.subrange(at + s.len(), at + s.len() + t.len()) =~= w.subrange(
        s.len() as int,
        (s + t).len() as int,
    ));
    assert((s + t).subrange(s.len() as int, (s + t).len() as int) =~= t);
}

proof fn lemma_read_u32(b: Seq<u8>, at: int, v: u32)
    requires
        holds(b, at, le32(v)),
    ensures
        u32_at(b, at) == v,
        at + 4 <= b.len(),
{
    let w = b.subrange(at, at + 4);
    assert(w == le32(v));
    assert(b[at] == w[0] && b[at + 1] == w[1] && b[at + 2] == w[2] && b[at + 3] == w[3]);
}

proof fn lemma_read_u64(b: Seq<u8>, at: int, v: u64)
    requires
        holds(b, at, le64(v)),
    ensures
        u64_at(b, at) == v,
        at + 8 <= b.len(),
{
    let lo = (v % 0x1_0000_0000) as u32;
    let hi = (v / 0x1_0000_0000) as u32;
    lemma_holds_split(b, at, le32(lo), le32(hi));
    lemma_read_u32(b, at, lo);
    lemma_read_u32(b, at + 4, hi);
}

proof fn lemma_i32_roundtrip(v: i32)
    ensures
        (v as u32) as i32 == v,
{
    assert((v as u32) as i32 == v) by (bit_vector);
}

proof fn lemma_read_v2(b: Seq<u8>, at: int, p: V2)
    requires
        holds(b, at, le32(p.x.0 as u32) + le32(p.y.0 as u32)),
    ensures
        v2_at(b, at) == p,
        at + 8 <= b.len(),
{
    lemma_holds_split(b, at, le32(p.x.0 as u32), le32(p.y.0 as u32));
    lemma_read_u32(b, at, p.x.0 as u32);
    lemma_read_u32(b, at + 4, p.y.0 as u32);
    lemma_i32_roundtrip(p.x.0);
    lemma_i32_roundtrip(p.y.0);
}

proof fn lemma_read_byte(b: Seq<u8>, at: int, v: u8)
    requires
        holds(b, at, seq![v]),
    ensures
        b[at] == v,
        at + 1 <= b.len(),
{
    assert(b.subrange(at, at + 1)[0] == v);
}

proof fn lemma_read_element(b: Seq<u8>, at: int, e: Element)
    requires
        holds(b, at, seq![e.at() as u8]),
    ensures
        read_element(b, at) == Ok::<Element, LogError>(e),
{
    lemma_read_byte(b, at, e.at() as u8);
    crate::element::law_ring_positions(e, 0);
}

proof fn lemma_read_payload(b: Seq<u8>, v: u32, at: int, k: CmdKind)
    requires
        2 <= v <= 3,
        !(k is Pickup),
        holds(b, at, payload(k)),
    ensures
        read_payload(b, v, k.spec_tag(), at) == Ok::<(CmdKind, int), LogError>(
            (k, at + payload(k).len()),
        ),
{
    reveal(read_payload);
    match k {
        CmdKind::SetHeading { dir } => {
            lemma_read_v2(b, at, dir);
        },
        CmdKind::Spawn { element, kind, at: p } => {
            let e = seq![element.at() as u8];
            let d = seq![kind.at() as u8];
            let xy = le32(p.x.0 as u32) + le32(p.y.0 as u32);
            assert(payload(k) =~= e + (d + xy));
            lemma_holds_split(b, at, e, d + xy);
            lemma_holds_split(b, at + 1, d, xy);
            lemma_read_element(b, at, element);
            lemma_read_byte(b, at + 1, kind.at() as u8);
            lemma_read_v2(b, at + 2, p);
        },
        CmdKind::Kill => {},
        CmdKind::Mine { element } => {
            lemma_read_element(b, at, element);
        },
        CmdKind::Smelt { element } => {
            lemma_read_element(b, at, element);
        },
        CmdKind::MakeItem { element, quantity } => {
            lemma_holds_split(b, at, seq![element.at() as u8], le64(quantity));
            lemma_read_element(b, at, element);
            lemma_read_u64(b, at + 1, quantity);
        },
        CmdKind::BreakItem { index } => {
            lemma_read_u32(b, at, index);
        },
        CmdKind::Pickup { element } => {},
    }
}

proof fn lemma_read_command(b: Seq<u8>, v: u32, at: int, c: Command)
    requires
        2 <= v <= 3,
        holds(b, at, command_bytes(c)),
    ensures
        read_command(b, v, at) == (if c.kind is Pickup {
            Err(LogError::BadTag(PICKUP_TAG))
        } else {
            Ok::<(Command, int), LogError>((c, at + command_bytes(c).len()))
        }),
{
    reveal(read_command);
    let t = le64(c.tick);
    let e = le32(c.entity);
    let g = seq![c.kind.spec_tag()];
    let p = payload(c.kind);
    assert(command_bytes(c) =~= t + (e + (g + p)));
    lemma_holds_split(b, at, t, e + (g + p));
    lemma_holds_split(b, at + 8, e, g + p);
    lemma_holds_split(b, at + 12, g, p);
    lemma_read_u64(b, at, c.tick);
    lemma_read_u32(b, at + 8, c.entity);
    lemma_read_byte(b, at + 12, c.kind.spec_tag());
    if c.kind is Pickup {
        reveal(read_payload);
    } else {
        lemma_read_payload(b, v, at + 13, c.kind);
    }
}

proof fn lemma_read_commands(b: Seq<u8>, v: u32, at: int, s: Seq<Command>)
    requires
        2 <= v <= 3,
        holds(b, at, commands_bytes(s)),
    ensures
        read_commands(b, v, at, s.len() as int) == (if has_pickup(s) {
            Err(LogError::BadTag(PICKUP_TAG))
        } else {
            Ok::<Seq<Command>, LogError>(s)
        }),
    decreases s.len(),
{
    if s.len() > 0 {
        let rest = s.skip(1);
        lemma_holds_split(b, at, command_bytes(s[0]), commands_bytes(rest));
        lemma_read_command(b, v, at, s[0]);
        lemma_pickup_in_rest(s);
        lemma_read_commands(b, v, at + command_bytes(s[0]).len(), rest);
        assert(seq![s[0]] + rest =~= s);
    } else {
        assert(s =~= Seq::empty());
    }
}

proof fn lemma_pickup_in_rest(s: Seq<Command>)
    requires
        s.len() > 0,
    ensures
        has_pickup(s) <==> s[0].kind is Pickup || has_pickup(s.skip(1)),
{
    let rest = s.skip(1);
    if has_pickup(s) {
        let i = choose|i: int| 0 <= i < s.len() && (#[trigger] s[i]).kind is Pickup;
        if i > 0 {
            assert(rest[i - 1].kind is Pickup);
        }
    }
    if has_pickup(rest) {
        let i = choose|i: int| 0 <= i < rest.len() && (#[trigger] rest[i]).kind is Pickup;
        assert(s[i + 1].kind is Pickup);
    }
}

/// A header followed by `c` is read as that many commands from behind it.
proof fn lemma_read_header(v: u32, n: u64, c: Seq<u8>)
    requires
        1 <= v <= 3,
    ensures
        ({
            let b = le32(MAGIC) + le32(v) + le64(n) + c;
            &&& read_log(b) == read_commands(b, v, 16, n as int)
            &&& holds(b, 16, c)
            &&& u32_at(b, 0) == MAGIC
            &&& u32_at(b, 4) == v
            &&& u64_at(b, 8) == n
        }),
{
    let (p, q, r) = (le32(MAGIC), le32(v), le64(n));
    let b = p + q + r + c;
    assert(b.subrange(0, b.len() as int) =~= b);
    assert(holds(b, 0, (p + q + r) + c));
    lemma_holds_split(b, 0, p + q + r, c);
    lemma_holds_split(b, 0, p + q, r);
    lemma_holds_split(b, 0, p, q);
    lemma_read_u32(b, 0, MAGIC);
    lemma_read_u32(b, 4, v);
    lemma_read_u64(b, 8, n);
}

/// A log written as bytes and read back holds the same commands; read back
/// and put in order, a log that was in order is the log it was. One that holds
/// a `Pickup` is refused for its tag.
pub proof fn law_bytes_round_trip(s: Seq<Command>)
    requires
        s.len() <= u64::MAX,
    ensures
        !has_pickup(s) ==> read_log(log_bytes(s)) == Ok::<Seq<Command>, LogError>(s),
        has_pickup(s) ==> read_log(log_bytes(s)) == Err::<Seq<Command>, LogError>(
            LogError::BadTag(PICKUP_TAG),
        ),
        is_sorted(s) ==> sorted(s) == s,
{
    lemma_read_header(VERSION, s.len() as u64, commands_bytes(s));
    lemma_read_commands(log_bytes(s), VERSION, 16, s);
    law_sorting_is_idempotent(s);
}

// ----------------------------------------------------------------------
// Reading back a part of what was written.
// ----------------------------------------------------------------------

/// What a prefix holds, it holds as the whole does.
proof fn lemma_holds_prefix(b: Seq<u8>, k: int, at: int, s: Seq<u8>)
    requires
        holds(b, at, s),
        at + s.len() <= k <= b.len(),
    ensures
        holds(b.take(k), at, s),
{
    assert(b.take(k).subrange(at, at + s.len()) =~= b.subrange(at, at + s.len()));
}

proof fn lemma_cut_payload(b: Seq<u8>, v: u32, k: int, at: int, c: CmdKind)
    requires
        2 <= v <= 3,
        !(c is Pickup),
        holds(b, at, payload(c)),
        at <= k < at + payload(c).len(),
    ensures
        read_payload(b.take(k), v, c.spec_tag(), at) == Err::<(CmdKind, int), LogError>(
            LogError::Truncated,
        ),
{
    reveal(read_payload);
    match c {
        CmdKind::Spawn { element, kind, at: p } => {
            let e = seq![element.at() as u8];
            let d = seq![kind.at() as u8];
            let xy = le32(p.x.0 as u32) + le32(p.y.0 as u32);
            assert(payload(c) =~= e + (d + xy));
            lemma_holds_split(b, at, e, d + xy);
            lemma_holds_split(b, at + 1, d, xy);
            lemma_read_byte(b, at, element.at() as u8);
            lemma_read_byte(b, at + 1, kind.at() as u8);
        },
        CmdKind::MakeItem { element, quantity } => {
            lemma_holds_split(b, at, seq![element.at() as u8], le64(quantity));
            lemma_read_byte(b, at, element.at() as u8);
        },
        _ => {},
    }
}

proof fn lemma_cut_command(b: Seq<u8>, v: u32, k: int, at: int, c: Command)
    requires
        2 <= v <= 3,
        holds(b, at, command_bytes(c)),
        at <= k < at + command_bytes(c).len(),
    ensures
        ({
            let r = read_command(b.take(k), v, at);
            ||| r == Err::<(Command, int), LogError>(LogError::Truncated)
            ||| c.kind is Pickup && r == Err::<(Command, int), LogError>(
                LogError::BadTag(PICKUP_TAG),
            )
        }),
{
    reveal(read_command);
    let head = le64(c.tick) + le32(c.entity);
    let g = seq![c.kind.spec_tag()];
    let p = payload(c.kind);
    assert(command_bytes(c) =~= head + (g + p));
    lemma_holds_split(b, at, head, g + p);
    lemma_holds_split(b, at + 12, g, p);
    lemma_read_byte(b, at + 12, c.kind.spec_tag());
    if at + 13 <= k {
        if c.kind is Pickup {
            reveal(read_payload);
        } else {
            lemma_cut_payload(b, v, k, at + 13, c.kind);
        }
    }
}

proof fn lemma_cut_commands(b: Seq<u8>, v: u32, k: int, at: int, s: Seq<Command>)
    requires
        2 <= v <= 3,
        holds(b, at, commands_bytes(s)),
        at <= k < at + commands_bytes(s).len(),
    ensures
        ({
            let r = read_commands(b.take(k), v, at, s.len() as int);
            ||| r == Err::<Seq<Command>, LogError>(LogError::Truncated)
            ||| has_pickup(s) && r == Err::<Seq<Command>, LogError>(
                LogError::BadTag(PICKUP_TAG),
            )
        }),
    decreases s.len(),
{
    let c = s[0];
    let rest = s.skip(1);
    let next = at + command_bytes(c).len();
    lemma_holds_split(b, at, command_bytes(c), commands_bytes(rest));
    lemma_pickup_in_rest(s);
    if k < next {
        lemma_cut_command(b, v, k, at, c);
    } else {
        lemma_holds_prefix(b, k, at, command_bytes(c));
        lemma_read_command(b.take(k), v, at, c);
        if !(c.kind is Pickup) {
            lemma_cut_commands(b, v, k, next, rest);
        }
    }
}

/// Every strict prefix of a log's bytes is refused, and none is read as a
/// shorter log: it is truncated, or, if the log holds a `Pickup`, that may be
/// come upon first.
pub proof fn law_a_prefix_is_refused(s: Seq<Command>, k: int)
    requires
        s.len() <= u64::MAX,
        0 <= k < log_bytes(s).len(),
    ensures
        read_log(log_bytes(s).take(k)) is Err,
        !has_pickup(s) ==> read_log(log_bytes(s).take(k)) == Err::<Seq<Command>, LogError>(
            LogError::Truncated,
        ),
        has_pickup(s) ==> read_log(log_bytes(s).take(k)) == Err::<Seq<Command>, LogError>(
            LogError::Truncated,
        ) || read_log(log_bytes(s).take(k)) == Err::<Seq<Command>, LogError>(
            LogError::BadTag(PICKUP_TAG),
        ),
{
    let b = log_bytes(s);
    let p = b.take(k);
    lemma_read_header(VERSION, s.len() as u64, commands_bytes(s));
    if k >= 4 {
        assert(u32_at(p, 0) == u32_at(b, 0));
    }
    if k >= 8 {
        assert(u32_at(p, 4) == u32_at(b, 4));
    }
    if k >= 16 {
        assert(u32_at(p, 8) == u32_at(b, 8) && u32_at(p, 12) == u32_at(b, 12));
        assert(u64_at(p, 8) == u64_at(b, 8));
        assert(b.len() == 16 + commands_bytes(s).len());
        lemma_cut_commands(b, VERSION, k, 16, s);
    }
}

} // verus!
