//! Keys out of the bytes that a terminal sends.
use vstd::prelude::*;
use vstd::slice::*;

verus! {

#[derive(Clone, Copy, PartialEq, Eq, Debug, Structural)]
pub enum Key {
    Up,
    Down,
    Left,
    Right,
    /// The same four with shift held.
    ShiftUp,
    ShiftDown,
    ShiftLeft,
    ShiftRight,
    Char(char),
    Esc,
}

/// Where the first byte that ends an escape sequence is, from `i` on; the
/// length if there is none.
pub open spec fn end_from(b: Seq<u8>, i: int) -> int
    decreases b.len() - i,
{
    if i < 0 || i >= b.len() || 0x40 <= b[i] <= 0x7e {
        i
    } else {
        end_from(b, i + 1)
    }
}

/// The parameters before `end` hold the modifier of the shift key.
pub open spec fn shift_held(b: Seq<u8>, end: int) -> bool {
    exists|i: int| 2 <= i && i + 1 < end && #[trigger] b[i] == 0x3b && b[i + 1] == 0x32
}

/// The key that an escape sequence with this last byte stands for.
pub open spec fn arrow(last: u8, shift: bool) -> Key {
    if last == 0x41 {
        if shift {
            Key::ShiftUp
        } else {
            Key::Up
        }
    } else if last == 0x42 {
        if shift {
            Key::ShiftDown
        } else {
            Key::Down
        }
    } else if last == 0x43 {
        if shift {
            Key::ShiftRight
        } else {
            Key::Right
        }
    } else if last == 0x44 {
        if shift {
            Key::ShiftLeft
        } else {
            Key::Left
        }
    } else {
        Key::Esc
    }
}

/// The key at the start of `b` and how many bytes it takes; nothing while the
/// rest of an escape sequence is still to come.
pub open spec fn decoded(b: Seq<u8>) -> Option<(Key, int)> {
    if b[0] != 0x1b {
        Some((Key::Char(b[0] as char), 1))
    } else if b.len() < 3 || b[1] != 0x5b {
        None
    } else {
        let end = end_from(b, 2);
        if end >= b.len() {
            None
        } else {
            Some((arrow(b[end], shift_held(b, end)), end + 1))
        }
    }
}

/// What polling makes of the bytes that have come: the keys, the bytes left
/// over, and for how many polls those have been there.
pub open spec fn polled(b: Seq<u8>, stale: int) -> (Seq<Key>, Seq<u8>, int)
    decreases b.len(),
{
    if b.len() == 0 {
        (Seq::empty(), b, stale)
    } else {
        match decoded(b) {
            Some((k, n)) => if 1 <= n <= b.len() {
                let (keys, rest, age) = polled(b.skip(n), 0);
                (seq![k] + keys, rest, age)
            } else {
                (Seq::empty(), b, stale)
            },
            // A sequence comes in one burst: what stays incomplete is a bare
            // escape key.
            None => if stale >= 2 {
                (seq![Key::Esc], Seq::empty(), 0)
            } else {
                (Seq::empty(), b, stale + 1)
            },
        }
    }
}

/// The key at the start of `b`.
fn decode(b: &[u8]) -> (r: Option<(Key, usize)>)
    requires
        b@.len() > 0,
    ensures
        match r {
            Some((k, n)) => decoded(b@) == Some((k, n as int)) && 1 <= n <= b@.len(),
            None => decoded(b@) is None,
        },
{
    if b[0] != 0x1b {
        return Some((Key::Char(b[0] as char), 1));
    }
    if b.len() < 3 || b[1] != 0x5b {
        return None;
    }
    let mut end: usize = 2;
    let mut shift: bool = false;
    while end < b.len() && !(0x40 <= b[end] && b[end] <= 0x7e)
        invariant
            2 <= end <= b@.len(),
            end_from(b@, end as int) == end_from(b@, 2),
            shift == shift_held(b@, end as int),
        decreases b.len() - end,
    {
        proof {
            let e = end as int;
            assert(shift_held(b@, e + 1) <==> shift_held(b@, e) || (e >= 3 && b@[e - 1] == 0x3b
                && b@[e] == 0x32)) by {
                if shift_held(b@, e + 1) {
                    let i = choose|i: int|
                        2 <= i && i + 1 < e + 1 && #[trigger] b@[i] == 0x3b && b@[i + 1] == 0x32;
                    if i + 1 < e {
                        assert(b@[i] == 0x3b);
                        assert(shift_held(b@, e));
                    }
                }
                if shift_held(b@, e) {
                    let i = choose|i: int|
                        2 <= i && i + 1 < e && #[trigger] b@[i] == 0x3b && b@[i + 1] == 0x32;
                    assert(b@[i] == 0x3b);
                    assert(shift_held(b@, e + 1));
                }
                if e >= 3 && b@[e - 1] == 0x3b && b@[e] == 0x32 {
                    assert(b@[e - 1] == 0x3b && b@[(e - 1) + 1] == 0x32);
                    assert(shift_held(b@, e + 1));
                }
            }
        }
        if end >= 3 && b[end - 1] == 0x3b && b[end] == 0x32 {
            shift = true;
        }
        end = end + 1;
    }
    if end >= b.len() {
        return None;
    }
    let last: u8 = b[end];
    let key: Key = if last == 0x41 {
        if shift {
            Key::ShiftUp
        } else {
            Key::Up
        }
    } else if last == 0x42 {
        if shift {
            Key::ShiftDown
        } else {
            Key::Down
        }
    } else if last == 0x43 {
        if shift {
            Key::ShiftRight
        } else {
            Key::Right
        }
    } else if last == 0x44 {
        if shift {
            Key::ShiftLeft
        } else {
            Key::Left
        }
    } else {
        Key::Esc
    };
    Some((key, end + 1))
}

/// Bytes that have come and are not yet keys.
pub struct Keys {
    pub buf: Vec<u8>,
    /// For how many polls an incomplete sequence has been waiting.
    pub stale: u8,
    /// Whether no more bytes will come.
    pub closed: bool,
}

impl Keys {
    pub fn new() -> (r: Keys)
        ensures
            r.buf@.len() == 0,
            r.stale == 0,
            !r.closed,
    {
        Keys { buf: Vec::new(), stale: 0, closed: false }
    }

    /// Take in the bytes that have arrived, and whether the input has closed,
    /// and give the keys that they complete.
    pub fn poll(&mut self, arrived: &[u8], closed: bool) -> (keys: Vec<Key>)
        requires
            old(self).stale <= 2,
        ensures
            (keys@, final(self).buf@, final(self).stale as int) == polled(
                old(self).buf@ + arrived@,
                old(self).stale as int,
            ),
            final(self).closed == (old(self).closed || closed),
            final(self).stale <= 2,
    {
        let ghost all = self.buf@ + arrived@;
        let ghost want = polled(all, self.stale as int);
        self.closed = self.closed || closed;
        let mut i: usize = 0;
        while i < arrived.len()
            invariant
                i <= arrived@.len(),
                self.buf@ == old(self).buf@ + arrived@.take(i as int),
                self.stale == old(self).stale,
                self.closed == (old(self).closed || closed),
            decreases arrived.len() - i,
        {
            self.buf.push(arrived[i]);
            i = i + 1;
            assert(self.buf@ =~= old(self).buf@ + arrived@.take(i as int));
        }
        assert(arrived@.take(i as int) =~= arrived@);
        let mut keys: Vec<Key> = Vec::new();
        let mut at: usize = 0;
        assert(self.buf@.skip(0) =~= all);
        assert(keys@ + want.0 =~= want.0);
        while at < self.buf.len()
            invariant
                at <= self.buf@.len(),
                all == old(self).buf@ + arrived@,
                want == polled(all, old(self).stale as int),
                self.buf@ == all,
                self.stale <= 2,
                self.closed == (old(self).closed || closed),
                keys@ + polled(all.skip(at as int), self.stale as int).0 == want.0,
                polled(all.skip(at as int), self.stale as int).1 == want.1,
                polled(all.skip(at as int), self.stale as int).2 == want.2,
            decreases self.buf.len() - at,
        {
            let ghost rest = all.skip(at as int);
            let ghost before = keys@;
            match decode(slice_subrange(self.buf.as_slice(), at, self.buf.len())) {
                Some((k, n)) => {
                    assert(all.subrange(at as int, all.len() as int) =~= rest);
                    assert(rest.skip(n as int) =~= all.skip(at + n));
                    at = at + n;
                    self.stale = 0;
                    keys.push(k);
                    assert(keys@ + polled(all.skip(at as int), 0).0 =~= before + (seq![k] + polled(
                        all.skip(at as int),
                        0,
                    ).0));
                },
                None => {
                    assert(all.subrange(at as int, all.len() as int) =~= rest);
                    if self.stale >= 2 {
                        self.buf = Vec::new();
                        self.stale = 0;
                        keys.push(Key::Esc);
                        assert(keys@ =~= want.0);
                        assert(self.buf@ =~= want.1);
                    } else {
                        self.stale = self.stale + 1;
                        self.buf = tail(&self.buf, at);
                        assert(keys@ =~= want.0);
                    }
                    return keys;
                },
            }
        }
        assert(all.skip(at as int).len() == 0);
        self.buf = Vec::new();
        assert(keys@ =~= want.0);
        assert(self.buf@ =~= want.1);
        keys
    }
}

/// The bytes from `at` on.
fn tail(v: &Vec<u8>, at: usize) -> (r: Vec<u8>)
    requires
        at <= v@.len(),
    ensures
        r@ == v@.skip(at as int),
{
    let mut r: Vec<u8> = Vec::new();
    let mut i: usize = at;
    while i < v.len()
        invariant
            at <= i <= v@.len(),
            r@ == v@.subrange(at as int, i as int),
        decreases v.len() - i,
    {
        r.push(v[i]);
        i = i + 1;
        assert(r@ =~= v@.subrange(at as int, i as int));
    }
    assert(r@ =~= v@.skip(at as int));
    r
}

} // verus!
