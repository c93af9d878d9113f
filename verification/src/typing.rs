//! What typed bytes come to.
use crate::keys::{arrow, decoded, end_from, polled, shift_held, Key};
use vstd::prelude::*;

verus! {

/// No byte of these begins an escape sequence.
pub open spec fn is_plain(b: Seq<u8>) -> bool {
    forall|i: int| 0 <= i < b.len() ==> #[trigger] b[i] != 0x1b
}

/// None of these bytes ends an escape sequence.
pub open spec fn is_inside(b: Seq<u8>) -> bool {
    forall|i: int| 0 <= i < b.len() ==> !(0x40 <= #[trigger] b[i] <= 0x7e)
}

/// Plain bytes are the characters that they stand for, one each and in order, and
/// none is kept back.
pub proof fn law_plain_bytes_are_characters(b: Seq<u8>, stale: int)
    requires
        is_plain(b),
    ensures
        polled(b, stale).0 == Seq::new(b.len(), |i: int| Key::Char(b[i] as char)),
        polled(b, stale).1.len() == 0,
    decreases b.len(),
{
    if b.len() > 0 {
        assert forall|i: int| 0 <= i < b.skip(1).len() implies #[trigger] b.skip(1)[i] != 0x1b by {
            assert(b.skip(1)[i] == b[i + 1]);
        }
        law_plain_bytes_are_characters(b.skip(1), 0);
    }
    assert(polled(b, stale).0 =~= Seq::new(b.len(), |i: int| Key::Char(b[i] as char)));
}

/// The bytes of an escape sequence.
pub open spec fn sequence(inner: Seq<u8>, last: u8) -> Seq<u8> {
    seq![0x1bu8, 0x5bu8] + inner + seq![last]
}

/// `A` to `D` end the sequences of the arrows up, down, right and left; a `;2` before
/// it says that shift is held; any other sequence is an escape. The bytes after it
/// are read on their own.
pub proof fn law_a_sequence_is_one_key(inner: Seq<u8>, last: u8, more: Seq<u8>, stale: int)
    requires
        is_inside(inner),
        0x40 <= last <= 0x7e,
    ensures
        ({
            let got = polled(sequence(inner, last) + more, stale);
            let rest = polled(more, 0);
            let shift = exists|i: int|
                0 <= i && i + 1 < inner.len() && #[trigger] inner[i] == 0x3b && inner[i + 1] == 0x32;
            let key = got.0[0];
            &&& got.0.len() == 1 + rest.0.len()
            &&& got.0.skip(1) == rest.0
            &&& got.1 == rest.1
            &&& got.2 == rest.2
            &&& key == (if last == 0x41 && shift {
                Key::ShiftUp
            } else if last == 0x41 {
                Key::Up
            } else if last == 0x42 && shift {
                Key::ShiftDown
            } else if last == 0x42 {
                Key::Down
            } else if last == 0x43 && shift {
                Key::ShiftRight
            } else if last == 0x43 {
                Key::Right
            } else if last == 0x44 && shift {
                Key::ShiftLeft
            } else if last == 0x44 {
                Key::Left
            } else {
                Key::Esc
            })
        }),
{
    let b = sequence(inner, last) + more;
    let end = inner.len() as int + 2;
    assert forall|i: int| 2 <= i < end implies !(0x40 <= #[trigger] b[i] <= 0x7e) by {
        assert(b[i] == inner[i - 2]);
    }
    assert(b[end] == last);
    lemma_end(b, 2, end);
    let held = exists|i: int|
        0 <= i && i + 1 < inner.len() && #[trigger] inner[i] == 0x3b && inner[i + 1] == 0x32;
    if held {
        let i = choose|i: int|
            0 <= i && i + 1 < inner.len() && #[trigger] inner[i] == 0x3b && inner[i + 1] == 0x32;
        assert(b[i + 2] == 0x3b && b[i + 2 + 1] == 0x32);
        assert(shift_held(b, end));
    }
    if shift_held(b, end) {
        let i = choose|i: int| 2 <= i && i + 1 < end && #[trigger] b[i] == 0x3b && b[i + 1] == 0x32;
        assert(inner[i - 2] == 0x3b && inner[i - 2 + 1] == 0x32);
        assert(held);
    }
    assert(b.skip(end + 1) =~= more);
    let rest = polled(more, 0);
    let key = arrow(last, held);
    assert(decoded(b) == Some((key, end + 1)));
    assert(polled(b, stale).0 == seq![key] + rest.0);
    assert((seq![key] + rest.0).skip(1) =~= rest.0);
}

proof fn lemma_end(b: Seq<u8>, i: int, end: int)
    requires
        0 <= i <= end < b.len(),
        0x40 <= b[end] <= 0x7e,
        forall|k: int| i <= k < end ==> !(0x40 <= #[trigger] b[k] <= 0x7e),
    ensures
        end_from(b, i) == end,
    decreases end - i,
{
    if i < end {
        lemma_end(b, i + 1, end);
    }
}

/// The bytes begin an escape sequence and do not end it.
pub open spec fn is_unfinished(b: Seq<u8>) -> bool {
    &&& b.len() > 0
    &&& b[0] == 0x1b
    &&& b.len() >= 3 && b[1] == 0x5b ==> forall|i: int|
        2 <= i < b.len() ==> !(0x40 <= #[trigger] b[i] <= 0x7e)
}

/// An unfinished sequence waits for the rest through two polls; at the third it is
/// the escape key, and nothing of it is left.
pub proof fn law_an_unfinished_sequence_waits(b: Seq<u8>)
    requires
        is_unfinished(b),
    ensures
        polled(b, 0) == (Seq::<Key>::empty(), b, 1int),
        polled(b, 1) == (Seq::<Key>::empty(), b, 2int),
        polled(b, 2).0 == seq![Key::Esc],
        polled(b, 2).1.len() == 0,
        polled(b, 2).2 == 0,
{
    if b.len() >= 3 && b[1] == 0x5b {
        lemma_no_end(b, 2);
    }
}

proof fn lemma_no_end(b: Seq<u8>, i: int)
    requires
        0 <= i <= b.len(),
        forall|k: int| i <= k < b.len() ==> !(0x40 <= #[trigger] b[k] <= 0x7e),
    ensures
        end_from(b, i) == b.len(),
    decreases b.len() - i,
{
    if i < b.len() {
        lemma_no_end(b, i + 1);
    }
}

} // verus!
