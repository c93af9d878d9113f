//! What the state hash tells apart.
use crate::entity::{entity_digest, items_digest, EntityV, Item};
use crate::fx::V2;
use crate::governor::{governor_digest, Governor};
use crate::hash::{
    digest_i32s, digest_u16s, digest_u32s, digest_u64s, fnv, fnv_round, le16, le32, le64, Hashable,
    FNV_PRIME,
};
use crate::race::{actions_digest, ActionRecipe, RaceAttrsV};
use crate::terrain::{banks_digest, cells_digest, terrain_digest, TerrainV};
use crate::world::{
    entities_digest, ground_digest, rows_digest, stats_digest, world_hash, GroundItem, Stats,
    WorldV,
};
use vstd::prelude::*;

verus! {

/// Two numbers differ, and in their lowest byte only.
pub open spec fn near(a: int, b: int) -> bool {
    a != b && a / 256 == b / 256
}

/// Two strings of bytes differ in one byte, the one at `i`.
pub open spec fn apart_at(s: Seq<u8>, t: Seq<u8>, i: int) -> bool {
    &&& s.len() == t.len()
    &&& 0 <= i < s.len()
    &&& s[i] != t[i]
    &&& forall|k: int| 0 <= k < s.len() && k != i ==> #[trigger] s[k] == t[k]
}

/// A round loses nothing: with the same byte, different states stay different, and
/// in the same state, different bytes make different states.
proof fn lemma_round(a: u64, b: u64, x: u8, y: u8)
    ensures
        a != b ==> fnv_round(a, x) != fnv_round(b, x),
        x != y ==> fnv_round(a, x) != fnv_round(a, y),
{
    let (x64, y64) = (x as u64, y as u64);
    assert(a != b ==> a ^ x64 != b ^ x64) by (bit_vector);
    assert(x64 != y64 ==> a ^ x64 != a ^ y64) by (bit_vector);
    if a != b {
        lemma_times_prime(a ^ x64, b ^ x64);
    }
    if x != y {
        lemma_times_prime(a ^ x64, a ^ y64);
    }
}

/// The prime has an inverse to the power of two that products wrap at.
proof fn lemma_times_prime(a: u64, b: u64)
    requires
        a != b,
    ensures
        a.wrapping_mul(FNV_PRIME) != b.wrapping_mul(FNV_PRIME),
{
    let m = 0x1_0000_0000_0000_0000int;
    let p = 0x100_0000_01b3int;
    let q = 0xce96_5057_aff6_957bint;
    let k = 887_285_111_055int;
    assert(p * q == 1 + k * m);
    let (x, y) = (a * p, b * p);
    if a.wrapping_mul(FNV_PRIME) == b.wrapping_mul(FNV_PRIME) {
        assert(x % m == y % m);
        let (c, d) = (x / m, y / m);
        assert(x == m * c + x % m && y == m * d + y % m);
        let z = a - b;
        assert(z * p == m * (c - d)) by (nonlinear_arith)
            requires
                a * p == m * c + x % m,
                b * p == m * d + x % m,
                z == a - b,
        ;
        assert(z * (p * q) == m * ((c - d) * q)) by (nonlinear_arith)
            requires
                z * p == m * (c - d),
        ;
        assert(z * (1 + k * m) == z + m * (z * k)) by (nonlinear_arith);
        let w = (c - d) * q - z * k;
        assert(z == m * w) by (nonlinear_arith)
            requires
                z + m * (z * k) == m * ((c - d) * q),
                w == (c - d) * q - z * k,
        ;
        assert(-m < z < m);
        assert(w == 0) by (nonlinear_arith)
            requires
                z == m * w,
                -m < z < m,
                m > 0,
        ;
    }
}

/// Hashing on with the same bytes keeps different states different.
pub proof fn law_hashing_on_keeps_states_apart(a: u64, b: u64, s: Seq<u8>)
    requires
        a != b,
    ensures
        fnv(a, s) != fnv(b, s),
    decreases s.len(),
{
    if s.len() > 0 {
        law_hashing_on_keeps_states_apart(a, b, s.drop_last());
        lemma_round(fnv(a, s.drop_last()), fnv(b, s.drop_last()), s.last(), 0);
    }
}

/// A string that is changed in one byte has another hash.
pub proof fn law_a_changed_byte_changes_the_hash(h: u64, s: Seq<u8>, t: Seq<u8>, i: int)
    requires
        apart_at(s, t, i),
    ensures
        fnv(h, s) != fnv(h, t),
    decreases s.len(),
{
    let (p, q) = (s.drop_last(), t.drop_last());
    if i == s.len() - 1 {
        assert(p =~= q);
        lemma_round(fnv(h, p), 0, s.last(), t.last());
    } else {
        assert forall|k: int| 0 <= k < p.len() && k != i implies #[trigger] p[k] == q[k] by {
            assert(s[k] == t[k]);
        }
        assert(s[s.len() - 1] == t[s.len() - 1]);
        law_a_changed_byte_changes_the_hash(h, p, q, i);
        lemma_round(fnv(h, p), fnv(h, q), s.last(), 0);
    }
}

/// Hashing on keeps states apart, whatever is hashed.
proof fn lemma_keeps()
    ensures
        forall|a: u64, b: u64, s: Seq<u8>|
            #![trigger fnv(a, s), fnv(b, s)]
            a != b ==> fnv(a, s) != fnv(b, s),
{
    assert forall|a: u64, b: u64, s: Seq<u8>|
        #![trigger fnv(a, s), fnv(b, s)]
        a != b implies fnv(a, s) != fnv(b, s) by {
        law_hashing_on_keeps_states_apart(a, b, s);
    }
}

proof fn lemma_keeps_lists(a: u64, b: u64, s: Seq<u64>, t: Seq<u32>, u: Seq<u16>, v: Seq<i32>)
    requires
        a != b,
    ensures
        digest_u64s(a, s) != digest_u64s(b, s),
        digest_u32s(a, t) != digest_u32s(b, t),
        digest_u16s(a, u) != digest_u16s(b, u),
        digest_i32s(a, v) != digest_i32s(b, v),
    decreases s.len() + t.len() + u.len() + v.len(),
{
    lemma_keeps();
    if s.len() > 0 {
        lemma_keeps_lists(a, b, s.drop_last(), t, u, v);
    } else if t.len() > 0 {
        lemma_keeps_lists(a, b, s, t.drop_last(), u, v);
    } else if u.len() > 0 {
        lemma_keeps_lists(a, b, s, t, u.drop_last(), v);
    } else if v.len() > 0 {
        lemma_keeps_lists(a, b, s, t, u, v.drop_last());
    }
}

proof fn lemma_keeps_all_lists()
    ensures
        forall|a: u64, b: u64, s: Seq<u8>|
            #![trigger fnv(a, s), fnv(b, s)]
            a != b ==> fnv(a, s) != fnv(b, s),
        forall|a: u64, b: u64, s: Seq<u64>|
            #![trigger digest_u64s(a, s), digest_u64s(b, s)]
            a != b ==> digest_u64s(a, s) != digest_u64s(b, s),
        forall|a: u64, b: u64, s: Seq<u32>|
            #![trigger digest_u32s(a, s), digest_u32s(b, s)]
            a != b ==> digest_u32s(a, s) != digest_u32s(b, s),
        forall|a: u64, b: u64, s: Seq<u16>|
            #![trigger digest_u16s(a, s), digest_u16s(b, s)]
            a != b ==> digest_u16s(a, s) != digest_u16s(b, s),
        forall|a: u64, b: u64, s: Seq<i32>|
            #![trigger digest_i32s(a, s), digest_i32s(b, s)]
            a != b ==> digest_i32s(a, s) != digest_i32s(b, s),
{
    lemma_keeps();
    let (s0, t0, u0, v0) = (
        Seq::<u64>::empty(),
        Seq::<u32>::empty(),
        Seq::<u16>::empty(),
        Seq::<i32>::empty(),
    );
    assert forall|a: u64, b: u64, s: Seq<u64>|
        #![trigger digest_u64s(a, s), digest_u64s(b, s)]
        a != b implies digest_u64s(a, s) != digest_u64s(b, s) by {
        lemma_keeps_lists(a, b, s, t0, u0, v0);
    }
    assert forall|a: u64, b: u64, s: Seq<u32>|
        #![trigger digest_u32s(a, s), digest_u32s(b, s)]
        a != b implies digest_u32s(a, s) != digest_u32s(b, s) by {
        lemma_keeps_lists(a, b, s0, s, u0, v0);
    }
    assert forall|a: u64, b: u64, s: Seq<u16>|
        #![trigger digest_u16s(a, s), digest_u16s(b, s)]
        a != b implies digest_u16s(a, s) != digest_u16s(b, s) by {
        lemma_keeps_lists(a, b, s0, t0, s, v0);
    }
    assert forall|a: u64, b: u64, s: Seq<i32>|
        #![trigger digest_i32s(a, s), digest_i32s(b, s)]
        a != b implies digest_i32s(a, s) != digest_i32s(b, s) by {
        lemma_keeps_lists(a, b, s0, t0, u0, s);
    }
}

proof fn lemma_apart_numbers()
    ensures
        forall|h: u64, a: u32, b: u32|
            #![trigger fnv(h, le32(a)), fnv(h, le32(b))]
            near(a as int, b as int) ==> fnv(h, le32(a)) != fnv(h, le32(b)),
        forall|h: u64, a: u16, b: u16|
            #![trigger fnv(h, le16(a)), fnv(h, le16(b))]
            near(a as int, b as int) ==> fnv(h, le16(a)) != fnv(h, le16(b)),
        forall|h: u64, a: u64, b: u64|
            #![trigger fnv(h, le64(a)), fnv(h, le64(b))]
            near(a as int, b as int) ==> fnv(h, le64(a)) != fnv(h, le64(b)),
        forall|h: u64, a: u8, b: u8|
            #![trigger fnv(h, seq![a]), fnv(h, seq![b])]
            a != b ==> fnv(h, seq![a]) != fnv(h, seq![b]),
{
    assert forall|h: u64, a: u32, b: u32|
        #![trigger fnv(h, le32(a)), fnv(h, le32(b))]
        near(a as int, b as int) implies fnv(h, le32(a)) != fnv(h, le32(b)) by {
        assert(a / 65536 == (a / 256) / 256 && b / 65536 == (b / 256) / 256);
        assert(a / 16777216 == (a / 65536) / 256 && b / 16777216 == (b / 65536) / 256);
        assert(apart_at(le32(a), le32(b), 0));
        law_a_changed_byte_changes_the_hash(h, le32(a), le32(b), 0);
    }
    assert forall|h: u64, a: u16, b: u16|
        #![trigger fnv(h, le16(a)), fnv(h, le16(b))]
        near(a as int, b as int) implies fnv(h, le16(a)) != fnv(h, le16(b)) by {
        assert(apart_at(le16(a), le16(b), 0));
        law_a_changed_byte_changes_the_hash(h, le16(a), le16(b), 0);
    }
    assert forall|h: u64, a: u64, b: u64|
        #![trigger fnv(h, le64(a)), fnv(h, le64(b))]
        near(a as int, b as int) implies fnv(h, le64(a)) != fnv(h, le64(b)) by {
        let m = 0x1_0000_0000u64;
        assert(a / m == (a / 256) / 0x100_0000 && b / m == (b / 256) / 0x100_0000);
        let (c, d) = ((a % m) as u32, (b % m) as u32);
        assert(a % m == a - (a / m) * m && b % m == b - (b / m) * m);
        assert(c / 256 == d / 256 && c != d);
        assert(c / 65536 == (c / 256) / 256 && d / 65536 == (d / 256) / 256);
        assert(c / 16777216 == (c / 65536) / 256 && d / 16777216 == (d / 65536) / 256);
        assert(apart_at(le64(a), le64(b), 0));
        law_a_changed_byte_changes_the_hash(h, le64(a), le64(b), 0);
    }
    assert forall|h: u64, a: u8, b: u8|
        #![trigger fnv(h, seq![a]), fnv(h, seq![b])]
        a != b implies fnv(h, seq![a]) != fnv(h, seq![b]) by {
        assert(apart_at(seq![a], seq![b], 0));
        law_a_changed_byte_changes_the_hash(h, seq![a], seq![b], 0);
    }
}

/// Two lists of numbers differ in one of them, and there in the lowest byte.
pub open spec fn one_number_apart(s: Seq<u64>, t: Seq<u64>) -> bool {
    exists|k: int|
        0 <= k < s.len() && t == s.update(k, t[k]) && near(#[trigger] s[k] as int, t[k] as int)
}

/// Two loads differ in one item, in what it is of or in the lowest byte of how much.
pub open spec fn one_item_apart(s: Seq<Item>, t: Seq<Item>) -> bool {
    exists|k: int|
        0 <= k < s.len() && t == s.update(k, t[k]) && (if (#[trigger] s[k]).element
            == t[k].element {
            near(s[k].quantity as int, t[k].quantity as int)
        } else {
            s[k].quantity == t[k].quantity
        })
}

/// Two bodies differ in one thing, and where that is a number, in its lowest byte.
pub open spec fn one_apart(e: EntityV, o: EntityV) -> bool {
    ||| o == (EntityV { id: o.id, ..e }) && near(e.id as int, o.id as int)
    ||| o == (EntityV { element: o.element, ..e }) && e.element != o.element
    ||| o == (EntityV { kind: o.kind, ..e }) && e.kind != o.kind
    ||| o == (EntityV { pos: V2 { x: o.pos.x, ..e.pos }, ..e }) && near(
        e.pos.x.0 as u32 as int,
        o.pos.x.0 as u32 as int,
    )
    ||| o == (EntityV { pos: V2 { y: o.pos.y, ..e.pos }, ..e }) && near(
        e.pos.y.0 as u32 as int,
        o.pos.y.0 as u32 as int,
    )
    ||| o == (EntityV { heading: V2 { x: o.heading.x, ..e.heading }, ..e }) && near(
        e.heading.x.0 as u32 as int,
        o.heading.x.0 as u32 as int,
    )
    ||| o == (EntityV { heading: V2 { y: o.heading.y, ..e.heading }, ..e }) && near(
        e.heading.y.0 as u32 as int,
        o.heading.y.0 as u32 as int,
    )
    ||| o == (EntityV { age: o.age, ..e }) && near(e.age as int, o.age as int)
    ||| o == (EntityV { lifespan: o.lifespan, ..e }) && near(e.lifespan as int, o.lifespan as int)
    ||| o == (EntityV { hp: o.hp, ..e }) && near(e.hp as u32 as int, o.hp as u32 as int)
    ||| o == (EntityV { alive: o.alive, ..e }) && e.alive != o.alive
    ||| o == (EntityV { acted: o.acted, ..e }) && e.acted != o.acted
    ||| o == (EntityV { hunger: o.hunger, ..e }) && near(e.hunger as int, o.hunger as int)
    ||| o == (EntityV { size: o.size, ..e }) && near(e.size as int, o.size as int)
    ||| o == (EntityV { material: o.material, ..e }) && near(e.material as int, o.material as int)
    ||| o == (EntityV { carried: o.carried, ..e }) && one_number_apart(e.carried, o.carried)
    ||| o == (EntityV { items: o.items, ..e }) && one_item_apart(e.items, o.items)
    ||| o == (EntityV { action_ready_at: o.action_ready_at, ..e }) && one_number_apart(
        e.action_ready_at,
        o.action_ready_at,
    )
}

proof fn lemma_numbers_apart(h: u64, s: Seq<u64>, t: Seq<u64>, k: int)
    requires
        0 <= k < s.len(),
        t == s.update(k, t[k]),
        near(s[k] as int, t[k] as int),
    ensures
        digest_u64s(h, s) != digest_u64s(h, t),
    decreases s.len(),
{
    lemma_keeps();
    lemma_apart_numbers();
    let (p, q) = (s.drop_last(), t.drop_last());
    if k == s.len() - 1 {
        assert(p =~= q);
    } else {
        assert(q =~= p.update(k, q[k]));
        lemma_numbers_apart(h, p, q, k);
        assert(s.last() == t.last());
    }
}

proof fn lemma_items_keep(a: u64, b: u64, s: Seq<Item>)
    requires
        a != b,
    ensures
        items_digest(a, s) != items_digest(b, s),
    decreases s.len(),
{
    lemma_keeps();
    if s.len() > 0 {
        lemma_items_keep(a, b, s.drop_last());
    }
}

proof fn lemma_items_apart(h: u64, s: Seq<Item>, t: Seq<Item>, k: int)
    requires
        0 <= k < s.len(),
        t == s.update(k, t[k]),
        if s[k].element == t[k].element {
            near(s[k].quantity as int, t[k].quantity as int)
        } else {
            s[k].quantity == t[k].quantity
        },
    ensures
        items_digest(h, s) != items_digest(h, t),
    decreases s.len(),
{
    lemma_keeps();
    lemma_apart_numbers();
    let (p, q) = (s.drop_last(), t.drop_last());
    if k == s.len() - 1 {
        assert(p =~= q);
        let m = items_digest(h, p);
        let (x, y) = (s[k], t[k]);
        crate::element::law_ring_positions(x.element, 0);
        crate::element::law_ring_positions(y.element, 0);
        let (i, j) = (x.element.at() as u8, y.element.at() as u8);
        assert(fnv(m, seq![i]) == fnv(m, seq![j]) ==> i == j);
    } else {
        assert(q =~= p.update(k, q[k]));
        lemma_items_apart(h, p, q, k);
        assert(s.last() == t.last());
    }
}

/// Bodies that differ in one thing have different hashes; so the hash takes in
/// everything that a body is.
pub proof fn law_the_hash_sees_a_body(h: u64, e: EntityV, o: EntityV)
    requires
        one_apart(e, o),
    ensures
        entity_digest(h, e) != entity_digest(h, o),
{
    lemma_keeps_all_lists();
    lemma_apart_numbers();
    crate::element::law_ring_positions(e.element, 0);
    crate::element::law_ring_positions(o.element, 0);
    if o == (EntityV { carried: o.carried, ..e }) && one_number_apart(e.carried, o.carried) {
        let k = choose|k: int|
            0 <= k < e.carried.len() && o.carried == e.carried.update(k, o.carried[k]) && near(
                #[trigger] e.carried[k] as int,
                o.carried[k] as int,
            );
        assert forall|a: u64| digest_u64s(a, e.carried) != #[trigger] digest_u64s(a, o.carried) by {
            lemma_numbers_apart(a, e.carried, o.carried, k);
        }
    }
    if o == (EntityV { action_ready_at: o.action_ready_at, ..e }) && one_number_apart(
        e.action_ready_at,
        o.action_ready_at,
    ) {
        let k = choose|k: int|
            0 <= k < e.action_ready_at.len() && o.action_ready_at == e.action_ready_at.update(
                k,
                o.action_ready_at[k],
            ) && near(#[trigger] e.action_ready_at[k] as int, o.action_ready_at[k] as int);
        assert forall|a: u64|
            digest_u64s(a, e.action_ready_at) != #[trigger] digest_u64s(a, o.action_ready_at) by {
            lemma_numbers_apart(a, e.action_ready_at, o.action_ready_at, k);
        }
    }
    if o == (EntityV { items: o.items, ..e }) && one_item_apart(e.items, o.items) {
        let k = choose|k: int|
            0 <= k < e.items.len() && o.items == e.items.update(k, o.items[k]) && (if (
            #[trigger] e.items[k]).element == o.items[k].element {
                near(e.items[k].quantity as int, o.items[k].quantity as int)
            } else {
                e.items[k].quantity == o.items[k].quantity
            });
        assert forall|a: u64| items_digest(a, e.items) != #[trigger] items_digest(a, o.items) by {
            lemma_items_apart(a, e.items, o.items, k);
        }
    }
    assert forall|a: u64, b: u64|
        #![trigger items_digest(a, e.items), items_digest(b, e.items)]
        a != b implies items_digest(a, e.items) != items_digest(b, e.items) by {
        lemma_items_keep(a, b, e.items);
    }
}

proof fn lemma_body_keeps(a: u64, b: u64, e: EntityV)
    requires
        a != b,
    ensures
        entity_digest(a, e) != entity_digest(b, e),
{
    lemma_keeps_all_lists();
    assert forall|a: u64, b: u64|
        #![trigger items_digest(a, e.items), items_digest(b, e.items)]
        a != b implies items_digest(a, e.items) != items_digest(b, e.items) by {
        lemma_items_keep(a, b, e.items);
    }
}

proof fn lemma_bodies_keep(a: u64, b: u64, s: Seq<EntityV>)
    requires
        a != b,
    ensures
        entities_digest(a, s) != entities_digest(b, s),
    decreases s.len(),
{
    if s.len() > 0 {
        lemma_bodies_keep(a, b, s.drop_last());
        lemma_body_keeps(
            entities_digest(a, s.drop_last()),
            entities_digest(b, s.drop_last()),
            s.last(),
        );
    }
}

proof fn lemma_bodies_apart(h: u64, s: Seq<EntityV>, t: Seq<EntityV>, k: int)
    requires
        0 <= k < s.len(),
        t == s.update(k, t[k]),
        one_apart(s[k], t[k]),
    ensures
        entities_digest(h, s) != entities_digest(h, t),
    decreases s.len(),
{
    let (p, q) = (s.drop_last(), t.drop_last());
    if k == s.len() - 1 {
        assert(p =~= q);
        law_the_hash_sees_a_body(entities_digest(h, p), s[k], t[k]);
    } else {
        assert(q =~= p.update(k, q[k]));
        lemma_bodies_apart(h, p, q, k);
        assert(s.last() == t.last());
        lemma_body_keeps(entities_digest(h, p), entities_digest(h, q), s.last());
    }
}

proof fn lemma_cells_keep(a: u64, b: u64, s: Seq<Seq<u16>>)
    requires
        a != b,
    ensures
        cells_digest(a, s) != cells_digest(b, s),
    decreases s.len(),
{
    lemma_keeps_all_lists();
    if s.len() > 0 {
        lemma_cells_keep(a, b, s.drop_last());
    }
}

proof fn lemma_stocks_apart(h: u64, s: Seq<u16>, t: Seq<u16>, k: int)
    requires
        0 <= k < s.len(),
        t == s.update(k, t[k]),
        near(s[k] as int, t[k] as int),
    ensures
        digest_u16s(h, s) != digest_u16s(h, t),
    decreases s.len(),
{
    lemma_keeps();
    lemma_apart_numbers();
    let (p, q) = (s.drop_last(), t.drop_last());
    if k == s.len() - 1 {
        assert(p =~= q);
    } else {
        assert(q =~= p.update(k, q[k]));
        lemma_stocks_apart(h, p, q, k);
        assert(s.last() == t.last());
    }
}

proof fn lemma_cells_apart(h: u64, s: Seq<Seq<u16>>, t: Seq<Seq<u16>>, c: int, k: int)
    requires
        0 <= c < s.len(),
        t == s.update(c, t[c]),
        0 <= k < s[c].len(),
        t[c] == s[c].update(k, t[c][k]),
        near(s[c][k] as int, t[c][k] as int),
    ensures
        cells_digest(h, s) != cells_digest(h, t),
    decreases s.len(),
{
    lemma_keeps_all_lists();
    let (p, q) = (s.drop_last(), t.drop_last());
    if c == s.len() - 1 {
        assert(p =~= q);
        lemma_stocks_apart(cells_digest(h, p), s[c], t[c], k);
    } else {
        assert(q =~= p.update(c, q[c]));
        lemma_cells_apart(h, p, q, c, k);
        assert(s.last() == t.last());
    }
}

proof fn lemma_banks_keep(a: u64, b: u64, s: Seq<Seq<u64>>)
    requires
        a != b,
    ensures
        banks_digest(a, s) != banks_digest(b, s),
    decreases s.len(),
{
    lemma_keeps_all_lists();
    if s.len() > 0 {
        lemma_banks_keep(a, b, s.drop_last());
    }
}

proof fn lemma_banks_apart(h: u64, s: Seq<Seq<u64>>, t: Seq<Seq<u64>>, c: int, k: int)
    requires
        0 <= c < s.len(),
        t == s.update(c, t[c]),
        0 <= k < s[c].len(),
        t[c] == s[c].update(k, t[c][k]),
        near(s[c][k] as int, t[c][k] as int),
    ensures
        banks_digest(h, s) != banks_digest(h, t),
    decreases s.len(),
{
    lemma_keeps_all_lists();
    let (p, q) = (s.drop_last(), t.drop_last());
    if c == s.len() - 1 {
        assert(p =~= q);
        lemma_numbers_apart(banks_digest(h, p), s[c], t[c], k);
    } else {
        assert(q =~= p.update(c, q[c]));
        lemma_banks_apart(h, p, q, c, k);
        assert(s.last() == t.last());
    }
}

proof fn lemma_ground_keeps(a: u64, b: u64, s: Seq<GroundItem>)
    requires
        a != b,
    ensures
        ground_digest(a, s) != ground_digest(b, s),
    decreases s.len(),
{
    lemma_keeps();
    if s.len() > 0 {
        lemma_ground_keeps(a, b, s.drop_last());
    }
}

/// Two piles differ in one thing, and where that is a number, in its lowest byte.
pub open spec fn one_pile_apart(p: GroundItem, q: GroundItem) -> bool {
    ||| q == (GroundItem { element: q.element, ..p }) && p.element != q.element
    ||| q == (GroundItem { quantity: q.quantity, ..p }) && near(
        p.quantity as int,
        q.quantity as int,
    )
    ||| q == (GroundItem { pos: V2 { x: q.pos.x, ..p.pos }, ..p }) && near(
        p.pos.x.0 as u32 as int,
        q.pos.x.0 as u32 as int,
    )
    ||| q == (GroundItem { pos: V2 { y: q.pos.y, ..p.pos }, ..p }) && near(
        p.pos.y.0 as u32 as int,
        q.pos.y.0 as u32 as int,
    )
}

proof fn lemma_ground_apart(h: u64, s: Seq<GroundItem>, t: Seq<GroundItem>, k: int)
    requires
        0 <= k < s.len(),
        t == s.update(k, t[k]),
        one_pile_apart(s[k], t[k]),
    ensures
        ground_digest(h, s) != ground_digest(h, t),
    decreases s.len(),
{
    lemma_keeps();
    lemma_apart_numbers();
    let (p, q) = (s.drop_last(), t.drop_last());
    if k == s.len() - 1 {
        assert(p =~= q);
        crate::element::law_ring_positions(s[k].element, 0);
        crate::element::law_ring_positions(t[k].element, 0);
    } else {
        assert(q =~= p.update(k, q[k]));
        lemma_ground_apart(h, p, q, k);
        assert(s.last() == t.last());
    }
}

proof fn lemma_actions_keep(a: u64, b: u64, s: Seq<ActionRecipe>)
    requires
        a != b,
    ensures
        actions_digest(a, s) != actions_digest(b, s),
    decreases s.len(),
{
    lemma_keeps();
    if s.len() > 0 {
        lemma_actions_keep(a, b, s.drop_last());
    }
}

proof fn lemma_rows_keep(a: u64, b: u64, s: Seq<RaceAttrsV>)
    requires
        a != b,
    ensures
        rows_digest(a, s) != rows_digest(b, s),
    decreases s.len(),
{
    lemma_keeps();
    if s.len() > 0 {
        let r = s.last();
        lemma_rows_keep(a, b, s.drop_last());
        assert forall|x: u64, y: u64|
            #![trigger actions_digest(x, r.actions), actions_digest(y, r.actions)]
            x != y implies actions_digest(x, r.actions) != actions_digest(y, r.actions) by {
            lemma_actions_keep(x, y, r.actions);
        }
    }
}

/// Hashing the tables and the counts of a world keeps states apart.
proof fn lemma_tables_keep(a: u64, b: u64, w: WorldV)
    requires
        a != b,
    ensures
        w.terrain_tuning.digest(a) != w.terrain_tuning.digest(b),
        w.ecology.digest(a) != w.ecology.digest(b),
        w.behavior.digest(a) != w.behavior.digest(b),
        w.propagation.digest(a) != w.propagation.digest(b),
        governor_digest(a, w.decay) != governor_digest(b, w.decay),
        stats_digest(a, w.stats) != stats_digest(b, w.stats),
        rows_digest(a, w.races) != rows_digest(b, w.races),
{
    lemma_keeps_all_lists();
    lemma_rows_keep(a, b, w.races);
}

/// Two sets of counts differ in one, and there in the lowest byte.
pub open spec fn one_count_apart(s: Stats, t: Stats) -> bool {
    ||| t == (Stats { births: t.births, ..s }) && near(s.births as int, t.births as int)
    ||| t == (Stats { deaths: t.deaths, ..s }) && near(s.deaths as int, t.deaths as int)
    ||| t == (Stats { collisions: t.collisions, ..s }) && near(
        s.collisions as int,
        t.collisions as int,
    )
    ||| t == (Stats { actions: t.actions, ..s }) && near(s.actions as int, t.actions as int)
    ||| t == (Stats { feedings: t.feedings, ..s }) && near(s.feedings as int, t.feedings as int)
    ||| t == (Stats { starved: t.starved, ..s }) && near(s.starved as int, t.starved as int)
    ||| t == (Stats { grazed: t.grazed, ..s }) && near(s.grazed as int, t.grazed as int)
    ||| t == (Stats { hunted: t.hunted, ..s }) && near(s.hunted as int, t.hunted as int)
    ||| t == (Stats { fled: t.fled, ..s }) && near(s.fled as int, t.fled as int)
    ||| t == (Stats { propagated: t.propagated, ..s }) && near(
        s.propagated as int,
        t.propagated as int,
    )
    ||| t == (Stats { rooted_rejected: t.rooted_rejected, ..s }) && near(
        s.rooted_rejected as int,
        t.rooted_rejected as int,
    )
}

proof fn lemma_counts_apart(h: u64, s: Stats, t: Stats)
    requires
        one_count_apart(s, t),
    ensures
        stats_digest(h, s) != stats_digest(h, t),
{
    lemma_keeps();
    lemma_apart_numbers();
}

/// What follows the bodies in a world's hash.
spec fn from_terrain(h: u64, w: WorldV) -> u64 {
    from_tables(terrain_digest(h, w.terrain), w)
}

spec fn from_tables(h: u64, w: WorldV) -> u64 {
    let h = rows_digest(h, w.races);
    let h = w.terrain_tuning.digest(h);
    let h = w.ecology.digest(h);
    let h = w.behavior.digest(h);
    let h = w.propagation.digest(h);
    from_decay(governor_digest(h, w.decay), w)
}

spec fn from_decay(h: u64, w: WorldV) -> u64 {
    let h = fnv(h, le32(w.ground.len() as u32));
    stats_digest(ground_digest(h, w.ground), w.stats)
}

proof fn lemma_from_decay(a: u64, b: u64, w: WorldV)
    requires
        a != b,
    ensures
        from_decay(a, w) != from_decay(b, w),
{
    let bytes = le32(w.ground.len() as u32);
    law_hashing_on_keeps_states_apart(a, b, bytes);
    let (x, y) = (fnv(a, bytes), fnv(b, bytes));
    lemma_ground_keeps(x, y, w.ground);
    lemma_tables_keep(ground_digest(x, w.ground), ground_digest(y, w.ground), w);
}

proof fn lemma_from_tables(a: u64, b: u64, w: WorldV)
    requires
        a != b,
    ensures
        from_tables(a, w) != from_tables(b, w),
{
    lemma_tables_keep(a, b, w);
    let (a, b) = (rows_digest(a, w.races), rows_digest(b, w.races));
    lemma_tables_keep(a, b, w);
    let (a, b) = (w.terrain_tuning.digest(a), w.terrain_tuning.digest(b));
    lemma_tables_keep(a, b, w);
    let (a, b) = (w.ecology.digest(a), w.ecology.digest(b));
    lemma_tables_keep(a, b, w);
    let (a, b) = (w.behavior.digest(a), w.behavior.digest(b));
    lemma_tables_keep(a, b, w);
    let (a, b) = (w.propagation.digest(a), w.propagation.digest(b));
    lemma_tables_keep(a, b, w);
    lemma_from_decay(governor_digest(a, w.decay), governor_digest(b, w.decay), w);
}

proof fn lemma_from_terrain(a: u64, b: u64, w: WorldV)
    requires
        a != b,
    ensures
        from_terrain(a, w) != from_terrain(b, w),
{
    let t = w.terrain;
    let side = le32(t.side as i32 as u32);
    law_hashing_on_keeps_states_apart(a, b, side);
    let (x, y) = (fnv(a, side), fnv(b, side));
    lemma_cells_keep(x, y, t.cells);
    lemma_banks_keep(cells_digest(x, t.cells), cells_digest(y, t.cells), t.overflow);
    lemma_from_tables(terrain_digest(a, t), terrain_digest(b, t), w);
}

/// What the hash of a world begins with, up to the bodies.
spec fn opening(w: WorldV) -> u64 {
    let h = fnv(crate::hash::FNV_OFFSET, le64(w.seed));
    let h = fnv(h, le64(w.tick));
    let h = fnv(h, le32(w.next_id));
    let h = fnv(h, le32(w.size.0 as u32));
    fnv(h, le32(w.ents.len() as u32))
}

proof fn lemma_hash_parts(w: WorldV)
    ensures
        world_hash(w) == from_terrain(entities_digest(opening(w), w.ents), w),
{
    reveal(world_hash);
}

/// The hash takes in every body of a world, living or dead: a world in which one
/// thing about one body is different has another hash.
pub proof fn law_the_hash_sees_every_body(w: WorldV, u: WorldV, k: int)
    requires
        u == (WorldV { ents: u.ents, ..w }),
        0 <= k < w.ents.len(),
        u.ents == w.ents.update(k, u.ents[k]),
        one_apart(w.ents[k], u.ents[k]),
    ensures
        world_hash(w) != world_hash(u),
{
    lemma_hash_parts(w);
    lemma_hash_parts(u);
    let h = opening(w);
    lemma_bodies_apart(h, w.ents, u.ents, k);
    let (a, b) = (entities_digest(h, w.ents), entities_digest(h, u.ents));
    lemma_from_terrain(a, b, w);
    assert(from_terrain(b, w) == from_terrain(b, u)) by {
        assert(from_decay(0, w) == from_decay(0, u));
    }
}

/// The hash takes in every stock of every cell, and what was banked beyond it.
pub proof fn law_the_hash_sees_the_ground(w: WorldV, u: WorldV, c: int, k: int)
    requires
        u == (WorldV { terrain: u.terrain, ..w }),
        ({
            let (s, t) = (w.terrain, u.terrain);
            ||| t == (TerrainV { cells: t.cells, ..s }) && 0 <= c < s.cells.len() && t.cells
                == s.cells.update(c, t.cells[c]) && 0 <= k < s.cells[c].len() && t.cells[c]
                == s.cells[c].update(k, t.cells[c][k]) && near(
                s.cells[c][k] as int,
                t.cells[c][k] as int,
            )
            ||| t == (TerrainV { overflow: t.overflow, ..s }) && 0 <= c < s.overflow.len()
                && t.overflow == s.overflow.update(c, t.overflow[c]) && 0 <= k
                < s.overflow[c].len() && t.overflow[c] == s.overflow[c].update(
                k,
                t.overflow[c][k],
            ) && near(s.overflow[c][k] as int, t.overflow[c][k] as int)
        }),
    ensures
        world_hash(w) != world_hash(u),
{
    lemma_hash_parts(w);
    lemma_hash_parts(u);
    let (s, t) = (w.terrain, u.terrain);
    let h = entities_digest(opening(w), w.ents);
    let m = fnv(h, le32(s.side as i32 as u32));
    if t == (TerrainV { cells: t.cells, ..s }) && 0 <= c < s.cells.len() && t.cells
        == s.cells.update(c, t.cells[c]) && 0 <= k < s.cells[c].len() && t.cells[c]
        == s.cells[c].update(k, t.cells[c][k]) && near(s.cells[c][k] as int, t.cells[c][k] as int) {
        lemma_cells_apart(m, s.cells, t.cells, c, k);
        lemma_banks_keep(cells_digest(m, s.cells), cells_digest(m, t.cells), s.overflow);
    } else {
        lemma_banks_apart(cells_digest(m, s.cells), s.overflow, t.overflow, c, k);
    }
    let (a, b) = (terrain_digest(h, s), terrain_digest(h, t));
    lemma_from_tables(a, b, w);
    assert(from_tables(b, w) == from_tables(b, u)) by {
        assert(from_decay(0, w) == from_decay(0, u));
    }
}

/// The hash takes in what lies about, how far decay has run and what was counted.
pub proof fn law_the_hash_sees_the_rest(w: WorldV, u: WorldV, k: int)
    requires
        ({
            ||| u == (WorldV { ground: u.ground, ..w }) && 0 <= k < w.ground.len() && u.ground
                == w.ground.update(k, u.ground[k]) && one_pile_apart(w.ground[k], u.ground[k])
            ||| u == (WorldV { stats: u.stats, ..w }) && one_count_apart(w.stats, u.stats)
            ||| u == (WorldV { decay: Governor { bucket: u.decay.bucket, ..w.decay }, ..w }) && near(
                w.decay.bucket as int,
                u.decay.bucket as int,
            )
        }),
    ensures
        world_hash(w) != world_hash(u),
{
    lemma_hash_parts(w);
    lemma_hash_parts(u);
    lemma_apart_numbers();
    let h = terrain_digest(entities_digest(opening(w), w.ents), w.terrain);
    let h = rows_digest(h, w.races);
    let h = w.terrain_tuning.digest(h);
    let h = w.ecology.digest(h);
    let h = w.behavior.digest(h);
    let h = w.propagation.digest(h);
    let (a, b) = (governor_digest(h, w.decay), governor_digest(h, u.decay));
    if w.decay != u.decay {
        assert(a != b);
        lemma_from_decay(a, b, w);
        assert(from_decay(b, w) == from_decay(b, u));
    } else {
        let m = fnv(a, le32(w.ground.len() as u32));
        let (x, y) = (ground_digest(m, w.ground), ground_digest(m, u.ground));
        if w.stats != u.stats {
            lemma_counts_apart(x, w.stats, u.stats);
        } else {
            lemma_ground_apart(m, w.ground, u.ground, k);
            lemma_tables_keep(x, y, w);
        }
    }
}

/// The hash takes in the seed, the tick and the next id.
pub proof fn law_the_hash_sees_the_clock(w: WorldV, u: WorldV)
    requires
        ({
            ||| u == (WorldV { seed: u.seed, ..w }) && near(w.seed as int, u.seed as int)
            ||| u == (WorldV { tick: u.tick, ..w }) && near(w.tick as int, u.tick as int)
            ||| u == (WorldV { next_id: u.next_id, ..w }) && near(
                w.next_id as int,
                u.next_id as int,
            )
        }),
    ensures
        world_hash(w) != world_hash(u),
{
    lemma_hash_parts(w);
    lemma_hash_parts(u);
    lemma_keeps();
    lemma_apart_numbers();
    assert(opening(w) != opening(u));
    lemma_bodies_keep(opening(w), opening(u), w.ents);
    let (a, b) = (entities_digest(opening(w), w.ents), entities_digest(opening(u), w.ents));
    lemma_from_terrain(a, b, w);
    assert(from_terrain(b, w) == from_terrain(b, u)) by {
        assert(from_decay(0, w) == from_decay(0, u));
    }
}

} // verus!
