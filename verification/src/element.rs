//! The five-element cycle: one set of relations, read by predation, by
//! terrain and by tuning alike.
//!
//! The order of the variants is the generating ring and never changes:
//!
//! ```text
//!   generating (ring, energy flows):  Wood -> Fire -> Earth -> Metal -> Water -> Wood
//!   overcoming (star, suppression):   Wood -> Earth -> Water -> Fire -> Metal -> Wood
//! ```
//!
//! With positions `0..5` in ring order every relation is arithmetic mod 5:
//! `generates = i + 1`, `eats = i - 1`, `suppresses = i + 2`,
//! `suppressed_by = i - 2`.
use std::ops::{Index, IndexMut};
use vstd::prelude::*;

verus! {

#[derive(Clone, Copy, PartialEq, Eq, PartialOrd, Ord, Debug, Hash, Structural)]
pub enum Element {
    Wood,
    Fire,
    Earth,
    Metal,
    Water,
}

/// The element at ring position `i`, counted around the ring.
pub open spec fn element_at(i: int) -> Element {
    let k = i % 5;
    if k == 0 {
        Element::Wood
    } else if k == 1 {
        Element::Fire
    } else if k == 2 {
        Element::Earth
    } else if k == 3 {
        Element::Metal
    } else {
        Element::Water
    }
}

impl Element {
    pub const COUNT: usize = 5;

    /// Every element, in ring order.
    pub const ALL: [Element; 5] = [
        Element::Wood,
        Element::Fire,
        Element::Earth,
        Element::Metal,
        Element::Water,
    ];

    /// The element's position on the ring.
    pub open spec fn at(self) -> int {
        match self {
            Element::Wood => 0,
            Element::Fire => 1,
            Element::Earth => 2,
            Element::Metal => 3,
            Element::Water => 4,
        }
    }

    pub fn index(self) -> (r: usize)
        ensures
            r == self.at(),
            r < 5,
    {
        match self {
            Element::Wood => 0,
            Element::Fire => 1,
            Element::Earth => 2,
            Element::Metal => 3,
            Element::Water => 4,
        }
    }

    pub fn from_index(i: usize) -> (r: Element)
        ensures
            r == element_at(i as int),
            r.at() == i % 5,
    {
        match i % 5 {
            0 => Element::Wood,
            1 => Element::Fire,
            2 => Element::Earth,
            3 => Element::Metal,
            _ => Element::Water,
        }
    }

    pub open spec fn spec_name(self) -> Seq<char> {
        match self {
            Element::Wood => "Wood"@,
            Element::Fire => "Fire"@,
            Element::Earth => "Earth"@,
            Element::Metal => "Metal"@,
            Element::Water => "Water"@,
        }
    }

    pub fn name(self) -> (r: &'static str)
        ensures
            r@ == self.spec_name(),
    {
        match self {
            Element::Wood => "Wood",
            Element::Fire => "Fire",
            Element::Earth => "Earth",
            Element::Metal => "Metal",
            Element::Water => "Water",
        }
    }

    pub open spec fn spec_generates(self) -> Element {
        element_at(self.at() + 1)
    }

    /// Ring, forward: what this element feeds. Wood generates Fire.
    #[verifier::when_used_as_spec(spec_generates)]
    pub fn generates(self) -> (r: Element)
        ensures
            r == self.spec_generates(),
    {
        Element::from_index(self.index() + 1)
    }

    pub open spec fn spec_eats(self) -> Element {
        element_at(self.at() - 1)
    }

    /// Ring, backward: what this element consumes. Fire eats Wood.
    #[verifier::when_used_as_spec(spec_eats)]
    pub fn eats(self) -> (r: Element)
        ensures
            r == self.spec_eats(),
    {
        Element::from_index(self.index() + 4)
    }

    pub open spec fn spec_suppresses(self) -> Element {
        element_at(self.at() + 2)
    }

    /// Star, forward: what this element nullifies. Fire suppresses Metal.
    #[verifier::when_used_as_spec(spec_suppresses)]
    pub fn suppresses(self) -> (r: Element)
        ensures
            r == self.spec_suppresses(),
    {
        Element::from_index(self.index() + 2)
    }

    pub open spec fn spec_suppressed_by(self) -> Element {
        element_at(self.at() - 2)
    }

    /// Star, backward: what nullifies this element. Fire is suppressed by Water.
    #[verifier::when_used_as_spec(spec_suppressed_by)]
    pub fn suppressed_by(self) -> (r: Element)
        ensures
            r == self.spec_suppressed_by(),
    {
        Element::from_index(self.index() + 3)
    }

    pub open spec fn spec_eaten_by(self) -> Element {
        self.spec_generates()
    }

    /// What eats this element. Fire is eaten by Earth.
    #[verifier::when_used_as_spec(spec_eaten_by)]
    pub fn eaten_by(self) -> (r: Element)
        ensures
            r == self.spec_eaten_by(),
    {
        self.generates()
    }

    pub open spec fn spec_eats_plant(self) -> Element {
        self
    }

    /// Grazing: an animal eats plants of its own element.
    #[verifier::when_used_as_spec(spec_eats_plant)]
    pub fn eats_plant(self) -> (r: Element)
        ensures
            r == self.spec_eats_plant(),
    {
        self
    }

    pub open spec fn spec_eats_animal(self) -> Element {
        self.spec_eats()
    }

    /// Hunting: an animal eats animals one step back on the ring.
    #[verifier::when_used_as_spec(spec_eats_animal)]
    pub fn eats_animal(self) -> (r: Element)
        ensures
            r == self.spec_eats_animal(),
    {
        self.eats()
    }

    pub open spec fn spec_habitat(self) -> Element {
        self.spec_eats()
    }

    /// What a race of this element draws from the terrain to sustain itself.
    #[verifier::when_used_as_spec(spec_habitat)]
    pub fn habitat(self) -> (r: Element)
        ensures
            r == self.spec_habitat(),
    {
        self.eats()
    }

    pub open spec fn spec_beats(self, other: Element) -> bool {
        self.spec_eats() == other || self.spec_suppresses() == other
    }

    /// Does `self` hold an advantage over `other`, on either edge?
    #[verifier::when_used_as_spec(spec_beats)]
    pub fn beats(self, other: Element) -> (r: bool)
        ensures
            r == self.spec_beats(other),
    {
        self.eats() == other || self.suppresses() == other
    }
}

/// Ring positions name elements one for one.
pub proof fn law_ring_positions(e: Element, i: int)
    ensures
        element_at(e.at()) == e,
        0 <= i < 5 ==> element_at(i).at() == i,
{
}

/// Going forward and back along either edge returns to the start, and the
/// ring closes after five steps.
#[verifier::rlimit(30)]
pub proof fn law_edges_are_inverse(e: Element)
    ensures
        e.generates().eats() == e,
        e.eats().generates() == e,
        e.suppresses().suppressed_by() == e,
        e.suppressed_by().suppresses() == e,
        e.habitat().generates() == e,
        e.eaten_by().eats_animal() == e,
        e.generates().generates().generates().generates().generates() == e,
        e.suppresses().suppresses().suppresses().suppresses().suppresses() == e,
{
}

/// Nothing beats itself, the two edges out of an element never coincide, and
/// no two elements beat each other.
pub proof fn law_advantage_is_one_way(a: Element, b: Element)
    ensures
        !a.beats(a),
        a.eats() != a.suppresses(),
        a.beats(b) ==> !b.beats(a),
        a != b ==> a.beats(b) || b.beats(a),
        !(a.eats_animal() == b && b.eats_animal() == a),
{
}

/// A value per element, in ring order.
#[derive(Clone, Copy, PartialEq, Eq, Debug, Default)]
pub struct PerElement<T>(pub [T; 5]);

impl<T> View for PerElement<T> {
    type V = Seq<T>;

    open spec fn view(&self) -> Seq<T> {
        self.0@
    }
}

impl<T> PerElement<T> {
    pub fn get(&self, e: Element) -> (r: &T)
        ensures
            *r == self@[e.at()],
    {
        &self.0[e.index()]
    }

    pub fn get_mut(&mut self, e: Element) -> (r: &mut T)
        ensures
            *r == old(self)@[e.at()],
            final(self)@ == old(self)@.update(e.at(), *final(r)),
    {
        &mut self.0[e.index()]
    }

    pub fn set(&mut self, e: Element, v: T)
        ensures
            final(self)@ == old(self)@.update(e.at(), v),
    {
        self.0[e.index()] = v;
    }
}

impl<T> PerElement<T> {
    /// The values with their elements, in ring order.
    pub fn iter(&self) -> (r: Vec<(Element, &T)>)
        ensures
            r@.len() == 5,
            forall|i: int|
                0 <= i < 5 ==> (#[trigger] r@[i]).0 == element_at(i) && *r@[i].1 == self@[i],
    {
        vec![
            (Element::Wood, &self.0[0]),
            (Element::Fire, &self.0[1]),
            (Element::Earth, &self.0[2]),
            (Element::Metal, &self.0[3]),
            (Element::Water, &self.0[4]),
        ]
    }
}

impl<T: Copy> PerElement<T> {
    pub fn filled(v: T) -> (r: PerElement<T>)
        ensures
            r@ == Seq::new(5, |i: int| v),
    {
        PerElement([v; 5])
    }
}

impl<T> Index<Element> for PerElement<T> {
    type Output = T;

    fn index(&self, e: Element) -> (r: &T)
        ensures
            *r == self@[e.at()],
    {
        &self.0[e.index()]
    }
}

impl<T> vstd::std_specs::core::IndexSpecImpl<Element> for PerElement<T> {
    open spec fn index_req(&self, e: &Element) -> bool {
        true
    }
}

impl<T> IndexMut<Element> for PerElement<T> {
    fn index_mut(&mut self, e: Element) -> (r: &mut T)
        ensures
            *r == old(self)@[e.at()],
            final(self)@ == old(self)@.update(e.at(), *final(r)),
    {
        &mut self.0[e.index()]
    }
}

} // verus!
