//! The public statement of a trip: its endpoints.

use crate::field::is_canonical;
use vstd::prelude::*;

verus! {

/// How many field elements a statement has.
pub const NUM_PUBLIC_ELEMENTS: usize = 6;

/// The disclosed endpoints of a trip, as canonical field elements: where and
/// when it starts (`lat`, `lon`, `time`) and ends (`next_lat`, `next_lon`,
/// `next_time`).
#[derive(Clone, Copy, Debug, PartialEq, Eq, Structural)]
pub struct PublicInputs {
    pub lat: u128,
    pub lon: u128,
    pub next_lat: u128,
    pub next_lon: u128,
    pub time: u128,
    pub next_time: u128,
}

impl PublicInputs {
    /// All six values are canonical field elements.
    pub open spec fn wf(self) -> bool {
        &&& is_canonical(self.lat)
        &&& is_canonical(self.lon)
        &&& is_canonical(self.next_lat)
        &&& is_canonical(self.next_lon)
        &&& is_canonical(self.time)
        &&& is_canonical(self.next_time)
    }

    /// The statement in the order in which prover and verifier bind it.
    pub open spec fn elements(self) -> Seq<u128> {
        seq![self.lat, self.lon, self.next_lat, self.next_lon, self.time, self.next_time]
    }

    /// The statement that a list of elements in binding order stands for.
    pub open spec fn from_elements_spec(elements: Seq<u128>) -> PublicInputs {
        PublicInputs {
            lat: elements[0],
            lon: elements[1],
            next_lat: elements[2],
            next_lon: elements[3],
            time: elements[4],
            next_time: elements[5],
        }
    }

    /// Whether all six values are canonical field elements.
    pub fn is_canonical(&self) -> (ok: bool)
        ensures
            ok == self.wf(),
    {
        self.lat < crate::field::MODULUS && self.lon < crate::field::MODULUS && self.next_lat
            < crate::field::MODULUS && self.next_lon < crate::field::MODULUS && self.time
            < crate::field::MODULUS && self.next_time < crate::field::MODULUS
    }

    /// The six elements in binding order: start latitude, start longitude, end
    /// latitude, end longitude, start time, end time.
    pub fn to_elements(&self) -> (elements: Vec<u128>)
        ensures
            elements@ == self.elements(),
    {
        let mut elements: Vec<u128> = Vec::new();
        elements.push(self.lat);
        elements.push(self.lon);
        elements.push(self.next_lat);
        elements.push(self.next_lon);
        elements.push(self.time);
        elements.push(self.next_time);
        assert(elements@ =~= self.elements());
        elements
    }

    /// Reads a statement back from its elements; `None` unless there are
    /// exactly six.
    pub fn from_elements(elements: &Vec<u128>) -> (r: Option<PublicInputs>)
        ensures
            r is Some <==> elements@.len() == NUM_PUBLIC_ELEMENTS,
            r matches Some(inputs) ==> inputs == Self::from_elements_spec(elements@)
                && inputs.elements() == elements@,
    {
        if elements.len() != NUM_PUBLIC_ELEMENTS {
            return None;
        }
        let inputs = PublicInputs {
            lat: elements[0],
            lon: elements[1],
            next_lat: elements[2],
            next_lon: elements[3],
            time: elements[4],
            next_time: elements[5],
        };
        assert(inputs.elements() =~= elements@);
        Some(inputs)
    }
}

/// Two statements with the same elements are the same statement: the order of
/// the elements loses nothing.
pub proof fn lemma_elements_injective(a: PublicInputs, b: PublicInputs)
    requires
        a.elements() == b.elements(),
    ensures
        a == b,
{
    let ea = a.elements();
    let eb = b.elements();
    assert(ea[0] == eb[0] && ea[1] == eb[1] && ea[2] == eb[2]);
    assert(ea[3] == eb[3] && ea[4] == eb[4] && ea[5] == eb[5]);
}

} // verus!
