//! Types of kernel values.

use crate::element::Elem;
use vstd::prelude::*;

verus! {

/// The type of a value: `vectorization` elements of one type. `native` tells a CUDA built-in
/// vector type from a struct with one field per element.
#[derive(Clone, Copy, Debug, PartialEq, Eq, Structural)]
pub struct Item {
    pub elem: Elem,
    pub vectorization: usize,
    pub native: bool,
}

impl Item {
    /// How many numbers a value of this type holds.
    pub open spec fn lanes(self) -> int {
        self.vectorization * self.elem.spec_packing_factor()
    }

    /// The numbers of a value can be counted.
    pub open spec fn fits(self) -> bool {
        self.lanes() <= usize::MAX
    }

    /// The same numbers, two to an element, where the element has a packed form and the numbers
    /// come out even.
    pub open spec fn spec_optimized(self) -> Item {
        let elem = match self.elem {
            Elem::F16 => Elem::F16x2,
            Elem::BF16 => Elem::BF16x2,
            Elem::FP4(kind) => Elem::FP4x2(kind),
            Elem::FP6(kind) => Elem::FP6x2(kind),
            Elem::FP8(kind) => Elem::FP8x2(kind),
            elem => elem,
        };
        if self.vectorization % 2 == 0 && elem != self.elem {
            Item { elem, vectorization: self.vectorization / 2, native: self.native }
        } else {
            self
        }
    }

    pub proof fn lemma_lanes(self)
        ensures
            self.elem.spec_packing_factor() == 1 ==> self.lanes() == self.vectorization,
            self.elem.spec_packing_factor() == 2 ==> self.lanes() == 2 * self.vectorization,
    {
        assert(self.elem.spec_packing_factor() == 2 ==> self.lanes() == 2 * self.vectorization)
            by (nonlinear_arith);
    }

    /// Packing keeps the numbers, and what they are. It does so at most once.
    pub proof fn lemma_optimized(self)
        ensures
            self.spec_optimized().lanes() == self.lanes(),
            self.spec_optimized().elem.spec_unpacked() == self.elem.spec_unpacked(),
            self.spec_optimized().native == self.native,
            self.spec_optimized().spec_optimized() == self.spec_optimized(),
    {
        let packed = self.spec_optimized();
        packed.lemma_lanes();
        self.lemma_lanes();
    }

    /// How many numbers each element holds.
    pub fn packing_factor(self) -> (factor: usize)
        ensures
            factor == self.elem.spec_packing_factor(),
    {
        self.elem.packing_factor()
    }

    /// Whether the numbers of a value can be counted.
    pub fn lanes_fit(self) -> (fit: bool)
        ensures
            fit == self.fits(),
    {
        proof {
            self.elem.lemma_packing_factor();
            self.lemma_lanes();
        }
        self.vectorization <= usize::MAX / self.packing_factor()
    }

    /// The same numbers, two to an element where they can be.
    pub fn optimized(self) -> (item: Item)
        ensures
            item == self.spec_optimized(),
    {
        if self.vectorization % 2 != 0 {
            return self;
        }
        let elem = match self.elem {
            Elem::F16 => Elem::F16x2,
            Elem::BF16 => Elem::BF16x2,
            Elem::FP4(kind) => Elem::FP4x2(kind),
            Elem::FP6(kind) => Elem::FP6x2(kind),
            Elem::FP8(kind) => Elem::FP8x2(kind),
            _ => return self,
        };
        Item { elem, vectorization: self.vectorization / 2, native: self.native }
    }
}

} // verus!
