//! Element types of kernel values.

use vstd::prelude::*;

verus! {

/// Interpretations of a four bit float.
#[derive(Clone, Copy, Debug, PartialEq, Eq, Structural)]
pub enum FP4Kind {
    E2M1,
}

/// Interpretations of a six bit float.
#[derive(Clone, Copy, Debug, PartialEq, Eq, Structural)]
pub enum FP6Kind {
    E2M3,
    E3M2,
}

/// Interpretations of an eight bit float. `UE8M0` is the unsigned power of two that serves as a
/// scaling factor.
#[derive(Clone, Copy, Debug, PartialEq, Eq, Structural)]
pub enum FP8Kind {
    E4M3,
    E5M2,
    UE8M0,
}

/// The type of one element of a value. The `x2` types hold two numbers in one element.
#[derive(Clone, Copy, Debug, PartialEq, Eq, Structural)]
pub enum Elem {
    TF32,
    F32,
    F64,
    F16,
    F16x2,
    BF16,
    BF16x2,
    FP4(FP4Kind),
    FP4x2(FP4Kind),
    FP6(FP6Kind),
    FP6x2(FP6Kind),
    FP8(FP8Kind),
    FP8x2(FP8Kind),
    I8,
    I16,
    I32,
    I64,
    U8,
    U16,
    U32,
    U64,
    Bool,
}

impl FP4Kind {
    pub open spec fn spec_name(self) -> Seq<char> {
        match self {
            FP4Kind::E2M1 => "E2M1"@,
        }
    }

    /// The name of the kind, as it stands in the CUDA interpretation constants.
    pub fn name(self) -> (name: &'static str)
        ensures
            name@ == self.spec_name(),
    {
        match self {
            FP4Kind::E2M1 => "E2M1",
        }
    }
}

impl FP6Kind {
    pub open spec fn spec_name(self) -> Seq<char> {
        match self {
            FP6Kind::E2M3 => "E2M3"@,
            FP6Kind::E3M2 => "E3M2"@,
        }
    }

    /// The name of the kind, as it stands in the CUDA interpretation constants.
    pub fn name(self) -> (name: &'static str)
        ensures
            name@ == self.spec_name(),
    {
        match self {
            FP6Kind::E2M3 => "E2M3",
            FP6Kind::E3M2 => "E3M2",
        }
    }
}

impl FP8Kind {
    pub open spec fn spec_name(self) -> Seq<char> {
        match self {
            FP8Kind::E4M3 => "E4M3"@,
            FP8Kind::E5M2 => "E5M2"@,
            FP8Kind::UE8M0 => "UE8M0"@,
        }
    }

    /// The name of the kind, as it stands in the CUDA interpretation constants.
    pub fn name(self) -> (name: &'static str)
        ensures
            name@ == self.spec_name(),
    {
        match self {
            FP8Kind::E4M3 => "E4M3",
            FP8Kind::E5M2 => "E5M2",
            FP8Kind::UE8M0 => "UE8M0",
        }
    }
}

impl Elem {
    /// The type of the single number that an element holds one or two of.
    pub open spec fn spec_unpacked(self) -> Elem {
        match self {
            Elem::F16x2 => Elem::F16,
            Elem::BF16x2 => Elem::BF16,
            Elem::FP4x2(kind) => Elem::FP4(kind),
            Elem::FP6x2(kind) => Elem::FP6(kind),
            Elem::FP8x2(kind) => Elem::FP8(kind),
            elem => elem,
        }
    }

    /// How many numbers an element holds.
    pub open spec fn spec_packing_factor(self) -> usize {
        match self {
            Elem::F16x2 => 2,
            Elem::BF16x2 => 2,
            Elem::FP4x2(_) => 2,
            Elem::FP6x2(_) => 2,
            Elem::FP8x2(_) => 2,
            _ => 1,
        }
    }

    /// The four and six bit floats, packed or not.
    pub open spec fn is_fp4_fp6(self) -> bool {
        self.spec_unpacked() is FP4 || self.spec_unpacked() is FP6
    }

    /// The eight bit floats, packed or not, the scaling factor among them.
    pub open spec fn is_fp8(self) -> bool {
        self.spec_unpacked() is FP8
    }

    /// The scaling factor e8m0, packed or not.
    pub open spec fn is_scale(self) -> bool {
        self.spec_unpacked() == Elem::FP8(FP8Kind::UE8M0)
    }

    /// The floats that only CUDA's conversion intrinsics can read or write.
    pub open spec fn is_minifloat(self) -> bool {
        self.is_fp4_fp6() || self.is_fp8()
    }

    /// The integers, and `bool`.
    pub open spec fn is_integer(self) -> bool {
        ||| self is U8
        ||| self is U16
        ||| self is U32
        ||| self is U64
        ||| self is I8
        ||| self is I16
        ||| self is I32
        ||| self is I64
        ||| self is Bool
    }

    /// The single precision floats.
    pub open spec fn is_single(self) -> bool {
        self is TF32 || self is F32
    }

    /// The floats that have no packed form.
    pub open spec fn is_wide(self) -> bool {
        self.is_single() || self is F64
    }

    /// The floats that CUDA computes with, one number to an element.
    pub open spec fn is_plain_float(self) -> bool {
        self.is_wide() || self is F16 || self is BF16
    }

    /// An element holds one number or two, and the type of one number holds one.
    pub proof fn lemma_packing_factor(self)
        ensures
            self.spec_packing_factor() == 1 || self.spec_packing_factor() == 2,
            self.spec_packing_factor() == 1 <==> self.spec_unpacked() == self,
            self.spec_unpacked().spec_unpacked() == self.spec_unpacked(),
    {
    }

    /// The type of the single number that an element holds one or two of.
    pub fn unpacked(self) -> (elem: Elem)
        ensures
            elem == self.spec_unpacked(),
    {
        match self {
            Elem::F16x2 => Elem::F16,
            Elem::BF16x2 => Elem::BF16,
            Elem::FP4x2(kind) => Elem::FP4(kind),
            Elem::FP6x2(kind) => Elem::FP6(kind),
            Elem::FP8x2(kind) => Elem::FP8(kind),
            elem => elem,
        }
    }

    /// How many numbers an element holds.
    pub fn packing_factor(self) -> (factor: usize)
        ensures
            factor == self.spec_packing_factor(),
    {
        match self {
            Elem::F16x2 | Elem::BF16x2 | Elem::FP4x2(_) | Elem::FP6x2(_) | Elem::FP8x2(_) => 2,
            _ => 1,
        }
    }
}

} // verus!
