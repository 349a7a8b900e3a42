//! How CUDA spells what a statement asks for.
//!
//! A statement initialises a variable with slots. Each slot is a call of one of CUDA's conversions,
//! or one half of the pair that such a call returns.

use crate::element::{Elem, FP4Kind, FP6Kind, FP8Kind};
use crate::text::{join, Shown, Text};
use crate::variable::{IndexedVariable, Instruction, UnaryInstruction, Variable};
use vstd::prelude::*;

verus! {

/// CUDA's conversions, by the types of the numbers that they take and give.
pub enum Intrinsic {
    /// A float to fp4, fp6 or fp8.
    Narrow { from: Elem, to: Elem },
    /// A float to the scaling factor.
    Scale { from: Elem },
    /// An fp4, fp6 or fp8 to half.
    Widen { from: Elem },
    /// The scaling factor to bfloat.
    Unscale,
}

impl Intrinsic {
    /// The type of a number that goes in.
    pub open spec fn source(self) -> Elem {
        match self {
            Intrinsic::Narrow { from, .. } => from,
            Intrinsic::Scale { from } => from,
            Intrinsic::Widen { from } => from,
            Intrinsic::Unscale => Elem::FP8(FP8Kind::UE8M0),
        }
    }

    /// The type of a number that comes out.
    pub open spec fn result(self) -> Elem {
        match self {
            Intrinsic::Narrow { to, .. } => to,
            Intrinsic::Scale { .. } => Elem::FP8(FP8Kind::UE8M0),
            Intrinsic::Widen { .. } => Elem::F16,
            Intrinsic::Unscale => Elem::BF16,
        }
    }
}

/// The conversion from one type of number to another, where a minifloat is involved.
pub open spec fn intrinsic(from: Elem, to: Elem) -> Intrinsic {
    if to == Elem::FP8(FP8Kind::UE8M0) {
        Intrinsic::Scale { from }
    } else if to is FP4 || to is FP6 || to is FP8 {
        Intrinsic::Narrow { from, to }
    } else if from == Elem::FP8(FP8Kind::UE8M0) {
        Intrinsic::Unscale
    } else {
        Intrinsic::Widen { from }
    }
}

/// Which part of what the call returns is meant.
pub enum Part {
    Whole,
    First,
    Second,
}

/// One initialiser: a conversion of one number or of a pair of them, what it reads, and the part
/// of its result that is meant.
pub struct Slot {
    pub call: Intrinsic,
    pub pair: bool,
    pub reads: Seq<IndexedVariable>,
    pub part: Part,
}

/// A float, in the names of the conversions to fp4, fp6 and fp8.
pub open spec fn float_word(elem: Elem, pair: bool) -> Seq<char> {
    match elem {
        Elem::TF32 => if pair { "float2"@ } else { "float"@ },
        Elem::F32 => if pair { "float2"@ } else { "float"@ },
        Elem::F64 => if pair { "double2"@ } else { "double"@ },
        Elem::F16 => if pair { "halfraw2"@ } else { "halfraw"@ },
        _ => if pair { "bfloat16raw2"@ } else { "bfloat16raw"@ },
    }
}

/// A float, in the names of the conversions to e8m0.
pub open spec fn scaled_float_word(elem: Elem, pair: bool) -> Seq<char> {
    match elem {
        Elem::TF32 => if pair { "float2"@ } else { "float"@ },
        Elem::F32 => if pair { "float2"@ } else { "float"@ },
        Elem::F64 => if pair { "double2"@ } else { "double"@ },
        _ => if pair { "bfloat162raw"@ } else { "bfloat16raw"@ },
    }
}

/// A minifloat, in the names of the conversions from and to it.
pub open spec fn minifloat_word(elem: Elem, pair: bool) -> Seq<char> {
    match elem {
        Elem::FP4(_) => if pair { "fp4x2"@ } else { "fp4"@ },
        Elem::FP6(_) => if pair { "fp6x2"@ } else { "fp6"@ },
        _ => if pair { "fp8x2"@ } else { "fp8"@ },
    }
}

/// How the bits of a minifloat are laid out, as the conversions are told.
pub open spec fn layout_word(elem: Elem) -> Seq<char> {
    match elem {
        Elem::FP4(FP4Kind::E2M1) => "E2M1"@,
        Elem::FP6(FP6Kind::E2M3) => "E2M3"@,
        Elem::FP6(FP6Kind::E3M2) => "E3M2"@,
        Elem::FP8(FP8Kind::E4M3) => "E4M3"@,
        Elem::FP8(FP8Kind::E5M2) => "E5M2"@,
        _ => "UE8M0"@,
    }
}

/// What the call reads: an element, or two that make up a pair.
pub open spec fn arguments(from: Elem, reads: Seq<IndexedVariable>) -> Text {
    if reads.len() == 2 {
        Text::empty().lit(
            if from is F64 {
                "double2"@
            } else {
                "float2"@
            },
        ).lit(" { "@).show(Shown::Indexed(reads[0])).lit(", "@).show(Shown::Indexed(reads[1])).lit(
            " }"@,
        )
    } else {
        Text::empty().show(Shown::Indexed(reads[0]))
    }
}

impl Slot {
    /// The call, with its name, what it reads, and how it is told to convert.
    pub open spec fn call_text(self) -> Text {
        let start = Text::empty();
        match self.call {
            Intrinsic::Narrow { from, to } => {
                let called = start.lit("__nv_cvt_"@).lit(float_word(from, self.pair)).lit(
                    "_to_"@,
                ).lit(minifloat_word(to, self.pair)).lit("("@).cat(arguments(from, self.reads));
                if to is FP8 {
                    called.lit(", __NV_NOSAT, __NV_"@).lit(layout_word(to)).lit(")"@)
                } else {
                    called.lit(", __NV_"@).lit(layout_word(to)).lit(", cudaRoundNearest)"@)
                }
            },
            Intrinsic::Scale { from } => {
                start.lit("__nv_cvt_"@).lit(scaled_float_word(from, self.pair)).lit("_to_"@).lit(
                    if self.pair {
                        "e8m0x2"@
                    } else {
                        "e8m0"@
                    },
                ).lit("("@).cat(arguments(from, self.reads)).lit(
                    ", __NV_NOSAT, cudaRoundPosInf)"@,
                )
            },
            Intrinsic::Widen { from } => if self.pair {
                start.lit("__half2(__nv_cvt_"@).lit(minifloat_word(from, true)).lit(
                    "_to_halfraw2("@,
                ).show(Shown::Indexed(self.reads[0])).lit(", __NV_"@).lit(layout_word(from)).lit(
                    "))"@,
                )
            } else {
                start.show(Shown::Elem(Elem::F16)).lit("(__nv_cvt_"@).lit(
                    minifloat_word(from, false),
                ).lit("_to_halfraw("@).show(Shown::Indexed(self.reads[0])).lit(", __NV_"@).lit(
                    layout_word(from),
                ).lit("))"@)
            },
            Intrinsic::Unscale => if self.pair {
                start.lit("__nv_bfloat162(__nv_cvt_e8m0x2_to_bf162raw("@).show(
                    Shown::Indexed(self.reads[0]),
                ).lit("))"@)
            } else {
                start.show(Shown::Elem(Elem::BF16)).lit("(__nv_cvt_e8m0_to_bf16raw("@).show(
                    Shown::Indexed(self.reads[0]),
                ).lit("))"@)
            },
        }
    }

    pub open spec fn text(self) -> Text {
        match self.part {
            Part::Whole => self.call_text(),
            Part::First => self.call_text().lit(".x"@),
            Part::Second => self.call_text().lit(".y"@),
        }
    }
}

pub open spec fn slot_texts(slots: Seq<Slot>) -> Seq<Text> {
    Seq::new(slots.len(), |i: int| slots[i].text())
}

/// The variable gets what the entries say: all of them in braces where it has several elements.
pub open spec fn initialiser(var: Variable, entries: Seq<Text>) -> Text {
    let left = Text::empty().show(Shown::Left(var)).lit(" = "@);
    if var.spec_item().vectorization > 1 {
        left.show(Shown::Item(var.spec_item())).lit(" {\n"@).cat(join(entries, ",\n"@)).lit(
            "\n}"@,
        ).lit(";\n"@)
    } else {
        left.cat(join(entries, ""@)).lit(";\n"@)
    }
}

/// `out` gets the bits of `from`.
pub open spec fn reinterpretation(out: Variable, from: Variable) -> Text {
    Text::empty().show(Shown::Left(out)).lit(" = reinterpret_cast<"@).show(
        Shown::Item(out.spec_item()),
    ).lit("&>("@).show(Shown::Variable(from)).lit(");\n"@)
}

/// The text fills `out`, as the packed type that it is or can be, with the entries. Where it is not
/// of that type itself, a temporary is filled and `out` gets its bits.
pub open spec fn fills(text: Text, out: Variable, tmp: u32, entries: Seq<Text>) -> bool {
    let packed = out.spec_item().spec_optimized();
    if packed == out.spec_item() {
        text == initialiser(out, entries)
    } else {
        let target = Variable::Tmp { id: tmp, item: packed };
        text == initialiser(target, entries).cat(reinterpretation(out, target))
    }
}

/// The text is one assignment of `input` to `out`, on a line of its own.
pub open spec fn assigns_plainly(text: Text, input: Variable, out: Variable) -> bool {
    text == Text::empty().show(
        Shown::Instruction(Instruction::Assign(UnaryInstruction { input, out })),
    ).lit("\n"@)
}

} // verus!
