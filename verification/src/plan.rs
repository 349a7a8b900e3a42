//! Which conversions lead from one type to another.

use crate::convert::{
    after_unroll, after_widening, assignment, minifloat_to_half, scale_to_bfloat, to_fp4_fp6,
    to_fp8, to_scale,
};
use crate::element::Elem;
use crate::item::Item;
use crate::text::{lemma_cat_assoc, next_id, Text};
use crate::variable::Variable;
use vstd::prelude::*;

verus! {

/// The kinds of statement that a conversion is made of.
pub enum StepKind {
    /// A minifloat other than e8m0 becomes f16.
    MinifloatToHalf,
    /// An e8m0 becomes bf16.
    ScaleToBfloat,
    /// A plain assignment, with the casts that the language has.
    Assign,
    /// A float becomes fp4 or fp6.
    ToFp4Fp6,
    /// A float becomes e8m0.
    ToScale,
    /// A float becomes fp8 other than e8m0.
    ToFp8,
}

/// One statement: `out` is made from `input`. `fresh` tells whether `out` is a temporary made for
/// this. A further temporary that the statement needs for itself has the number `tmp`.
pub struct Step {
    pub kind: StepKind,
    pub input: Variable,
    pub out: Variable,
    pub fresh: bool,
    pub tmp: u32,
}

impl Step {
    #[verifier::opaque]
    pub open spec fn text(self) -> Text {
        match self.kind {
            StepKind::MinifloatToHalf => minifloat_to_half(self.input, self.out, self.tmp),
            StepKind::ScaleToBfloat => scale_to_bfloat(self.input, self.out, self.tmp),
            StepKind::Assign => assignment(self.input, self.out),
            StepKind::ToFp4Fp6 => to_fp4_fp6(self.input, self.out, self.tmp),
            StepKind::ToScale => to_scale(self.input, self.out, self.tmp),
            StepKind::ToFp8 => to_fp8(self.input, self.out, self.tmp),
        }
    }

    /// The number of the next temporary after this step.
    #[verifier::opaque]
    pub open spec fn next_tmp(self) -> u32 {
        match self.kind {
            StepKind::MinifloatToHalf => after_widening(self.input, self.out, self.tmp),
            StepKind::ScaleToBfloat => after_widening(self.input, self.out, self.tmp),
            StepKind::Assign => self.tmp,
            StepKind::ToFp4Fp6 => after_unroll(self.out, self.tmp),
            StepKind::ToScale => after_unroll(self.out, self.tmp),
            StepKind::ToFp8 => after_unroll(self.out, self.tmp),
        }
    }

    /// A step needs one temporary for itself, or none.
    pub proof fn lemma_next_tmp(self)
        ensures
            self.next_tmp() == self.tmp || self.next_tmp() == next_id(self.tmp),
            self.kind is Assign ==> self.next_tmp() == self.tmp,
    {
        reveal(Step::next_tmp);
    }
}

/// The text of the steps, one after the other.
pub open spec fn steps_text(steps: Seq<Step>) -> Text
    decreases steps.len(),
{
    if steps.len() == 0 {
        Text::empty()
    } else {
        steps_text(steps.drop_last()).cat(steps.last().text())
    }
}

/// The steps so far, the variable that they lead to, and the number of the next temporary.
pub struct Chain {
    pub steps: Seq<Step>,
    pub value: Variable,
    pub next_tmp: u32,
}

impl Chain {
    pub open spec fn start(input: Variable, next_tmp: u32) -> Chain {
        Chain { steps: Seq::empty(), value: input, next_tmp }
    }

    pub open spec fn push(self, step: Step) -> Chain {
        Chain { steps: self.steps.push(step), value: step.out, next_tmp: step.next_tmp() }
    }

    /// One more step, to `out`.
    pub open spec fn to(self, kind: StepKind, out: Variable) -> Chain {
        self.push(Step { kind, input: self.value, out, fresh: false, tmp: self.next_tmp })
    }

    /// One more step, to a new temporary.
    pub open spec fn to_new(self, kind: StepKind, item: Item) -> Chain {
        let out = Variable::Tmp { id: self.next_tmp, item };
        self.push(
            Step { kind, input: self.value, out, fresh: true, tmp: next_id(self.next_tmp) },
        )
    }

    pub open spec fn text(self) -> Text {
        steps_text(self.steps)
    }

    /// The text of a longer chain.
    pub proof fn lemma_push(self, step: Step, before: Text)
        ensures
            before.cat(self.push(step).text()) == before.cat(self.text()).cat(step.text()),
    {
        assert(self.push(step).steps.drop_last() =~= self.steps);
        lemma_cat_assoc(before, self.text(), step.text());
    }

    pub proof fn lemma_to(self, kind: StepKind, out: Variable, before: Text)
        ensures
            before.cat(self.to(kind, out).text()) == before.cat(self.text()).cat(
                self.to(kind, out).steps.last().text(),
            ),
    {
        self.lemma_push(self.to(kind, out).steps.last(), before);
    }

    pub proof fn lemma_to_new(self, kind: StepKind, item: Item, before: Text)
        ensures
            before.cat(self.to_new(kind, item).text()) == before.cat(self.text()).cat(
                self.to_new(kind, item).steps.last().text(),
            ),
    {
        self.lemma_push(self.to_new(kind, item).steps.last(), before);
    }
}

/// The half or bfloat type that holds the numbers of a minifloat variable.
pub open spec fn widened_item(input: Variable) -> Item {
    Item {
        elem: if input.spec_elem().is_scale() {
            Elem::BF16
        } else {
            Elem::F16
        },
        vectorization: input.spec_item().lanes() as usize,
        native: false,
    }
}

/// A single element goes into packed ones.
pub open spec fn broadcasts(value: Variable, out: Variable) -> bool {
    out.spec_elem().spec_packing_factor() > 1 && value.spec_item().vectorization == 1
}

/// A minifloat leaves its type first, right to `out` if that is where it then is.
pub open spec fn widen(input: Variable, out: Variable, next_tmp: u32) -> Chain {
    let start = Chain::start(input, next_tmp);
    let kind = if input.spec_elem().is_scale() {
        StepKind::ScaleToBfloat
    } else {
        StepKind::MinifloatToHalf
    };
    if !input.spec_elem().is_minifloat() {
        start
    } else if widened_item(input) == out.spec_item() {
        start.to(kind, out)
    } else {
        start.to_new(kind, widened_item(input))
    }
}

/// A scalar is repeated for each number of a packed element. What counts is the value as it is by
/// now: a minifloat has left its type, and a packed one has all its numbers side by side.
pub open spec fn broadcast_scalar(chain: Chain, out: Variable) -> Chain {
    if broadcasts(chain.value, out) {
        chain.to_new(
            StepKind::Assign,
            Item {
                vectorization: out.spec_elem().spec_packing_factor(),
                ..chain.value.spec_item()
            },
        )
    } else {
        chain
    }
}

/// An integer becomes bf16.
pub open spec fn leave_integers(chain: Chain) -> Chain {
    if chain.value.spec_elem().is_integer() {
        chain.to_new(StepKind::Assign, Item { elem: Elem::BF16, ..chain.value.spec_item() })
    } else {
        chain
    }
}

/// The last conversion, into `out`.
pub open spec fn finish(chain: Chain, out: Variable) -> Chain {
    if out.spec_elem().is_fp4_fp6() {
        chain.to(StepKind::ToFp4Fp6, out)
    } else if out.spec_elem().is_scale() {
        let source = if chain.value.spec_elem() is F16 {
            chain.to_new(StepKind::Assign, Item { elem: Elem::BF16, ..chain.value.spec_item() })
        } else {
            chain
        };
        source.to(StepKind::ToScale, out)
    } else if out.spec_elem().is_fp8() {
        chain.to(StepKind::ToFp8, out)
    } else if chain.value.spec_item() != out.spec_item() {
        chain.to(StepKind::Assign, out)
    } else {
        chain
    }
}

/// The steps from `input` to `out`.
pub open spec fn plan(input: Variable, out: Variable, next_tmp: u32) -> Chain {
    finish(leave_integers(broadcast_scalar(widen(input, out, next_tmp), out)), out)
}

/// There are steps from `input` to `out`: a packed half does not become fp8, and the numbers can be
/// counted where they have to be.
pub open spec fn convertible(input: Variable, out: Variable) -> bool {
    &&& input.spec_elem().is_minifloat() ==> input.spec_item().fits()
    &&& out.spec_elem().is_minifloat() && input.spec_elem().is_wide() ==> out.spec_item().fits()
    &&& out.spec_elem().is_fp8() ==> !(input.spec_elem() is F16x2) && !(
    input.spec_elem() is BF16x2)
}

/// Whether there are steps from `input` to `out`.
pub fn can_convert(input: Variable, out: Variable) -> (can: bool)
    ensures
        can == convertible(input, out),
{
    let (from, to) = (input.elem(), out.elem());
    let from_minifloat = matches!(from.unpacked(), Elem::FP4(_) | Elem::FP6(_) | Elem::FP8(_));
    let to_minifloat = matches!(to.unpacked(), Elem::FP4(_) | Elem::FP6(_) | Elem::FP8(_));
    if from_minifloat && !input.item().lanes_fit() {
        return false;
    }
    if to_minifloat && matches!(from, Elem::TF32 | Elem::F32 | Elem::F64)
        && !out.item().lanes_fit() {
        return false;
    }
    !(matches!(to.unpacked(), Elem::FP8(_)) && matches!(from, Elem::F16x2 | Elem::BF16x2))
}

} // verus!
