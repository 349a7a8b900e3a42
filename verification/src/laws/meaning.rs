//! What the conversions are asked to compute: every number of the result from the same number of
//! the input, and from its type to that of the result.

use crate::convert::{
    after_unroll, after_widening, bfloat_call, bfloat_pair_call, count, float_name, fp4_fp6_call,
    fp8_call, half_call, half_pair_call, minifloat_to_half, operand, pair_entry, pair_suffix,
    scale_call, scale_source_name, scale_to_bfloat, split, to_fp4_fp6, to_fp8, to_scale, unrolled,
    width,
};
use crate::element::Elem;
use crate::laws::spelling::{
    arguments, fills, float_word, initialiser, reinterpretation, scaled_float_word, slot_texts,
    Intrinsic, Part, Slot,
};
use crate::laws::temporaries::number_after;
use crate::laws::types::law_packing;
use crate::text::{join, lemma_cat_empty, Text};
use crate::variable::{IndexedVariable, Variable};
use vstd::prelude::*;

verus! {

/// Which variable it is, whatever type it is seen under.
pub enum Name {
    Named(u32),
    Tmp(u32),
}

pub open spec fn name(var: Variable) -> Name {
    match var {
        Variable::Named { id, .. } => Name::Named(id),
        Variable::Tmp { id, .. } => Name::Tmp(id),
    }
}

/// The `at`-th number of a variable.
pub struct Number {
    pub of: Name,
    pub at: int,
}

/// The numbers that an element holds.
pub open spec fn numbers(read: IndexedVariable) -> Seq<Number> {
    let factor = read.var.spec_elem().spec_packing_factor();
    Seq::new(
        factor as nat,
        |j: int| Number { of: name(read.var), at: factor * read.index + j },
    )
}

impl Slot {
    /// The numbers that are converted, in order.
    pub open spec fn converted(self) -> Seq<Number> {
        if self.reads.len() == 2 {
            numbers(self.reads[0]) + numbers(self.reads[1])
        } else {
            numbers(self.reads[0])
        }
    }

    /// The numbers that the slot holds, converted, in order.
    pub open spec fn held(self) -> Seq<Number> {
        match self.part {
            Part::Whole => self.converted(),
            Part::First => seq![self.converted()[0]],
            Part::Second => seq![self.converted()[1]],
        }
    }
}

/// The number that the `k`-th number is made from, with `per_slot` of them in a slot.
pub open spec fn origin(slots: Seq<Slot>, per_slot: int, k: int) -> Number {
    slots[k / per_slot].held()[k % per_slot]
}

/// There are as many slots as it takes, and the `k`-th number is made from the `k`-th of `input`.
pub open spec fn keeps_numbers(slots: Seq<Slot>, per_slot: int, input: Variable) -> bool {
    &&& slots.len() * per_slot == input.spec_item().lanes()
    &&& forall|i: int| 0 <= i < slots.len() ==> (#[trigger] slots[i]).held().len() == per_slot
    &&& forall|k: int|
        0 <= k < input.spec_item().lanes() ==> #[trigger] origin(slots, per_slot, k) == (Number {
            of: name(input),
            at: k,
        })
}

/// What the `i`-th conversion of `n` numbers reads: of the floats without a packed form that many
/// elements, side by side, and of the others one element of their packed form.
pub open spec fn reads_nth(reads: Seq<IndexedVariable>, input: Variable, i: int, n: int) -> bool {
    if input.spec_elem() is TF32 || input.spec_elem() is F32 || input.spec_elem() is F64 {
        &&& reads.len() == n
        &&& forall|j: int|
            0 <= j < n ==> (#[trigger] reads[j]).var == input && reads[j].index == n * i + j
    } else {
        &&& reads.len() == 1
        &&& reads[0].var == input.spec_optimized() && reads[0].index == i
    }
}

/// How many numbers are converted at a time into `out`: two, where there is an even number of them.
pub open spec fn at_a_time(out: Variable) -> int {
    if out.spec_item().lanes() % 2 == 0 {
        2
    } else {
        1
    }
}

/// The slots are calls of the one conversion, for all the numbers of `out` and in order.
pub open spec fn narrow_in_order(
    slots: Seq<Slot>,
    call: Intrinsic,
    input: Variable,
    out: Variable,
) -> bool {
    let n = at_a_time(out);
    &&& slots.len() * n == out.spec_item().lanes()
    &&& forall|i: int|
        0 <= i < slots.len() ==> {
            &&& (#[trigger] slots[i]).call == call
            &&& slots[i].pair == (n == 2)
            &&& slots[i].part is Whole
            &&& reads_nth(slots[i].reads, input, i, n)
        }
}

/// The text fills `out` by the one conversion, number by number. Where `input` has as many numbers,
/// the `k`-th of `out` is made from the `k`-th of `input`, for every one of them.
pub open spec fn narrows(
    text: Text,
    call: Intrinsic,
    input: Variable,
    out: Variable,
    tmp: u32,
) -> bool {
    exists|slots: Seq<Slot>|
        {
            &&& #[trigger] fills(text, out, tmp, slot_texts(slots))
            &&& narrow_in_order(slots, call, input, out)
            &&& input.spec_item().lanes() == out.spec_item().lanes() ==> keeps_numbers(
                slots,
                at_a_time(out),
                input,
            )
        }
}

/// The slots are calls of the one conversion, for all the elements of the packed form of `input`
/// and in order. Where that holds pairs, each is taken apart, its first number before its second;
/// an `out` of one element gets the first one alone.
pub open spec fn widen_in_order(
    slots: Seq<Slot>,
    call: Intrinsic,
    input: Variable,
    out: Variable,
) -> bool {
    let packed = input.spec_optimized();
    let pairs = packed.spec_elem().spec_packing_factor() == 2;
    let both = out.spec_item().vectorization > 1;
    &&& slots.len() == if !pairs {
        out.spec_optimized().spec_item().vectorization as int
    } else if both {
        2 * packed.spec_item().vectorization
    } else {
        packed.spec_item().vectorization as int
    }
    &&& forall|i: int|
        0 <= i < slots.len() ==> {
            &&& (#[trigger] slots[i]).call == call
            &&& slots[i].pair == pairs
            &&& slots[i].reads.len() == 1 && slots[i].reads[0].var == packed
            &&& slots[i].reads[0].index == if pairs && both {
                i / 2
            } else {
                i
            }
            &&& slots[i].part == if !pairs {
                Part::Whole
            } else if both && i % 2 == 1 {
                Part::Second
            } else {
                Part::First
            }
        }
}

/// The text fills `out` by the one conversion. Where `out` has as many elements as `input` has
/// numbers, and one number in each, the `k`-th is made from the `k`-th of `input`, for every one of
/// them.
pub open spec fn widens(
    text: Text,
    call: Intrinsic,
    input: Variable,
    out: Variable,
    tmp: u32,
) -> bool {
    let pairs = input.spec_optimized().spec_elem().spec_packing_factor() == 2;
    exists|slots: Seq<Slot>|
        {
            &&& #[trigger] widen_in_order(slots, call, input, out)
            &&& if pairs {
                text == initialiser(out, slot_texts(slots))
            } else {
                fills(text, out, tmp, slot_texts(slots))
            }
            &&& input.spec_elem().is_minifloat() && out.spec_elem().spec_packing_factor() == 1
                && out.spec_item().vectorization == input.spec_item().lanes() ==> keeps_numbers(
                slots,
                1,
                input,
            )
        }
}

proof fn lemma_lit_lit(text: Text, a: Seq<char>, b: Seq<char>)
    ensures
        text.lit(a).lit(b) == text.lit(a + b),
{
    assert(text.lit(a).lit(b).glyphs =~= text.lit(a + b).glyphs);
}

proof fn lemma_cat_lit(text: Text, a: Seq<char>)
    ensures
        text.cat(Text::empty().lit(a)) == text.lit(a),
{
    assert(text.cat(Text::empty().lit(a)).glyphs =~= text.lit(a).glyphs);
}

proof fn lemma_float_word(text: Text, elem: Elem, pair: bool)
    requires
        elem.is_plain_float(),
    ensures
        text.lit(float_name(elem)).lit(
            pair_suffix(
                if pair {
                    2
                } else {
                    1
                },
            ),
        ) == text.lit(float_word(elem, pair)),
{
    let suffix = pair_suffix(
        if pair {
            2
        } else {
            1
        },
    );
    lemma_lit_lit(text, float_name(elem), suffix);
    reveal_strlit("");
    reveal_strlit("2");
    reveal_strlit("float");
    reveal_strlit("float2");
    reveal_strlit("double");
    reveal_strlit("double2");
    reveal_strlit("halfraw");
    reveal_strlit("halfraw2");
    reveal_strlit("bfloat16raw");
    reveal_strlit("bfloat16raw2");
    assert(float_name(elem) + suffix =~= float_word(elem, pair));
}

proof fn lemma_scaled_float_word(text: Text, elem: Elem, pair: bool)
    requires
        elem.is_plain_float(),
        !(elem is F16),
    ensures
        text.cat(
            scale_source_name(
                elem,
                if pair {
                    2
                } else {
                    1
                },
            ),
        ) == text.lit(scaled_float_word(elem, pair)),
{
    let suffix = pair_suffix(
        if pair {
            2
        } else {
            1
        },
    );
    let start = Text::empty();
    reveal_strlit("");
    reveal_strlit("2");
    reveal_strlit("raw");
    reveal_strlit("float");
    reveal_strlit("float2");
    reveal_strlit("double");
    reveal_strlit("double2");
    reveal_strlit("bfloat16");
    reveal_strlit("bfloat16raw");
    reveal_strlit("bfloat162raw");
    lemma_cat_lit(text, scaled_float_word(elem, pair));
    if elem is BF16 {
        lemma_lit_lit(start, "bfloat16"@, suffix);
        lemma_lit_lit(start, "bfloat16"@ + suffix, "raw"@);
        assert("bfloat16"@ + suffix + "raw"@ =~= scaled_float_word(elem, pair));
    } else if elem is F64 {
        lemma_lit_lit(start, "double"@, suffix);
        assert("double"@ + suffix =~= scaled_float_word(elem, pair));
    } else {
        lemma_lit_lit(start, "float"@, suffix);
        assert("float"@ + suffix =~= scaled_float_word(elem, pair));
    }
}

/// What is read for the `i`-th conversion into `out`.
spec fn nth_reads(input: Variable, out: Variable, i: int) -> Seq<IndexedVariable> {
    let n = at_a_time(out);
    if input.spec_elem().is_wide() {
        Seq::new(n as nat, |j: int| IndexedVariable { var: input, index: (n * i + j) as usize })
    } else {
        seq![IndexedVariable { var: input.spec_optimized(), index: i as usize }]
    }
}

spec fn nth_slot(call: Intrinsic, input: Variable, out: Variable, i: int) -> Slot {
    Slot {
        call,
        pair: at_a_time(out) == 2,
        reads: nth_reads(input, out, i),
        part: Part::Whole,
    }
}

proof fn lemma_at_a_time(out: Variable)
    requires
        out.spec_elem().is_minifloat(),
    ensures
        width(out) == at_a_time(out),
        count(out) * at_a_time(out) == out.spec_item().lanes(),
{
    let packed = out.spec_item().spec_optimized();
    law_packing(out.spec_item());
    packed.lemma_lanes();
}

proof fn lemma_operand(input: Variable, out: Variable, i: int)
    requires
        input.spec_elem().spec_unpacked().is_plain_float(),
        out.spec_elem().is_minifloat(),
    ensures
        operand(input.spec_optimized(), i, width(out)) == arguments(
            input.spec_elem().spec_unpacked(),
            nth_reads(input, out, i),
        ),
{
    lemma_at_a_time(out);
    law_packing(input.spec_item());
    let n = at_a_time(out);
    assert(n == 1 ==> i * n == n * i);
    assert(n == 2 ==> i * n == n * i);
    if input.spec_elem().is_wide() {
        assert(input.spec_optimized() == input);
    }
}

proof fn lemma_slots_keep_numbers(
    slots: Seq<Slot>,
    call: Intrinsic,
    input: Variable,
    out: Variable,
)
    requires
        narrow_in_order(slots, call, input, out),
        input.spec_elem().spec_unpacked().is_plain_float(),
        input.spec_item().lanes() == out.spec_item().lanes(),
    ensures
        keeps_numbers(slots, at_a_time(out), input),
{
    let n = at_a_time(out);
    law_packing(input.spec_item());
    input.spec_item().lemma_lanes();
    assert forall|i: int| 0 <= i < slots.len() implies {
        &&& (#[trigger] slots[i]).held().len() == n
        &&& slots[i].held()[0] == (Number { of: name(input), at: n * i })
        &&& n == 2 ==> slots[i].held()[1] == (Number { of: name(input), at: n * i + 1 })
    } by {
        let slot = slots[i];
        assert(reads_nth(slot.reads, input, i, n));
        let first = slot.reads[0];
        let factor = first.var.spec_elem().spec_packing_factor();
        assert(factor == 1 ==> factor * first.index == first.index);
        assert(factor == 2 ==> factor * first.index == 2 * first.index);
        if input.spec_elem().is_wide() && n == 2 {
            let second = slot.reads[1];
            assert(second.index == n * i + 1);
            assert(second.var.spec_elem().spec_packing_factor() == 1);
            assert(1 * second.index == second.index);
        }
    }
    assert forall|k: int| 0 <= k < input.spec_item().lanes() implies #[trigger] origin(slots, n, k)
        == (Number { of: name(input), at: k }) by {
        if n == 2 {
            assert(0 <= k / 2 < slots.len());
            assert(slots[k / 2].held().len() == 2);
        } else {
            assert(k / 1 == k && k % 1 == 0);
            assert(slots[k].held().len() == 1);
        }
    }
}

/// An unrolled statement fills `out`, as the packed type that it is or can be, with its entries. It
/// takes the number of a temporary just where `out` is not of that type itself.
pub proof fn law_unrolled_fills(out: Variable, tmp: u32, entries: Seq<Text>)
    requires
        entries.len() == out.spec_optimized().spec_item().vectorization,
    ensures
        fills(unrolled(out, tmp, entries), out, tmp, entries),
        count(out) == entries.len(),
        after_unroll(out, tmp) != tmp <==> out.spec_optimized() != out,
        after_unroll(out, tmp) == tmp || after_unroll(out, tmp) == number_after(tmp, 1),
{
    let packed = out.spec_item().spec_optimized();
    let target = Variable::Tmp { id: tmp, item: packed };
    if packed.vectorization <= 1 {
        assert(join(entries, ",\n"@) == join(entries, ""@));
    }
    if packed != out.spec_item() {
        assert(unrolled(out, tmp, entries).glyphs =~= initialiser(target, entries).cat(
            reinterpretation(out, target),
        ).glyphs);
    }
}

proof fn lemma_narrows(
    call: Intrinsic,
    input: Variable,
    out: Variable,
    tmp: u32,
    calls: Seq<Text>,
)
    requires
        out.spec_elem().is_minifloat(),
        input.spec_elem().spec_unpacked().is_plain_float(),
        input.spec_elem().is_wide() ==> out.spec_item().fits(),
        calls.len() == count(out),
        forall|i: int|
            0 <= i < count(out) ==> #[trigger] calls[i] == nth_slot(
                call,
                input,
                out,
                i,
            ).call_text(),
    ensures
        narrows(unrolled(out, tmp, calls), call, input, out, tmp),
{
    let n = at_a_time(out);
    let slots = Seq::new(count(out), |i: int| nth_slot(call, input, out, i));
    lemma_at_a_time(out);
    law_packing(out.spec_item());
    assert(slot_texts(slots) =~= calls);
    law_unrolled_fills(out, tmp, calls);
    assert forall|i: int| 0 <= i < slots.len() implies reads_nth(
        (#[trigger] slots[i]).reads,
        input,
        i,
        n,
    ) by {
        if input.spec_elem().is_wide() {
            assert(n == 2 ==> n * i + 1 < count(out) * 2);
            assert(n == 1 ==> n * i < count(out));
        }
    }
    assert(narrow_in_order(slots, call, input, out));
    if input.spec_item().lanes() == out.spec_item().lanes() {
        lemma_slots_keep_numbers(slots, call, input, out);
    }
    assert(fills(unrolled(out, tmp, calls), out, tmp, slot_texts(slots)));
}

/// The argument of the `i`-th conversion of `packing` numbers is a pair of neighbours, made up as
/// CUDA's vector of that float, or the one element that is there.
pub proof fn law_operand(input: Variable, i: usize, packing: usize)
    requires
        input.spec_elem().spec_unpacked().is_plain_float(),
        input.spec_elem().is_wide() ==> i * packing <= usize::MAX,
        input.spec_elem().is_wide() && packing > 1 ==> i * packing < usize::MAX,
    ensures
        ({
            let text = operand(input, i as int, packing as int);
            let read = |at: int| IndexedVariable { var: input, index: at as usize };
            if !input.spec_elem().is_wide() {
                text == arguments(input.spec_elem(), seq![read(i as int)])
            } else if packing > 1 {
                text == arguments(
                    input.spec_elem(),
                    seq![read(i * packing), read(i * packing + 1)],
                )
            } else {
                text == arguments(input.spec_elem(), seq![read(i * packing)])
            }
        }),
{
}

/// A float becomes fp4 or fp6 by the conversion from its type to that of `out`, to nearest, every
/// number from its own.
pub proof fn law_to_fp4_fp6(input: Variable, out: Variable, tmp: u32)
    requires
        out.spec_elem().is_fp4_fp6(),
        input.spec_elem().spec_unpacked().is_plain_float(),
        input.spec_elem().is_wide() ==> out.spec_item().fits(),
    ensures
        narrows(
            to_fp4_fp6(input, out, tmp),
            Intrinsic::Narrow {
                from: input.spec_elem().spec_unpacked(),
                to: out.spec_elem().spec_unpacked(),
            },
            input,
            out,
            tmp,
        ),
{
    reveal(to_fp4_fp6);
    let from = input.spec_elem().spec_unpacked();
    let to = out.spec_elem().spec_unpacked();
    let call = Intrinsic::Narrow { from, to };
    let calls = Seq::new(count(out), |i: int| fp4_fp6_call(input, out, i));
    lemma_at_a_time(out);
    law_packing(out.spec_item());
    lemma_float_word(Text::empty().lit("__nv_cvt_"@), from, at_a_time(out) == 2);
    assert forall|i: int| 0 <= i < count(out) implies #[trigger] calls[i] == nth_slot(
        call,
        input,
        out,
        i,
    ).call_text() by {
        lemma_operand(input, out, i);
    }
    lemma_narrows(call, input, out, tmp, calls);
}

/// A float becomes fp8 by the conversion from its type to that of `out`, every number from its own.
pub proof fn law_to_fp8(input: Variable, out: Variable, tmp: u32)
    requires
        out.spec_elem().is_fp8(),
        input.spec_elem().is_plain_float(),
        input.spec_elem().is_wide() ==> out.spec_item().fits(),
    ensures
        narrows(
            to_fp8(input, out, tmp),
            Intrinsic::Narrow { from: input.spec_elem(), to: out.spec_elem().spec_unpacked() },
            input,
            out,
            tmp,
        ),
{
    reveal(to_fp8);
    let from = input.spec_elem();
    let to = out.spec_elem().spec_unpacked();
    let call = Intrinsic::Narrow { from, to };
    let calls = Seq::new(count(out), |i: int| fp8_call(input, out, i));
    lemma_at_a_time(out);
    law_packing(out.spec_item());
    lemma_float_word(Text::empty().lit("__nv_cvt_"@), from, at_a_time(out) == 2);
    assert forall|i: int| 0 <= i < count(out) implies #[trigger] calls[i] == nth_slot(
        call,
        input,
        out,
        i,
    ).call_text() by {
        lemma_operand(input, out, i);
    }
    lemma_narrows(call, input, out, tmp, calls);
}

/// A float other than half becomes a scaling factor by the conversion from its type, upwards, every
/// number from its own.
pub proof fn law_to_scale(input: Variable, out: Variable, tmp: u32)
    requires
        out.spec_elem().is_fp8(),
        input.spec_elem().is_plain_float(),
        !(input.spec_elem() is F16),
        input.spec_elem().is_wide() ==> out.spec_item().fits(),
    ensures
        narrows(
            to_scale(input, out, tmp),
            Intrinsic::Scale { from: input.spec_elem() },
            input,
            out,
            tmp,
        ),
{
    reveal(to_scale);
    let from = input.spec_elem();
    let call = Intrinsic::Scale { from };
    let calls = Seq::new(count(out), |i: int| scale_call(input, out, i));
    lemma_at_a_time(out);
    law_packing(out.spec_item());
    lemma_scaled_float_word(Text::empty().lit("__nv_cvt_"@), from, at_a_time(out) == 2);
    assert forall|i: int| 0 <= i < count(out) implies #[trigger] calls[i] == nth_slot(
        call,
        input,
        out,
        i,
    ).call_text() by {
        lemma_operand(input, out, i);
    }
    lemma_narrows(call, input, out, tmp, calls);
}

/// The `k`-th slot, of a pair that is taken apart.
spec fn half_of_pair(call: Intrinsic, input: Variable, k: int) -> Slot {
    Slot {
        call,
        pair: true,
        reads: seq![IndexedVariable { var: input.spec_optimized(), index: (k / 2) as usize }],
        part: if k % 2 == 1 {
            Part::Second
        } else {
            Part::First
        },
    }
}

/// The `i`-th slot, with what a pair holds first where `input` holds pairs.
spec fn first_of_each(call: Intrinsic, input: Variable, i: int) -> Slot {
    let pair = width(input) > 1;
    Slot {
        call,
        pair,
        reads: seq![IndexedVariable { var: input.spec_optimized(), index: i as usize }],
        part: if pair {
            Part::First
        } else {
            Part::Whole
        },
    }
}

/// Entries of two each, one behind the other, are twice as many entries.
proof fn lemma_join_pairs(entries: Seq<Text>, halves: Seq<Text>, separator: Seq<char>)
    requires
        halves.len() == 2 * entries.len(),
        forall|i: int|
            0 <= i < entries.len() ==> #[trigger] entries[i] == halves[2 * i].lit(separator).cat(
                halves[2 * i + 1],
            ),
    ensures
        join(entries, separator) == join(halves, separator),
    decreases entries.len(),
{
    if entries.len() > 0 {
        let n = entries.len() as int;
        let rest = halves.drop_last().drop_last();
        assert forall|i: int| 0 <= i < n - 1 implies #[trigger] entries.drop_last()[i]
            == rest[2 * i].lit(separator).cat(rest[2 * i + 1]) by {
            assert(entries.drop_last()[i] == entries[i]);
        }
        lemma_join_pairs(entries.drop_last(), rest, separator);
        let (a, b) = (halves[2 * n - 2], halves[2 * n - 1]);
        assert(entries[n - 1] == halves[2 * (n - 1)].lit(separator).cat(halves[2 * (n - 1) + 1]));
        assert(halves.last() == b && halves.drop_last().last() == a);
        if n == 1 {
            assert(join(halves.drop_last(), separator) == a);
        } else {
            let before = join(rest, separator);
            assert(join(halves.drop_last(), separator) == before.lit(separator).cat(a));
            assert(before.lit(separator).cat(a).lit(separator).cat(b).glyphs =~= before.lit(
                separator,
            ).cat(a.lit(separator).cat(b)).glyphs);
        }
    }
}

proof fn lemma_split_initialises(out: Variable, calls: Seq<Text>, entries: Seq<Text>)
    requires
        out.spec_item().vectorization > 1 ==> entries.len() == 2 * calls.len() && forall|k: int|
            0 <= k < entries.len() ==> #[trigger] entries[k] == calls[k / 2].lit(
                if k % 2 == 1 {
                    ".y"@
                } else {
                    ".x"@
                },
            ),
        out.spec_item().vectorization <= 1 ==> entries.len() == calls.len() && forall|i: int|
            0 <= i < entries.len() ==> #[trigger] entries[i] == calls[i].lit(".x"@),
    ensures
        split(out, calls) == initialiser(out, entries),
{
    let pairs = Seq::new(calls.len(), |i: int| pair_entry(out, calls[i]));
    reveal_strlit(".x");
    reveal_strlit(",\n");
    reveal_strlit(".x,\n");
    assert(".x"@ + ",\n"@ =~= ".x,\n"@);
    if out.spec_item().vectorization > 1 {
        assert forall|i: int| 0 <= i < calls.len() implies #[trigger] pairs[i]
            == entries[2 * i].lit(",\n"@).cat(entries[2 * i + 1]) by {
            lemma_cat_empty(calls[i]);
            lemma_lit_lit(calls[i], ".x"@, ",\n"@);
            assert(entries[2 * i] == calls[i].lit(".x"@));
            assert(entries[2 * i + 1] == calls[i].lit(".y"@));
            assert(calls[i].lit(".x,\n"@).cat(calls[i]).lit(".y"@).glyphs =~= calls[i].lit(
                ".x,\n"@,
            ).cat(calls[i].lit(".y"@)).glyphs);
        }
        lemma_join_pairs(pairs, entries, ",\n"@);
    } else {
        assert forall|i: int| 0 <= i < calls.len() implies pairs[i] == entries[i] by {
            lemma_cat_empty(calls[i]);
        }
        assert(pairs =~= entries);
    }
}

proof fn lemma_widened_slots_keep_numbers(
    slots: Seq<Slot>,
    call: Intrinsic,
    input: Variable,
    out: Variable,
)
    requires
        widen_in_order(slots, call, input, out),
        input.spec_elem().is_minifloat(),
        out.spec_elem().spec_packing_factor() == 1,
        out.spec_item().vectorization == input.spec_item().lanes(),
    ensures
        keeps_numbers(slots, 1, input),
{
    let packed = input.spec_optimized();
    law_packing(input.spec_item());
    law_packing(out.spec_item());
    packed.spec_item().lemma_lanes();
    input.spec_item().lemma_lanes();
    let factor = packed.spec_elem().spec_packing_factor();
    packed.spec_elem().lemma_packing_factor();
    assert forall|i: int| 0 <= i < slots.len() implies {
        &&& (#[trigger] slots[i]).held().len() == 1
        &&& slots[i].held()[0] == (Number { of: name(input), at: i })
    } by {
        let read = slots[i].reads[0];
        assert(factor == 1 ==> factor * read.index == read.index);
        assert(factor == 2 ==> factor * read.index == 2 * read.index);
    }
    assert forall|k: int| 0 <= k < input.spec_item().lanes() implies #[trigger] origin(slots, 1, k)
        == (Number { of: name(input), at: k }) by {
        assert(k / 1 == k && k % 1 == 0);
        assert(slots[k].held().len() == 1);
    }
}

proof fn lemma_widens(
    call: Intrinsic,
    input: Variable,
    out: Variable,
    tmp: u32,
    text: Text,
    calls: Seq<Text>,
)
    requires
        calls.len() == if width(input) > 1 {
            count(input)
        } else {
            count(out)
        },
        forall|i: int|
            0 <= i < calls.len() ==> #[trigger] calls[i] == first_of_each(
                call,
                input,
                i,
            ).call_text(),
        call is Widen || call is Unscale,
        text == if width(input) > 1 {
            split(out, calls)
        } else {
            unrolled(out, tmp, calls)
        },
    ensures
        widens(text, call, input, out, tmp),
{
    let packed = input.spec_optimized();
    packed.spec_elem().lemma_packing_factor();
    let both = out.spec_item().vectorization > 1;
    let slots = if width(input) > 1 && both {
        Seq::new((2 * calls.len()) as nat, |k: int| half_of_pair(call, input, k))
    } else {
        Seq::new(calls.len(), |i: int| first_of_each(call, input, i))
    };
    let entries = slot_texts(slots);
    if width(input) > 1 {
        assert forall|k: int| both && 0 <= k < entries.len() implies #[trigger] entries[k]
            == calls[k / 2].lit(
            if k % 2 == 1 {
                ".y"@
            } else {
                ".x"@
            },
        ) by {
            assert(calls[k / 2] == first_of_each(call, input, k / 2).call_text());
        }
        lemma_split_initialises(out, calls, entries);
    } else {
        assert(entries =~= calls);
        law_unrolled_fills(out, tmp, calls);
    }
    assert(widen_in_order(slots, call, input, out));
    if input.spec_elem().is_minifloat() && out.spec_elem().spec_packing_factor() == 1
        && out.spec_item().vectorization == input.spec_item().lanes() {
        lemma_widened_slots_keep_numbers(slots, call, input, out);
    }
}

/// A minifloat becomes half by the conversion from its type, every number from its own: a pair is
/// taken apart into neighbouring elements.
pub proof fn law_minifloat_to_half(input: Variable, out: Variable, tmp: u32)
    requires
        input.spec_elem().is_minifloat(),
    ensures
        widens(
            minifloat_to_half(input, out, tmp),
            Intrinsic::Widen { from: input.spec_elem().spec_unpacked() },
            input,
            out,
            tmp,
        ),
{
    reveal(minifloat_to_half);
    let call = Intrinsic::Widen { from: input.spec_elem().spec_unpacked() };
    let text = minifloat_to_half(input, out, tmp);
    law_packing(input.spec_item());
    if width(input) > 1 {
        let calls = Seq::new(count(input), |i: int| half_pair_call(input, i));
        lemma_widens(call, input, out, tmp, text, calls);
    } else {
        let calls = Seq::new(count(out), |i: int| half_call(input, i));
        lemma_widens(call, input, out, tmp, text, calls);
    }
}

/// A scaling factor becomes bfloat, every number from its own: a pair is taken apart into
/// neighbouring elements.
pub proof fn law_scale_to_bfloat(input: Variable, out: Variable, tmp: u32)
    ensures
        widens(scale_to_bfloat(input, out, tmp), Intrinsic::Unscale, input, out, tmp),
{
    reveal(scale_to_bfloat);
    let call = Intrinsic::Unscale;
    let text = scale_to_bfloat(input, out, tmp);
    if width(input) > 1 {
        let calls = Seq::new(count(input), |i: int| bfloat_pair_call(input, i));
        lemma_widens(call, input, out, tmp, text, calls);
    } else {
        let calls = Seq::new(count(out), |i: int| bfloat_call(input, i));
        lemma_widens(call, input, out, tmp, text, calls);
    }
}

/// Taking pairs apart needs no temporary; single numbers are unrolled.
pub proof fn law_widening_takes_a_number(input: Variable, out: Variable, tmp: u32)
    ensures
        ({
            let pairs = input.spec_optimized().spec_elem().spec_packing_factor() == 2;
            after_widening(input, out, tmp) == if pairs || out.spec_optimized() == out {
                tmp
            } else {
                number_after(tmp, 1)
            }
        }),
{
    input.spec_optimized().spec_elem().lemma_packing_factor();
}

} // verus!
