//! The conversion statements.

use crate::element::{Elem, FP8Kind};
use crate::item::Item;
use crate::plan::{
    broadcast_scalar, convertible, leave_integers, plan, widen, Chain, Step, StepKind,
};
use crate::text::{join, lemma_cat_empty, next_id, Formatter, Fragment, Shown, Text};
use crate::variable::{IndexedVariable, Instruction, UnaryInstruction, Variable};
use vstd::prelude::*;

verus! {

/// How many conversions fill `out`, each of as many numbers as an element holds then.
pub open spec fn count(out: Variable) -> nat {
    out.spec_item().spec_optimized().vectorization as nat
}

/// How many numbers each conversion into `out` takes.
pub open spec fn width(out: Variable) -> int {
    out.spec_item().spec_optimized().elem.spec_packing_factor() as int
}

/// The numbers of the `i`-th conversion into `out` can be counted.
proof fn lemma_numbers_fit(out: Variable, i: int)
    requires
        out.spec_item().fits(),
        0 <= i < count(out),
    ensures
        i * width(out) < usize::MAX,
{
    let packed = out.spec_item().spec_optimized();
    packed.elem.lemma_packing_factor();
    out.spec_item().lemma_optimized();
    assert(i * width(out) + width(out) <= packed.vectorization * width(out)) by (nonlinear_arith)
        requires
            i + 1 <= packed.vectorization,
            width(out) > 0,
    ;
}

/// The variable that an unrolled statement initialises: `out` itself, or a temporary of its packed
/// type where `out` is not packed but can be.
pub open spec fn unroll_target(out: Variable, tmp: u32) -> Variable {
    let packed = out.spec_item().spec_optimized();
    if out.spec_item() != packed {
        Variable::Tmp { id: tmp, item: packed }
    } else {
        out
    }
}

/// The number of the next temporary after an unrolled statement.
pub open spec fn after_unroll(out: Variable, tmp: u32) -> u32 {
    if out.spec_item() != out.spec_item().spec_optimized() {
        next_id(tmp)
    } else {
        tmp
    }
}

/// `out` is initialised with the entries, one for each of its elements in its packed type. Where
/// that is not its own type, a temporary is, and `out` is then the same bits.
pub open spec fn unrolled(out: Variable, tmp: u32, entries: Seq<Text>) -> Text {
    let packed = out.spec_item().spec_optimized();
    let target = unroll_target(out, tmp);
    let head = Text::empty().show(Shown::Left(target)).lit(" = "@);
    let body = join(entries, ",\n"@);
    let statement = if packed.vectorization > 1 {
        head.show(Shown::Item(packed)).lit(" {\n"@).cat(body).lit("\n}"@)
    } else {
        head.cat(body)
    };
    let done = statement.lit(";\n"@);
    if out.spec_item() != packed {
        done.show(Shown::Left(out)).lit(" = reinterpret_cast<"@).show(
            Shown::Item(out.spec_item()),
        ).lit("&>("@).show(Shown::Variable(target)).lit(");\n"@)
    } else {
        done
    }
}

/// A call of `op` on `i` can return this text.
pub open spec fn writes<F: Fn(usize) -> Fragment>(op: F, i: usize, entry: Text) -> bool {
    exists|fragment: Fragment| #[trigger]
        op.ensures((i,), fragment) && fragment@ == entry
}

/// The entries are what `op` returned on 0, 1, and so on, `n` times.
pub open spec fn written_in_order<F: Fn(usize) -> Fragment>(
    op: F,
    n: nat,
    entries: Seq<Text>,
) -> bool {
    &&& entries.len() == n
    &&& forall|i: int| 0 <= i < n ==> writes(op, i as usize, #[trigger] entries[i])
}

/// Initialises `out`, with one entry from `op` for each element of its packed type.
pub fn handle_unroll<F: Fn(usize) -> Fragment>(f: &mut Formatter, out: Variable, op: F)
    requires
        forall|i: usize| i < count(out) ==> #[trigger] op.requires((i,)),
    ensures
        final(f).next_tmp == after_unroll(out, old(f).next_tmp),
        exists|entries: Seq<Text>| #[trigger]
            written_in_order(op, count(out), entries) && final(f).text@ == old(f).text@.cat(
                unrolled(out, old(f).next_tmp, entries),
            ),
{
    let out_opt = out.item().optimized();
    let vec: usize = out_opt.vectorization;
    let out_var = if out.item() != out_opt {
        f.tmp(out_opt)
    } else {
        out
    };
    let mut text = Fragment::new();
    text.show(Shown::Left(out_var));
    text.write_str(" = ");
    if vec > 1 {
        text.show(Shown::Item(out_opt));
        text.write_str(" {\n");
    }
    let mut body = Fragment::new();
    let ghost mut entries: Seq<Text> = Seq::empty();
    let mut i: usize = 0;
    while i < vec
        invariant
            0 <= i <= vec,
            written_in_order(op, i as nat, entries),
            forall|k: usize| k < vec ==> #[trigger] op.requires((k,)),
            body@ == if 0 < i < vec {
                join(entries, ",\n"@).lit(",\n"@)
            } else {
                join(entries, ",\n"@)
            },
        decreases vec - i,
    {
        let entry = op(i);
        let ghost before = entries;
        proof {
            assert(op.ensures((i,), entry));
            assert(writes(op, i, entry@));
            entries = entries.push(entry@);
            assert(entries.drop_last() =~= before);
            lemma_cat_empty(entry@);
        }
        body.append(&entry);
        if i + 1 < vec {
            body.write_str(",\n");
        }
        i += 1;
    }
    text.append(&body);
    if vec > 1 {
        text.write_str("\n}");
    }
    text.write_str(";\n");
    if out.item() != out_opt {
        text.show(Shown::Left(out));
        text.write_str(" = reinterpret_cast<");
        text.show(Shown::Item(out.item()));
        text.write_str("&>(");
        text.show(Shown::Variable(out_var));
        text.write_str(");\n");
    }
    f.append(&text);
    assert(written_in_order(op, count(out), entries));
}

/// What is written where the result of `op` is known.
proof fn lemma_unrolled<F: Fn(usize) -> Fragment>(
    op: F,
    out: Variable,
    expected: spec_fn(int) -> Text,
    before: Formatter,
    after: Formatter,
)
    requires
        exists|entries: Seq<Text>| #[trigger]
            written_in_order(op, count(out), entries) && after.text@ == before.text@.cat(
                unrolled(out, before.next_tmp, entries),
            ),
        forall|i: usize, fragment: Fragment|
            i < count(out) && #[trigger] op.ensures((i,), fragment) ==> fragment@ == expected(
                i as int,
            ),
    ensures
        after.text@ == before.text@.cat(
            unrolled(out, before.next_tmp, Seq::new(count(out), expected)),
        ),
{
    let entries = choose|entries: Seq<Text>| #[trigger]
        written_in_order(op, count(out), entries) && after.text@ == before.text@.cat(
            unrolled(out, before.next_tmp, entries),
        );
    lemma_written(op, count(out), entries, expected);
}

proof fn lemma_written<F: Fn(usize) -> Fragment>(
    op: F,
    n: nat,
    entries: Seq<Text>,
    expected: spec_fn(int) -> Text,
)
    requires
        n <= usize::MAX,
        written_in_order(op, n, entries),
        forall|i: usize, fragment: Fragment|
            i < n && #[trigger] op.ensures((i,), fragment) ==> fragment@ == expected(i as int),
    ensures
        entries == Seq::new(n, expected),
{
    assert forall|i: int| 0 <= i < n implies entries[i] == expected(i) by {
        assert(writes(op, i as usize, entries[i]));
    }
    assert(entries =~= Seq::new(n, expected));
}

/// The gap for one element of a variable.
pub open spec fn element(var: Variable, index: int) -> Shown {
    Shown::Indexed(IndexedVariable { var, index: index as usize })
}

/// A `two` of two neighbouring elements, or one element.
pub open spec fn gathered(two: Seq<char>, input: Variable, at: int, packing: int) -> Text {
    if packing > 1 {
        Text::empty().lit(two).lit(" { "@).show(element(input, at)).lit(", "@).show(
            element(input, at + 1),
        ).lit(" }"@)
    } else {
        Text::empty().show(element(input, at))
    }
}

/// The argument of the `i`-th conversion, of `packing` numbers. Halves are already paired where
/// they need to be, the wider floats are paired here.
pub open spec fn operand(input: Variable, i: int, packing: int) -> Text {
    if input.spec_elem().is_single() {
        gathered("float2"@, input, i * packing, packing)
    } else if input.spec_elem() is F64 {
        gathered("double2"@, input, i * packing, packing)
    } else {
        Text::empty().show(element(input, i))
    }
}

/// Pack types that normally wouldn't be optimized into a `vec2` for conversion
pub fn float_to_packed(input: Variable, i: usize, packing: usize) -> (text: Fragment)
    requires
        input.spec_elem().spec_unpacked().is_plain_float(),
        input.spec_elem().is_wide() ==> i * packing <= usize::MAX,
        input.spec_elem().is_wide() && packing > 1 ==> i * packing < usize::MAX,
    ensures
        text@ == operand(input, i as int, packing as int),
{
    let mut text = Fragment::new();
    match input.elem() {
        Elem::TF32 | Elem::F32 => {
            let i: usize = i * packing;
            if packing > 1 {
                text.write_str("float2");
                text.write_str(" { ");
                text.show(Shown::Indexed(input.index(i)));
                text.write_str(", ");
                text.show(Shown::Indexed(input.index(i + 1)));
                text.write_str(" }");
            } else {
                text.show(Shown::Indexed(input.index(i)));
            }
        },
        Elem::F64 => {
            let i: usize = i * packing;
            if packing > 1 {
                text.write_str("double2");
                text.write_str(" { ");
                text.show(Shown::Indexed(input.index(i)));
                text.write_str(", ");
                text.show(Shown::Indexed(input.index(i + 1)));
                text.write_str(" }");
            } else {
                text.show(Shown::Indexed(input.index(i)));
            }
        },
        _ => {
            text.show(Shown::Indexed(input.index(i)));
        },
    }
    text
}

/// What CUDA adds to the name of a float type for the pair of two.
pub open spec fn pair_suffix(width: int) -> Seq<char> {
    if width > 1 {
        "2"@
    } else {
        ""@
    }
}

/// What CUDA's conversions call a minifloat type.
pub open spec fn minifloat_name(elem: Elem) -> Seq<char> {
    match elem {
        Elem::FP4(_) => "fp4"@,
        Elem::FP4x2(_) => "fp4x2"@,
        Elem::FP6(_) => "fp6"@,
        Elem::FP6x2(_) => "fp6x2"@,
        Elem::FP8(_) => "fp8"@,
        Elem::FP8x2(_) => "fp8x2"@,
        _ => ""@,
    }
}

/// The interpretation that CUDA's conversions are given for a minifloat type.
pub open spec fn interpretation(elem: Elem) -> Seq<char> {
    match elem.spec_unpacked() {
        Elem::FP4(kind) => kind.spec_name(),
        Elem::FP6(kind) => kind.spec_name(),
        Elem::FP8(kind) => kind.spec_name(),
        _ => ""@,
    }
}

/// What the conversions into fp4, fp6 and fp8 call the float that they read.
pub open spec fn float_name(elem: Elem) -> Seq<char> {
    match elem {
        Elem::F64 => "double"@,
        Elem::TF32 => "float"@,
        Elem::F32 => "float"@,
        Elem::F16 => "halfraw"@,
        Elem::BF16 => "bfloat16raw"@,
        _ => ""@,
    }
}

/// The name and the interpretation of a minifloat type.
fn minifloat_names(elem: Elem) -> (names: (&'static str, &'static str))
    requires
        elem.is_minifloat(),
    ensures
        names.0@ == minifloat_name(elem),
        names.1@ == interpretation(elem),
{
    match elem {
        Elem::FP4(kind) => ("fp4", kind.name()),
        Elem::FP4x2(kind) => ("fp4x2", kind.name()),
        Elem::FP6(kind) => ("fp6", kind.name()),
        Elem::FP6x2(kind) => ("fp6x2", kind.name()),
        Elem::FP8(kind) => ("fp8", kind.name()),
        Elem::FP8x2(kind) => ("fp8x2", kind.name()),
        _ => ("", ""),
    }
}

/// The `i`-th conversion of a float to fp4 or fp6.
pub open spec fn fp4_fp6_call(input: Variable, out: Variable, i: int) -> Text {
    let to = out.spec_item().spec_optimized().elem;
    Text::empty().lit("__nv_cvt_"@).lit(float_name(input.spec_elem().spec_unpacked())).lit(
        pair_suffix(width(out)),
    ).lit("_to_"@).lit(minifloat_name(to)).lit("("@).cat(
        operand(input.spec_optimized(), i, width(out)),
    ).lit(", __NV_"@).lit(interpretation(to)).lit(", cudaRoundNearest)"@)
}

/// `out` is made from a float, as fp4 or fp6.
#[verifier::opaque]
pub open spec fn to_fp4_fp6(input: Variable, out: Variable, tmp: u32) -> Text {
    unrolled(out, tmp, Seq::new(count(out), |i: int| fp4_fp6_call(input, out, i)))
}

/// Convert any float to fp4/fp6, with round to nearest
pub fn cast_to_fp4_fp6(f: &mut Formatter, input: Variable, out: Variable)
    requires
        out.spec_elem().is_fp4_fp6(),
        input.spec_elem().spec_unpacked().is_plain_float(),
        input.spec_elem().is_wide() ==> out.spec_item().fits(),
    ensures
        final(f).text@ == old(f).text@.cat(to_fp4_fp6(input, out, old(f).next_tmp)),
        final(f).next_tmp == after_unroll(out, old(f).next_tmp),
{
    let out_opt = out.optimized();
    let packing: usize = out_opt.item().packing_factor();
    let pack_suffix = if packing == 2 {
        "2"
    } else {
        ""
    };
    let (out_ty, interpretation) = minifloat_names(out_opt.elem());
    let in_ty = match input.elem().unpacked() {
        Elem::F64 => "double",
        Elem::TF32 | Elem::F32 => "float",
        Elem::F16 => "halfraw",
        _ => "bfloat16raw",
    };
    let input_opt = input.optimized();
    let op = |i: usize| -> (text: Fragment)
        requires
            i < count(out),
        ensures
            text@ == fp4_fp6_call(input, out, i as int),
        {
            proof {
                if input.spec_elem().is_wide() {
                    lemma_numbers_fit(out, i as int);
                }
            }
            let in_value = float_to_packed(input_opt, i, packing);
            let mut text = Fragment::new();
            text.write_str("__nv_cvt_");
            text.write_str(in_ty);
            text.write_str(pack_suffix);
            text.write_str("_to_");
            text.write_str(out_ty);
            text.write_str("(");
            text.append(&in_value);
            text.write_str(", __NV_");
            text.write_str(interpretation);
            text.write_str(", cudaRoundNearest)");
            text
        };
    reveal(to_fp4_fp6);
    let ghost before = *f;
    handle_unroll(f, out, op);
    proof {
        lemma_unrolled(op, out, |i: int| fp4_fp6_call(input, out, i), before, *f);
    }
}

/// What the conversion into e8m0 calls the float that it reads.
pub open spec fn scale_source_name(elem: Elem, width: int) -> Text {
    match elem {
        Elem::F64 => Text::empty().lit("double"@).lit(pair_suffix(width)),
        Elem::TF32 => Text::empty().lit("float"@).lit(pair_suffix(width)),
        Elem::F32 => Text::empty().lit("float"@).lit(pair_suffix(width)),
        Elem::BF16 => Text::empty().lit("bfloat16"@).lit(pair_suffix(width)).lit("raw"@),
        _ => Text::empty(),
    }
}

/// What the conversion into e8m0 calls its result.
pub open spec fn scale_name(elem: Elem) -> Seq<char> {
    if elem.spec_packing_factor() > 1 {
        "e8m0x2"@
    } else {
        "e8m0"@
    }
}

/// The `i`-th conversion of a float to e8m0.
pub open spec fn scale_call(input: Variable, out: Variable, i: int) -> Text {
    let to = out.spec_item().spec_optimized().elem;
    Text::empty().lit("__nv_cvt_"@).cat(scale_source_name(input.spec_elem(), width(out))).lit(
        "_to_"@,
    ).lit(scale_name(to)).lit("("@).cat(operand(input.spec_optimized(), i, width(out))).lit(
        ", __NV_NOSAT, cudaRoundPosInf)"@,
    )
}

/// `out` is made from a float, as e8m0.
#[verifier::opaque]
pub open spec fn to_scale(input: Variable, out: Variable, tmp: u32) -> Text {
    unrolled(out, tmp, Seq::new(count(out), |i: int| scale_call(input, out, i)))
}

/// Convert any float except f16 to e8m0
pub fn cast_to_scale(f: &mut Formatter, input: Variable, out: Variable)
    requires
        out.spec_elem().is_fp8(),
        input.spec_elem().is_plain_float(),
        !(input.spec_elem() is F16),
        input.spec_elem().is_wide() ==> out.spec_item().fits(),
    ensures
        final(f).text@ == old(f).text@.cat(to_scale(input, out, old(f).next_tmp)),
        final(f).next_tmp == after_unroll(out, old(f).next_tmp),
{
    let out_opt = out.optimized();
    let packing: usize = out_opt.item().packing_factor();
    let pack_suffix = if packing > 1 {
        "2"
    } else {
        ""
    };
    let out_ty = match out_opt.elem() {
        Elem::FP8(_) => "e8m0",
        _ => "e8m0x2",
    };
    let mut in_ty = Fragment::new();
    match input.elem() {
        Elem::F64 => {
            in_ty.write_str("double");
            in_ty.write_str(pack_suffix);
        },
        Elem::TF32 | Elem::F32 => {
            in_ty.write_str("float");
            in_ty.write_str(pack_suffix);
        },
        _ => {
            in_ty.write_str("bfloat16");
            in_ty.write_str(pack_suffix);
            in_ty.write_str("raw");
        },
    }
    let input_opt = input.optimized();
    let op = |i: usize| -> (text: Fragment)
        requires
            i < count(out),
        ensures
            text@ == scale_call(input, out, i as int),
        {
            proof {
                if input.spec_elem().is_wide() {
                    lemma_numbers_fit(out, i as int);
                }
            }
            let in_value = float_to_packed(input_opt, i, packing);
            let mut text = Fragment::new();
            text.write_str("__nv_cvt_");
            text.append(&in_ty);
            text.write_str("_to_");
            text.write_str(out_ty);
            text.write_str("(");
            text.append(&in_value);
            text.write_str(", __NV_NOSAT, cudaRoundPosInf)");
            text
        };
    reveal(to_scale);
    let ghost before = *f;
    handle_unroll(f, out, op);
    proof {
        lemma_unrolled(op, out, |i: int| scale_call(input, out, i), before, *f);
    }
}

/// The `i`-th conversion of a float to fp8.
pub open spec fn fp8_call(input: Variable, out: Variable, i: int) -> Text {
    let to = out.spec_item().spec_optimized().elem;
    Text::empty().lit("__nv_cvt_"@).lit(float_name(input.spec_elem())).lit(
        pair_suffix(width(out)),
    ).lit("_to_"@).lit(minifloat_name(to)).lit("("@).cat(
        operand(input.spec_optimized(), i, width(out)),
    ).lit(", __NV_NOSAT, __NV_"@).lit(interpretation(to)).lit(")"@)
}

/// `out` is made from a float, as fp8.
#[verifier::opaque]
pub open spec fn to_fp8(input: Variable, out: Variable, tmp: u32) -> Text {
    unrolled(out, tmp, Seq::new(count(out), |i: int| fp8_call(input, out, i)))
}

/// Convert any float to fp8 (except e8m0)
pub fn cast_to_fp8(f: &mut Formatter, input: Variable, out: Variable)
    requires
        out.spec_elem().is_fp8(),
        input.spec_elem().is_plain_float(),
        input.spec_elem().is_wide() ==> out.spec_item().fits(),
    ensures
        final(f).text@ == old(f).text@.cat(to_fp8(input, out, old(f).next_tmp)),
        final(f).next_tmp == after_unroll(out, old(f).next_tmp),
{
    let out_opt = out.optimized();
    let packing: usize = out_opt.item().packing_factor();
    let pack_suffix = if packing > 1 {
        "2"
    } else {
        ""
    };
    let (out_ty, interpretation) = minifloat_names(out_opt.elem());
    let in_ty = match input.elem() {
        Elem::F64 => "double",
        Elem::TF32 | Elem::F32 => "float",
        Elem::BF16 => "bfloat16raw",
        _ => "halfraw",
    };
    let input_opt = input.optimized();
    let op = |i: usize| -> (text: Fragment)
        requires
            i < count(out),
        ensures
            text@ == fp8_call(input, out, i as int),
        {
            proof {
                if input.spec_elem().is_wide() {
                    lemma_numbers_fit(out, i as int);
                }
            }
            let in_value = float_to_packed(input_opt, i, packing);
            let mut text = Fragment::new();
            text.write_str("__nv_cvt_");
            text.write_str(in_ty);
            text.write_str(pack_suffix);
            text.write_str("_to_");
            text.write_str(out_ty);
            text.write_str("(");
            text.append(&in_value);
            text.write_str(", __NV_NOSAT, __NV_");
            text.write_str(interpretation);
            text.write_str(")");
            text
        };
    reveal(to_fp8);
    let ghost before = *f;
    handle_unroll(f, out, op);
    proof {
        lemma_unrolled(op, out, |i: int| fp8_call(input, out, i), before, *f);
    }
}

/// Both numbers of a pair, for two elements of `out`. Where `out` has but one, the first.
pub open spec fn pair_entry(out: Variable, call: Text) -> Text {
    if out.spec_item().vectorization > 1 {
        Text::empty().cat(call).lit(".x,\n"@).cat(call).lit(".y"@)
    } else {
        Text::empty().cat(call).lit(".x"@)
    }
}

/// `out` is initialised with the numbers of the pairs that the calls return.
pub open spec fn split(out: Variable, calls: Seq<Text>) -> Text {
    let many = out.spec_item().vectorization > 1;
    let head = Text::empty().show(Shown::Left(out)).lit(" = "@);
    let body = join(
        Seq::new(calls.len(), |i: int| pair_entry(out, calls[i])),
        if many {
            ",\n"@
        } else {
            ""@
        },
    );
    if many {
        head.show(Shown::Item(out.spec_item())).lit(" {\n"@).cat(body).lit("\n}"@).lit(";\n"@)
    } else {
        head.cat(body).lit(";\n"@)
    }
}

/// Initialises `out` with the numbers of the pairs that `n` calls return.
fn split_pairs<F: Fn(usize) -> Fragment>(f: &mut Formatter, out: Variable, n: usize, op: F)
    requires
        forall|i: usize| i < n ==> #[trigger] op.requires((i,)),
    ensures
        final(f).next_tmp == old(f).next_tmp,
        exists|calls: Seq<Text>| #[trigger]
            written_in_order(op, n as nat, calls) && final(f).text@ == old(f).text@.cat(
                split(out, calls),
            ),
{
    let out_item = out.item();
    let mut text = Fragment::new();
    text.show(Shown::Left(out));
    text.write_str(" = ");
    if out_item.vectorization > 1 {
        text.show(Shown::Item(out_item));
        text.write_str(" {\n");
    }
    let ghost separator = if out_item.vectorization > 1 {
        ",\n"@
    } else {
        ""@
    };
    let mut body = Fragment::new();
    let ghost mut calls: Seq<Text> = Seq::empty();
    let ghost mut entries: Seq<Text> = Seq::empty();
    let mut i: usize = 0;
    while i < n
        invariant
            0 <= i <= n,
            out_item == out.spec_item(),
            separator == if out_item.vectorization > 1 {
                ",\n"@
            } else {
                ""@
            },
            written_in_order(op, i as nat, calls),
            entries =~= Seq::new(calls.len(), |k: int| pair_entry(out, calls[k])),
            forall|k: usize| k < n ==> #[trigger] op.requires((k,)),
            body@ == if 0 < i < n {
                join(entries, separator).lit(separator)
            } else {
                join(entries, separator)
            },
        decreases n - i,
    {
        let cvt = op(i);
        let mut entry = Fragment::new();
        entry.append(&cvt);
        if out_item.vectorization > 1 {
            entry.write_str(".x,\n");
            entry.append(&cvt);
            entry.write_str(".y");
        } else {
            entry.write_str(".x");
        }
        let ghost before = entries;
        proof {
            assert(op.ensures((i,), cvt));
            assert(writes(op, i, cvt@));
            calls = calls.push(cvt@);
            entries = entries.push(entry@);
            assert(entries.drop_last() =~= before);
            lemma_cat_empty(entry@);
        }
        body.append(&entry);
        if out_item.vectorization > 1 && i + 1 < n {
            body.write_str(",\n");
        }
        proof {
            lemma_cat_empty(join(entries, separator));
        }
        i += 1;
    }
    text.append(&body);
    if out_item.vectorization > 1 {
        text.write_str("\n}");
    }
    text.write_str(";\n");
    f.append(&text);
    assert(written_in_order(op, n as nat, calls));
}

/// What is written where the result of `op` is known.
proof fn lemma_split<F: Fn(usize) -> Fragment>(
    op: F,
    out: Variable,
    n: nat,
    expected: spec_fn(int) -> Text,
    before: Formatter,
    after: Formatter,
)
    requires
        n <= usize::MAX,
        exists|calls: Seq<Text>| #[trigger]
            written_in_order(op, n, calls) && after.text@ == before.text@.cat(split(out, calls)),
        forall|i: usize, fragment: Fragment|
            i < n && #[trigger] op.ensures((i,), fragment) ==> fragment@ == expected(i as int),
    ensures
        after.text@ == before.text@.cat(split(out, Seq::new(n, expected))),
{
    let calls = choose|calls: Seq<Text>| #[trigger]
        written_in_order(op, n, calls) && after.text@ == before.text@.cat(split(out, calls));
    lemma_written(op, n, calls, expected);
}

/// The conversion of the `i`-th pair of minifloats to a pair of halves.
pub open spec fn half_pair_call(input: Variable, i: int) -> Text {
    let from = input.spec_item().spec_optimized().elem;
    Text::empty().lit("__half2(__nv_cvt_"@).lit(minifloat_name(from)).lit("_to_halfraw2("@).show(
        element(input.spec_optimized(), i),
    ).lit(", __NV_"@).lit(interpretation(from)).lit("))"@)
}

/// The conversion of the `i`-th minifloat to a half.
pub open spec fn half_call(input: Variable, i: int) -> Text {
    let from = input.spec_item().spec_optimized().elem;
    Text::empty().show(Shown::Elem(Elem::F16)).lit("(__nv_cvt_"@).lit(minifloat_name(from)).lit(
        "_to_halfraw("@,
    ).show(element(input.spec_optimized(), i)).lit(", __NV_"@).lit(interpretation(from)).lit("))"@)
}

/// `out` is made from a minifloat, as half: from its pairs where it has them.
#[verifier::opaque]
pub open spec fn minifloat_to_half(input: Variable, out: Variable, tmp: u32) -> Text {
    if width(input) > 1 {
        split(out, Seq::new(count(input), |i: int| half_pair_call(input, i)))
    } else {
        unrolled(out, tmp, Seq::new(count(out), |i: int| half_call(input, i)))
    }
}

/// The number of the next temporary after a conversion to half or bfloat.
pub open spec fn after_widening(input: Variable, out: Variable, tmp: u32) -> u32 {
    if width(input) > 1 {
        tmp
    } else {
        after_unroll(out, tmp)
    }
}

/// Convert any FP8/6/4 except e8m0 to half.
///
/// For packed inputs (x2), each element produces 2 half values via halfraw2.
/// The output is unpacked F16 with doubled vectorization, so we extract .x and .y
/// from each half2 result into consecutive output slots.
pub fn cast_minifloat_to_half(f: &mut Formatter, input: Variable, out: Variable)
    requires
        input.spec_elem().is_minifloat(),
    ensures
        final(f).text@ == old(f).text@.cat(minifloat_to_half(input, out, old(f).next_tmp)),
        final(f).next_tmp == after_widening(input, out, old(f).next_tmp),
{
    let in_opt = input.optimized();
    let packed = in_opt.item().packing_factor() > 1;
    let (in_ty, interpretation) = minifloat_names(in_opt.elem());
    reveal(minifloat_to_half);
    let ghost before = *f;
    if packed {
        let in_vec: usize = in_opt.item().vectorization;
        let op = |i: usize| -> (text: Fragment)
            ensures
                text@ == half_pair_call(input, i as int),
            {
                let mut text = Fragment::new();
                text.write_str("__half2(__nv_cvt_");
                text.write_str(in_ty);
                text.write_str("_to_halfraw2(");
                text.show(Shown::Indexed(in_opt.index(i)));
                text.write_str(", __NV_");
                text.write_str(interpretation);
                text.write_str("))");
                text
            };
        split_pairs(f, out, in_vec, op);
        proof {
            lemma_split(
                op,
                out,
                in_vec as nat,
                |i: int| half_pair_call(input, i),
                before,
                *f,
            );
        }
    } else {
        let op = |i: usize| -> (text: Fragment)
            ensures
                text@ == half_call(input, i as int),
            {
                let mut text = Fragment::new();
                text.show(Shown::Elem(Elem::F16));
                text.write_str("(__nv_cvt_");
                text.write_str(in_ty);
                text.write_str("_to_halfraw(");
                text.show(Shown::Indexed(in_opt.index(i)));
                text.write_str(", __NV_");
                text.write_str(interpretation);
                text.write_str("))");
                text
            };
        handle_unroll(f, out, op);
        proof {
            lemma_unrolled(op, out, |i: int| half_call(input, i), before, *f);
        }
    }
}

/// The conversion of the `i`-th pair of e8m0 to a pair of bfloats.
pub open spec fn bfloat_pair_call(input: Variable, i: int) -> Text {
    Text::empty().lit("__nv_bfloat162(__nv_cvt_e8m0x2_to_bf162raw("@).show(
        element(input.spec_optimized(), i),
    ).lit("))"@)
}

/// The conversion of the `i`-th e8m0 to a bfloat.
pub open spec fn bfloat_call(input: Variable, i: int) -> Text {
    Text::empty().show(Shown::Elem(Elem::BF16)).lit("(__nv_cvt_e8m0_to_bf16raw("@).show(
        element(input.spec_optimized(), i),
    ).lit("))"@)
}

/// `out` is made from e8m0, as bfloat: from its pairs where it has them.
#[verifier::opaque]
pub open spec fn scale_to_bfloat(input: Variable, out: Variable, tmp: u32) -> Text {
    if width(input) > 1 {
        split(out, Seq::new(count(input), |i: int| bfloat_pair_call(input, i)))
    } else {
        unrolled(out, tmp, Seq::new(count(out), |i: int| bfloat_call(input, i)))
    }
}

/// Convert an e8m0 scaling factor to bf16.
///
/// For packed inputs (e8m0x2), each element produces 2 bf16 values.
/// Output is unpacked BF16 with doubled vectorization.
pub fn cast_scale_to_bfloat(f: &mut Formatter, input: Variable, out: Variable)
    ensures
        final(f).text@ == old(f).text@.cat(scale_to_bfloat(input, out, old(f).next_tmp)),
        final(f).next_tmp == after_widening(input, out, old(f).next_tmp),
{
    let in_opt = input.optimized();
    let packed = in_opt.item().packing_factor() > 1;
    reveal(scale_to_bfloat);
    let ghost before = *f;
    if packed {
        let in_vec: usize = in_opt.item().vectorization;
        let op = |i: usize| -> (text: Fragment)
            ensures
                text@ == bfloat_pair_call(input, i as int),
            {
                let mut text = Fragment::new();
                text.write_str("__nv_bfloat162(__nv_cvt_e8m0x2_to_bf162raw(");
                text.show(Shown::Indexed(in_opt.index(i)));
                text.write_str("))");
                text
            };
        split_pairs(f, out, in_vec, op);
        proof {
            lemma_split(
                op,
                out,
                in_vec as nat,
                |i: int| bfloat_pair_call(input, i),
                before,
                *f,
            );
        }
    } else {
        let op = |i: usize| -> (text: Fragment)
            ensures
                text@ == bfloat_call(input, i as int),
            {
                let mut text = Fragment::new();
                text.show(Shown::Elem(Elem::BF16));
                text.write_str("(__nv_cvt_e8m0_to_bf16raw(");
                text.show(Shown::Indexed(in_opt.index(i)));
                text.write_str("))");
                text
            };
        handle_unroll(f, out, op);
        proof {
            lemma_unrolled(op, out, |i: int| bfloat_call(input, i), before, *f);
        }
    }
}

/// A plain assignment, on a line of its own.
pub open spec fn assignment(input: Variable, out: Variable) -> Text {
    Text::empty().show(
        Shown::Instruction(Instruction::Assign(UnaryInstruction { input, out })),
    ).lit("\n"@)
}

fn write_assign(f: &mut Formatter, input: Variable, out: Variable)
    ensures
        final(f).text@ == old(f).text@.cat(assignment(input, out)),
        final(f).next_tmp == old(f).next_tmp,
{
    let mut text = Fragment::new();
    text.show(Shown::Instruction(Instruction::Assign(UnaryInstruction { input, out })));
    text.write_str("\n");
    f.append(&text);
}

/// special cast function for recursive conversion in the case of minifloat to minifloat conversion
///
/// Needs to jump through a lot of hoops to deal with CUDA nonsense.
/// The overview of available conversions is as follows:
///
/// | From                     | To             | Extra args                 |
/// | ------------------------ | -------------- | -------------------------- |
/// | f16/bf16/f32/f64         | e4m3/e5m2      | Interpretation, saturation |
/// | f16/bf16/f32/f64         | e3m2/e2m3/e2m1 | Interpretation, rounding   |
/// | bf16/f32/f64             | e8m0           | saturation, rounding       |
/// | e4m3/e5m2/e3m2/e2m3/e2m1 | f16            | Interpretation,            |
/// | e8m0                     | bf16           |                            |
///
/// When the input and output don't match these options, we need to do a two-step conversion.
/// When the input is a minifloat we always need to cast out to `f16`/`bf16`, and then convert to
/// the actual out type if it differs. Trying to cast ints also requires an extra conversion, and
/// so does `f16` to `e8m0` (though it's not recommended to do that anyways, you should be using
/// `e5m2` for that since you don't have 8 bits of exponent in f16).
///
/// See also:
/// <https://docs.nvidia.com/cuda/cuda-math-api/cuda_math_api/group__CUDA__MATH__FP8__MISC.html>
/// <https://docs.nvidia.com/cuda/cuda-math-api/cuda_math_api/group__CUDA__MATH__FP6__MISC.html>
/// <https://docs.nvidia.com/cuda/cuda-math-api/cuda_math_api/group__CUDA__MATH__FP4__MISC.html>
#[verifier::rlimit(30)]
pub fn special_cast(f: &mut Formatter, input: &Variable, out: &Variable)
    requires
        convertible(*input, *out),
    ensures
        final(f).text@ == old(f).text@.cat(plan(*input, *out, old(f).next_tmp).text()),
        final(f).next_tmp == plan(*input, *out, old(f).next_tmp).next_tmp,
{
    let mut current_in = *input;
    let ghost before = f.text@;
    let ghost mut chain = Chain::start(*input, f.next_tmp);
    reveal(Step::text);
    reveal(Step::next_tmp);
    proof {
        lemma_cat_empty(before);
    }

    if matches!(input.elem().unpacked(), Elem::FP4(_) | Elem::FP6(_) | Elem::FP8(_)) {
        // Intermediate uses unpacked scalar half/bfloat types.
        // Vectorization = input elements x packing factor (e.g. FP4x2 vec 1 -> F16 vec 2).
        let in_opt = input.optimized();
        let packing: usize = in_opt.item().packing_factor();
        proof {
            input.spec_item().lemma_optimized();
        }
        let item = Item {
            elem: match input.elem().unpacked() {
                Elem::FP8(FP8Kind::UE8M0) => Elem::BF16,
                _ => Elem::F16,
            },
            vectorization: in_opt.item().vectorization * packing,
            native: false,
        };
        let out_var = if item == out.item() {
            *out
        } else {
            f.tmp(item)
        };
        if matches!(input.elem().unpacked(), Elem::FP8(FP8Kind::UE8M0)) {
            cast_scale_to_bfloat(f, current_in, out_var);
        } else {
            cast_minifloat_to_half(f, current_in, out_var);
        }
        current_in = out_var;
        proof {
            let next = widen(*input, *out, chain.next_tmp);
            chain.lemma_push(next.steps.last(), before);
            chain = next;
        }
        assert(current_in == chain.value && f.next_tmp == chain.next_tmp && f.text@ == before.cat(
            chain.text(),
        ));
    }

    // Broadcast scalars to packing factor
    if out.item().packing_factor() > 1 && current_in.item().vectorization == 1 {
        let tmp = f.tmp(
            Item {
                elem: current_in.item().elem,
                vectorization: out.item().packing_factor(),
                native: current_in.item().native,
            },
        );
        write_assign(f, current_in, tmp);
        proof {
            chain.lemma_to_new(StepKind::Assign, tmp.spec_item(), before);
            chain = broadcast_scalar(chain, *out);
        }
        current_in = tmp;
        assert(current_in == chain.value && f.next_tmp == chain.next_tmp && f.text@ == before.cat(
            chain.text(),
        ));
    }
    if matches!(
        current_in.elem(),
        Elem::U8
            | Elem::U16
            | Elem::U32
            | Elem::U64
            | Elem::I8
            | Elem::I16
            | Elem::I32
            | Elem::I64
            | Elem::Bool
    ) {
        // Precision is irrelevant for int, so use bf16 for the range
        let tmp = f.tmp(
            Item {
                elem: Elem::BF16,
                vectorization: current_in.item().vectorization,
                native: current_in.item().native,
            },
        );
        write_assign(f, current_in, tmp);
        proof {
            chain.lemma_to_new(StepKind::Assign, tmp.spec_item(), before);
            chain = leave_integers(chain);
        }
        current_in = tmp;
        assert(current_in == chain.value && f.next_tmp == chain.next_tmp && f.text@ == before.cat(
            chain.text(),
        ));
    }
    if matches!(out.elem().unpacked(), Elem::FP4(_) | Elem::FP6(_)) {
        proof {
            chain.lemma_to(StepKind::ToFp4Fp6, *out, before);
        }
        cast_to_fp4_fp6(f, current_in, *out);
        return;
    }
    if matches!(out.elem().unpacked(), Elem::FP8(FP8Kind::UE8M0)) {
        // Scale can't be converted from half...
        if matches!(current_in.elem(), Elem::F16) {
            let mut item = current_in.item();
            item.elem = Elem::BF16;
            let tmp = f.tmp(item);
            write_assign(f, current_in, tmp);
            proof {
                chain.lemma_to_new(StepKind::Assign, item, before);
                chain = chain.to_new(StepKind::Assign, item);
            }
            current_in = tmp;
        }
        proof {
            chain.lemma_to(StepKind::ToScale, *out, before);
        }
        cast_to_scale(f, current_in, *out);
        return;
    }
    if matches!(out.elem().unpacked(), Elem::FP8(_)) {
        proof {
            chain.lemma_to(StepKind::ToFp8, *out, before);
        }
        cast_to_fp8(f, current_in, *out);
        return;
    }
    if current_in.item() != out.item() {
        proof {
            chain.lemma_to(StepKind::Assign, *out, before);
        }
        write_assign(f, current_in, *out);
    }
}

} // verus!
