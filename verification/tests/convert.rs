use cuda_convert::convert::{
    cast_minifloat_to_half, cast_scale_to_bfloat, cast_to_fp4_fp6, cast_to_fp8, cast_to_scale,
    float_to_packed, handle_unroll, special_cast,
};
use cuda_convert::element::{Elem, FP4Kind, FP6Kind, FP8Kind};
use cuda_convert::item::Item;
use cuda_convert::plan::can_convert;
use cuda_convert::text::{Formatter, Fragment, Piece, Shown};
use cuda_convert::variable::{Instruction, Variable};

const E4M3: Elem = Elem::FP8(FP8Kind::E4M3);
const E5M2: Elem = Elem::FP8(FP8Kind::E5M2);
const E8M0: Elem = Elem::FP8(FP8Kind::UE8M0);
const E2M1: Elem = Elem::FP4(FP4Kind::E2M1);
const E2M3: Elem = Elem::FP6(FP6Kind::E2M3);
const E3M2: Elem = Elem::FP6(FP6Kind::E3M2);
const E4M3X2: Elem = Elem::FP8x2(FP8Kind::E4M3);
const E5M2X2: Elem = Elem::FP8x2(FP8Kind::E5M2);
const E8M0X2: Elem = Elem::FP8x2(FP8Kind::UE8M0);
const E2M1X2: Elem = Elem::FP4x2(FP4Kind::E2M1);

fn item(elem: Elem, vectorization: usize) -> Item {
    Item { elem, vectorization, native: false }
}

fn named(id: u32, elem: Elem, vectorization: usize) -> Variable {
    Variable::Named { id, item: item(elem, vectorization) }
}

fn tmp(id: u32, elem: Elem, vectorization: usize) -> Variable {
    Variable::Tmp { id, item: item(elem, vectorization) }
}

fn elem_name(elem: Elem) -> String {
    match elem {
        Elem::TF32 => "tf32".to_string(),
        Elem::F32 => "float".to_string(),
        Elem::F64 => "double".to_string(),
        Elem::F16 => "__half".to_string(),
        Elem::F16x2 => "__half2".to_string(),
        Elem::BF16 => "__nv_bfloat16".to_string(),
        Elem::BF16x2 => "__nv_bfloat162".to_string(),
        Elem::FP4(_) => "fp4".to_string(),
        Elem::FP4x2(_) => "fp4x2".to_string(),
        Elem::FP6(_) => "fp6".to_string(),
        Elem::FP6x2(_) => "fp6x2".to_string(),
        Elem::FP8(_) => "fp8".to_string(),
        Elem::FP8x2(_) => "fp8x2".to_string(),
        other => format!("{:?}", other),
    }
}

fn item_name(item: Item) -> String {
    if item.vectorization == 1 {
        elem_name(item.elem)
    } else {
        format!("{}_{}", elem_name(item.elem), item.vectorization)
    }
}

fn name(var: Variable) -> String {
    match var {
        Variable::Named { id, .. } => format!("v{}", id),
        Variable::Tmp { id, .. } => format!("_tmp_{}", id),
    }
}

fn left(var: Variable) -> String {
    match var {
        Variable::Named { .. } => name(var),
        Variable::Tmp { item, .. } => format!("{} {}", item_name(item), name(var)),
    }
}

/// The text in one possible spelling of the gaps.
fn render(text: &Fragment) -> String {
    let mut out = String::new();
    for piece in &text.pieces {
        match piece {
            Piece::Text(chars) => out.push_str(chars),
            Piece::Gap(Shown::Elem(elem)) => out.push_str(&elem_name(*elem)),
            Piece::Gap(Shown::Item(item)) => out.push_str(&item_name(*item)),
            Piece::Gap(Shown::Variable(var)) => out.push_str(&name(*var)),
            Piece::Gap(Shown::Left(var)) => out.push_str(&left(*var)),
            Piece::Gap(Shown::Indexed(read)) => {
                out.push_str(&format!("{}:{}[{}]", name(read.var), item_name(read.var.item()), read.index))
            }
            Piece::Gap(Shown::Instruction(Instruction::Assign(assign))) => {
                out.push_str(&format!("{} := {};", left(assign.out), name(assign.input)))
            }
        }
    }
    out
}

fn cast(input: Variable, out: Variable, next_tmp: u32) -> (String, u32) {
    assert!(can_convert(input, out));
    let mut f = Formatter::new(next_tmp);
    special_cast(&mut f, &input, &out);
    (render(&f.text), f.next_tmp)
}

fn entry(i: usize) -> Fragment {
    let mut text = Fragment::new();
    text.write_str(&format!("e{}", i));
    text
}

fn unroll(out: Variable) -> (String, u32) {
    let mut f = Formatter::new(5);
    handle_unroll(&mut f, out, entry);
    (render(&f.text), f.next_tmp)
}

#[test]
fn unroll_of_a_scalar_has_no_braces() {
    assert_eq!(unroll(named(1, E4M3, 1)), ("v1 = e0;\n".to_string(), 5));
}

#[test]
fn unroll_of_a_vector_lists_its_entries() {
    let expected = "v1 = float_3 {\ne0,\ne1,\ne2\n};\n";
    assert_eq!(unroll(named(1, Elem::F32, 3)), (expected.to_string(), 5));
}

#[test]
fn unroll_of_nothing_is_an_empty_initialiser() {
    assert_eq!(unroll(named(1, Elem::F32, 0)), ("v1 = ;\n".to_string(), 5));
}

#[test]
fn unroll_goes_through_the_packed_type() {
    let expected = "__half2_2 _tmp_5 = __half2_2 {\ne0,\ne1\n};\nv1 = reinterpret_cast<__half_4&>(_tmp_5);\n";
    assert_eq!(unroll(named(1, Elem::F16, 4)), (expected.to_string(), 6));
    let expected = "__half2 _tmp_5 = e0;\nv1 = reinterpret_cast<__half_2&>(_tmp_5);\n";
    assert_eq!(unroll(named(1, Elem::F16, 2)), (expected.to_string(), 6));
}

#[test]
fn unroll_writes_a_packed_variable_itself() {
    assert_eq!(unroll(named(1, E4M3X2, 1)), ("v1 = e0;\n".to_string(), 5));
    assert_eq!(unroll(named(1, E4M3X2, 2)), ("v1 = fp8x2_2 {\ne0,\ne1\n};\n".to_string(), 5));
}

#[test]
fn unroll_appends_to_what_is_there() {
    let mut f = Formatter::new(0);
    f.append(&entry(9));
    handle_unroll(&mut f, named(1, E4M3, 1), entry);
    assert_eq!(render(&f.text), "e9v1 = e0;\n");
}

fn packed(elem: Elem, vectorization: usize, i: usize, packing: usize) -> String {
    render(&float_to_packed(named(0, elem, vectorization), i, packing))
}

#[test]
fn wide_floats_are_paired_for_the_conversion() {
    assert_eq!(packed(Elem::F32, 4, 1, 2), "float2 { v0:float_4[2], v0:float_4[3] }");
    assert_eq!(packed(Elem::TF32, 2, 0, 2), "float2 { v0:tf32_2[0], v0:tf32_2[1] }");
    assert_eq!(packed(Elem::F64, 4, 1, 2), "double2 { v0:double_4[2], v0:double_4[3] }");
}

#[test]
fn wide_floats_alone_are_read_as_they_are() {
    assert_eq!(packed(Elem::F32, 3, 2, 1), "v0:float_3[2]");
    assert_eq!(packed(Elem::F64, 3, 2, 1), "v0:double_3[2]");
}

#[test]
fn halves_are_read_as_they_are() {
    assert_eq!(packed(Elem::F16, 3, 2, 1), "v0:__half_3[2]");
    assert_eq!(packed(Elem::F16x2, 2, 1, 2), "v0:__half2_2[1]");
    assert_eq!(packed(Elem::BF16, 3, 2, 1), "v0:__nv_bfloat16_3[2]");
    assert_eq!(packed(Elem::BF16x2, 2, 1, 2), "v0:__nv_bfloat162_2[1]");
}

fn narrow(to: fn(&mut Formatter, Variable, Variable), input: Variable, out: Variable) -> String {
    let mut f = Formatter::new(0);
    to(&mut f, input, out);
    render(&f.text)
}

#[test]
fn floats_to_fp4_and_fp6() {
    let one = |from: Elem, to: Elem| narrow(cast_to_fp4_fp6, named(0, from, 1), named(1, to, 1));
    assert_eq!(one(Elem::F64, E2M1), "v1 = __nv_cvt_double_to_fp4(v0:double[0], __NV_E2M1, cudaRoundNearest);\n");
    assert_eq!(one(Elem::F32, E2M3), "v1 = __nv_cvt_float_to_fp6(v0:float[0], __NV_E2M3, cudaRoundNearest);\n");
    assert_eq!(one(Elem::TF32, E3M2), "v1 = __nv_cvt_float_to_fp6(v0:tf32[0], __NV_E3M2, cudaRoundNearest);\n");
    assert_eq!(one(Elem::F16, E2M1), "v1 = __nv_cvt_halfraw_to_fp4(v0:__half[0], __NV_E2M1, cudaRoundNearest);\n");
    assert_eq!(
        one(Elem::BF16, E2M1),
        "v1 = __nv_cvt_bfloat16raw_to_fp4(v0:__nv_bfloat16[0], __NV_E2M1, cudaRoundNearest);\n"
    );
}

#[test]
fn pairs_of_floats_to_fp4_and_fp6() {
    let two = |from: Elem, to: Elem| narrow(cast_to_fp4_fp6, named(0, from, 2), named(1, to, 2));
    assert_eq!(
        two(Elem::F32, E2M1),
        "fp4x2 _tmp_0 = __nv_cvt_float2_to_fp4x2(float2 { v0:float_2[0], v0:float_2[1] }, __NV_E2M1, cudaRoundNearest);\nv1 = reinterpret_cast<fp4_2&>(_tmp_0);\n"
    );
    assert_eq!(
        two(Elem::BF16, E2M3),
        "fp6x2 _tmp_0 = __nv_cvt_bfloat16raw2_to_fp6x2(v0:__nv_bfloat162[0], __NV_E2M3, cudaRoundNearest);\nv1 = reinterpret_cast<fp6_2&>(_tmp_0);\n"
    );
}

#[test]
fn packed_halves_to_packed_fp4() {
    assert_eq!(
        narrow(cast_to_fp4_fp6, named(0, Elem::F16x2, 1), named(1, E2M1X2, 1)),
        "v1 = __nv_cvt_halfraw2_to_fp4x2(v0:__half2[0], __NV_E2M1, cudaRoundNearest);\n"
    );
}

#[test]
fn floats_to_scale() {
    let one = |from: Elem| narrow(cast_to_scale, named(0, from, 1), named(1, E8M0, 1));
    assert_eq!(one(Elem::F64), "v1 = __nv_cvt_double_to_e8m0(v0:double[0], __NV_NOSAT, cudaRoundPosInf);\n");
    assert_eq!(one(Elem::F32), "v1 = __nv_cvt_float_to_e8m0(v0:float[0], __NV_NOSAT, cudaRoundPosInf);\n");
    assert_eq!(one(Elem::TF32), "v1 = __nv_cvt_float_to_e8m0(v0:tf32[0], __NV_NOSAT, cudaRoundPosInf);\n");
    assert_eq!(
        one(Elem::BF16),
        "v1 = __nv_cvt_bfloat16raw_to_e8m0(v0:__nv_bfloat16[0], __NV_NOSAT, cudaRoundPosInf);\n"
    );
}

#[test]
fn pairs_of_floats_to_scale() {
    let two = |from: Elem, vec: usize| narrow(cast_to_scale, named(0, from, vec), named(1, E8M0X2, 1));
    assert_eq!(
        two(Elem::BF16, 2),
        "v1 = __nv_cvt_bfloat162raw_to_e8m0x2(v0:__nv_bfloat162[0], __NV_NOSAT, cudaRoundPosInf);\n"
    );
    assert_eq!(
        two(Elem::F64, 2),
        "v1 = __nv_cvt_double2_to_e8m0x2(double2 { v0:double_2[0], v0:double_2[1] }, __NV_NOSAT, cudaRoundPosInf);\n"
    );
}

#[test]
fn floats_to_fp8() {
    let one = |from: Elem, to: Elem| narrow(cast_to_fp8, named(0, from, 1), named(1, to, 1));
    assert_eq!(one(Elem::F64, E4M3), "v1 = __nv_cvt_double_to_fp8(v0:double[0], __NV_NOSAT, __NV_E4M3);\n");
    assert_eq!(one(Elem::F32, E5M2), "v1 = __nv_cvt_float_to_fp8(v0:float[0], __NV_NOSAT, __NV_E5M2);\n");
    assert_eq!(one(Elem::TF32, E5M2), "v1 = __nv_cvt_float_to_fp8(v0:tf32[0], __NV_NOSAT, __NV_E5M2);\n");
    assert_eq!(one(Elem::F16, E4M3), "v1 = __nv_cvt_halfraw_to_fp8(v0:__half[0], __NV_NOSAT, __NV_E4M3);\n");
    assert_eq!(
        one(Elem::BF16, E4M3),
        "v1 = __nv_cvt_bfloat16raw_to_fp8(v0:__nv_bfloat16[0], __NV_NOSAT, __NV_E4M3);\n"
    );
}

#[test]
fn four_halves_to_fp8() {
    assert_eq!(
        narrow(cast_to_fp8, named(0, Elem::F16, 4), named(1, E4M3, 4)),
        "fp8x2_2 _tmp_0 = fp8x2_2 {\n__nv_cvt_halfraw2_to_fp8x2(v0:__half2_2[0], __NV_NOSAT, __NV_E4M3),\n__nv_cvt_halfraw2_to_fp8x2(v0:__half2_2[1], __NV_NOSAT, __NV_E4M3)\n};\nv1 = reinterpret_cast<fp8_4&>(_tmp_0);\n"
    );
}

#[test]
fn a_minifloat_to_half() {
    assert_eq!(
        narrow(cast_minifloat_to_half, named(0, E2M1, 1), named(1, Elem::F16, 1)),
        "v1 = __half(__nv_cvt_fp4_to_halfraw(v0:fp4[0], __NV_E2M1));\n"
    );
    assert_eq!(
        narrow(cast_minifloat_to_half, named(0, E3M2, 3), named(1, Elem::F16, 3)),
        "v1 = __half_3 {\n__half(__nv_cvt_fp6_to_halfraw(v0:fp6_3[0], __NV_E3M2)),\n__half(__nv_cvt_fp6_to_halfraw(v0:fp6_3[1], __NV_E3M2)),\n__half(__nv_cvt_fp6_to_halfraw(v0:fp6_3[2], __NV_E3M2))\n};\n"
    );
}

#[test]
fn pairs_of_minifloats_to_halves() {
    assert_eq!(
        narrow(cast_minifloat_to_half, named(0, E5M2, 4), named(1, Elem::F16, 4)),
        "v1 = __half_4 {\n\
         __half2(__nv_cvt_fp8x2_to_halfraw2(v0:fp8x2_2[0], __NV_E5M2)).x,\n\
         __half2(__nv_cvt_fp8x2_to_halfraw2(v0:fp8x2_2[0], __NV_E5M2)).y,\n\
         __half2(__nv_cvt_fp8x2_to_halfraw2(v0:fp8x2_2[1], __NV_E5M2)).x,\n\
         __half2(__nv_cvt_fp8x2_to_halfraw2(v0:fp8x2_2[1], __NV_E5M2)).y\n};\n"
    );
}

#[test]
fn pairs_into_one_half_keep_the_first() {
    assert_eq!(
        narrow(cast_minifloat_to_half, named(0, E2M1X2, 1), named(1, Elem::F16, 1)),
        "v1 = __half2(__nv_cvt_fp4x2_to_halfraw2(v0:fp4x2[0], __NV_E2M1)).x;\n"
    );
    assert_eq!(
        narrow(cast_minifloat_to_half, named(0, E2M1X2, 2), named(1, Elem::F16, 1)),
        "v1 = __half2(__nv_cvt_fp4x2_to_halfraw2(v0:fp4x2_2[0], __NV_E2M1)).x__half2(__nv_cvt_fp4x2_to_halfraw2(v0:fp4x2_2[1], __NV_E2M1)).x;\n"
    );
}

#[test]
fn a_scale_to_bfloat() {
    assert_eq!(
        narrow(cast_scale_to_bfloat, named(0, E8M0, 1), named(1, Elem::BF16, 1)),
        "v1 = __nv_bfloat16(__nv_cvt_e8m0_to_bf16raw(v0:fp8[0]));\n"
    );
    assert_eq!(
        narrow(cast_scale_to_bfloat, named(0, E8M0, 2), named(1, Elem::BF16, 2)),
        "v1 = __nv_bfloat16_2 {\n\
         __nv_bfloat162(__nv_cvt_e8m0x2_to_bf162raw(v0:fp8x2[0])).x,\n\
         __nv_bfloat162(__nv_cvt_e8m0x2_to_bf162raw(v0:fp8x2[0])).y\n};\n"
    );
    assert_eq!(
        narrow(cast_scale_to_bfloat, named(0, E8M0X2, 1), named(1, Elem::BF16, 1)),
        "v1 = __nv_bfloat162(__nv_cvt_e8m0x2_to_bf162raw(v0:fp8x2[0])).x;\n"
    );
}

#[test]
fn an_available_conversion_is_one_statement() {
    assert_eq!(
        cast(named(0, Elem::F32, 1), named(1, E4M3, 1), 3),
        ("v1 = __nv_cvt_float_to_fp8(v0:float[0], __NV_NOSAT, __NV_E4M3);\n".to_string(), 3)
    );
    assert_eq!(
        cast(named(0, E4M3, 1), named(1, Elem::F16, 1), 3),
        ("v1 = __half(__nv_cvt_fp8_to_halfraw(v0:fp8[0], __NV_E4M3));\n".to_string(), 3)
    );
    assert_eq!(
        cast(named(0, E8M0, 1), named(1, Elem::BF16, 1), 3),
        ("v1 = __nv_bfloat16(__nv_cvt_e8m0_to_bf16raw(v0:fp8[0]));\n".to_string(), 3)
    );
}

#[test]
fn a_minifloat_to_a_wide_float_goes_through_half() {
    assert_eq!(
        cast(named(0, E4M3, 1), named(1, Elem::F32, 1), 3),
        ("__half _tmp_3 = __half(__nv_cvt_fp8_to_halfraw(v0:fp8[0], __NV_E4M3));\nv1 := _tmp_3;\n".to_string(), 4)
    );
}

#[test]
fn a_minifloat_to_another_goes_through_half() {
    assert_eq!(
        cast(named(0, E2M1, 1), named(1, E4M3, 1), 3),
        (
            "__half _tmp_3 = __half(__nv_cvt_fp4_to_halfraw(v0:fp4[0], __NV_E2M1));\n\
             v1 = __nv_cvt_halfraw_to_fp8(_tmp_3:__half[0], __NV_NOSAT, __NV_E4M3);\n"
                .to_string(),
            4
        )
    );
}

#[test]
fn packed_minifloats_spread_over_twice_the_elements() {
    assert_eq!(
        cast(named(0, E2M1X2, 1), named(1, Elem::F16, 2), 0),
        (
            "v1 = __half_2 {\n\
             __half2(__nv_cvt_fp4x2_to_halfraw2(v0:fp4x2[0], __NV_E2M1)).x,\n\
             __half2(__nv_cvt_fp4x2_to_halfraw2(v0:fp4x2[0], __NV_E2M1)).y\n};\n"
                .to_string(),
            0
        )
    );
}

#[test]
fn a_minifloat_to_scale_goes_through_half_and_bfloat() {
    assert_eq!(
        cast(named(0, E5M2, 1), named(1, E8M0, 1), 0),
        (
            "__half _tmp_0 = __half(__nv_cvt_fp8_to_halfraw(v0:fp8[0], __NV_E5M2));\n\
             __nv_bfloat16 _tmp_1 := _tmp_0;\n\
             v1 = __nv_cvt_bfloat16raw_to_e8m0(_tmp_1:__nv_bfloat16[0], __NV_NOSAT, cudaRoundPosInf);\n"
                .to_string(),
            2
        )
    );
}

#[test]
fn a_scale_to_a_minifloat_goes_through_bfloat() {
    assert_eq!(
        cast(named(0, E8M0, 1), named(1, E2M3, 1), 0),
        (
            "__nv_bfloat16 _tmp_0 = __nv_bfloat16(__nv_cvt_e8m0_to_bf16raw(v0:fp8[0]));\n\
             v1 = __nv_cvt_bfloat16raw_to_fp6(_tmp_0:__nv_bfloat16[0], __NV_E2M3, cudaRoundNearest);\n"
                .to_string(),
            1
        )
    );
}

#[test]
fn a_half_to_scale_goes_through_bfloat() {
    assert_eq!(
        cast(named(0, Elem::F16, 1), named(1, E8M0, 1), 0),
        (
            "__nv_bfloat16 _tmp_0 := v0;\n\
             v1 = __nv_cvt_bfloat16raw_to_e8m0(_tmp_0:__nv_bfloat16[0], __NV_NOSAT, cudaRoundPosInf);\n"
                .to_string(),
            1
        )
    );
}

#[test]
fn integers_go_through_bfloat() {
    let integers = [
        Elem::U8, Elem::U16, Elem::U32, Elem::U64, Elem::I8, Elem::I16, Elem::I32, Elem::I64, Elem::Bool,
    ];
    for elem in integers {
        assert_eq!(
            cast(named(0, elem, 1), named(1, E4M3, 1), 0),
            (
                "__nv_bfloat16 _tmp_0 := v0;\n\
                 v1 = __nv_cvt_bfloat16raw_to_fp8(_tmp_0:__nv_bfloat16[0], __NV_NOSAT, __NV_E4M3);\n"
                    .to_string(),
                1
            )
        );
    }
}

#[test]
fn scalars_are_repeated_for_a_packed_element() {
    assert_eq!(
        cast(named(0, Elem::F32, 1), named(1, E2M1X2, 1), 0),
        (
            "float_2 _tmp_0 := v0;\n\
             v1 = __nv_cvt_float2_to_fp4x2(float2 { _tmp_0:float_2[0], _tmp_0:float_2[1] }, __NV_E2M1, cudaRoundNearest);\n"
                .to_string(),
            1
        )
    );
    assert_eq!(
        cast(named(0, Elem::I32, 1), named(1, E4M3X2, 1), 0),
        (
            "I32_2 _tmp_0 := v0;\n\
             __nv_bfloat16_2 _tmp_1 := _tmp_0;\n\
             v1 = __nv_cvt_bfloat16raw2_to_fp8x2(_tmp_1:__nv_bfloat162[0], __NV_NOSAT, __NV_E4M3);\n"
                .to_string(),
            2
        )
    );
}

#[test]
fn a_single_minifloat_is_repeated_as_a_half() {
    let input = Variable::Named { id: 0, item: Item { elem: E4M3, vectorization: 1, native: true } };
    let out = named(1, Elem::F16x2, 1);
    let mut f = Formatter::new(0);
    special_cast(&mut f, &input, &out);
    assert_eq!(
        render(&f.text),
        "__half _tmp_0 = __half(__nv_cvt_fp8_to_halfraw(v0:fp8[0], __NV_E4M3));\n__half_2 _tmp_1 := _tmp_0;\nv1 := _tmp_1;\n"
    );
    let mut copy = None;
    for piece in &f.text.pieces {
        if let Piece::Gap(Shown::Instruction(Instruction::Assign(assign))) = piece {
            copy = copy.or(Some(assign.out));
        }
    }
    assert_eq!(copy, Some(tmp(1, Elem::F16, 2)));
    assert_eq!(
        cast(named(0, E2M1, 1), named(1, E4M3X2, 1), 0),
        (
            "__half _tmp_0 = __half(__nv_cvt_fp4_to_halfraw(v0:fp4[0], __NV_E2M1));\n\
             __half_2 _tmp_1 := _tmp_0;\n\
             v1 = __nv_cvt_halfraw2_to_fp8x2(_tmp_1:__half2[0], __NV_NOSAT, __NV_E4M3);\n"
                .to_string(),
            2
        )
    );
    assert_eq!(
        cast(named(0, E8M0, 1), named(1, E8M0X2, 1), 0),
        (
            "__nv_bfloat16 _tmp_0 = __nv_bfloat16(__nv_cvt_e8m0_to_bf16raw(v0:fp8[0]));\n\
             __nv_bfloat16_2 _tmp_1 := _tmp_0;\n\
             v1 = __nv_cvt_bfloat162raw_to_e8m0x2(_tmp_1:__nv_bfloat162[0], __NV_NOSAT, cudaRoundPosInf);\n"
                .to_string(),
            2
        )
    );
}

#[test]
fn a_packed_minifloat_becomes_another_with_both_numbers() {
    let input = named(0, E4M3X2, 1);
    let wide = tmp(0, Elem::F16, 2);
    let out = named(1, E5M2X2, 1);
    let mut whole = Formatter::new(0);
    special_cast(&mut whole, &input, &out);
    let mut f = Formatter::new(1);
    cast_minifloat_to_half(&mut f, input, wide);
    cast_to_fp8(&mut f, wide, out);
    assert_eq!(render(&whole.text), render(&f.text));
    assert_eq!(whole.next_tmp, f.next_tmp);
    assert_eq!(
        render(&whole.text),
        "__half_2 _tmp_0 = __half_2 {\n\
         __half2(__nv_cvt_fp8x2_to_halfraw2(v0:fp8x2[0], __NV_E4M3)).x,\n\
         __half2(__nv_cvt_fp8x2_to_halfraw2(v0:fp8x2[0], __NV_E4M3)).y\n\
         };\n\
         v1 = __nv_cvt_halfraw2_to_fp8x2(_tmp_0:__half2[0], __NV_NOSAT, __NV_E5M2);\n"
    );
}

#[test]
fn natively_stored_results_differ_from_the_intermediate() {
    let out = Variable::Named { id: 1, item: Item { elem: Elem::F16, vectorization: 1, native: true } };
    assert_eq!(
        cast(named(0, E4M3, 1), out, 0),
        ("__half _tmp_0 = __half(__nv_cvt_fp8_to_halfraw(v0:fp8[0], __NV_E4M3));\nv1 := _tmp_0;\n".to_string(), 1)
    );
}

#[test]
fn the_same_type_needs_nothing_without_minifloats() {
    assert_eq!(cast(named(0, Elem::F32, 2), named(1, Elem::F32, 2), 0), (String::new(), 0));
    assert_eq!(cast(named(0, Elem::F32, 2), named(1, Elem::F64, 2), 0), ("v1 := v0;\n".to_string(), 0));
    assert_eq!(
        cast(named(0, Elem::I32, 1), named(1, Elem::BF16, 1), 0),
        ("__nv_bfloat16 _tmp_0 := v0;\n".to_string(), 1)
    );
}

#[test]
fn a_minifloat_to_itself_is_still_converted() {
    assert_eq!(
        cast(named(0, E4M3, 1), named(1, E4M3, 1), 0),
        (
            "__half _tmp_0 = __half(__nv_cvt_fp8_to_halfraw(v0:fp8[0], __NV_E4M3));\n\
             v1 = __nv_cvt_halfraw_to_fp8(_tmp_0:__half[0], __NV_NOSAT, __NV_E4M3);\n"
                .to_string(),
            1
        )
    );
}

/// Every variable that is written, in order.
fn written(text: &Fragment) -> Vec<Variable> {
    let mut vars = Vec::new();
    for piece in &text.pieces {
        match piece {
            Piece::Gap(Shown::Left(var)) => vars.push(*var),
            Piece::Gap(Shown::Instruction(Instruction::Assign(assign))) => vars.push(assign.out),
            _ => {}
        }
    }
    vars
}

#[test]
fn temporaries_count_up_and_each_is_written_once() {
    let input = named(0, E5M2, 4);
    let out = named(1, E8M0, 4);
    let mut f = Formatter::new(10);
    special_cast(&mut f, &input, &out);
    assert_eq!(f.next_tmp, 13);
    assert_eq!(
        written(&f.text),
        vec![tmp(10, Elem::F16, 4), tmp(11, Elem::BF16, 4), tmp(12, E8M0X2, 2), out]
    );
}

#[test]
fn temporaries_start_over_after_the_last_number() {
    let (text, next) = cast(named(0, E5M2, 1), named(1, E8M0, 1), u32::MAX);
    assert_eq!(next, 1);
    assert!(text.contains("__half _tmp_4294967295 = "));
    assert!(text.contains("__nv_bfloat16 _tmp_0 := _tmp_4294967295;"));
}

fn all_elems() -> Vec<Elem> {
    vec![
        Elem::TF32, Elem::F32, Elem::F64, Elem::F16, Elem::F16x2, Elem::BF16, Elem::BF16x2,
        E2M1, E2M1X2, E2M3, E3M2, Elem::FP6x2(FP6Kind::E2M3), E4M3, E5M2, E8M0, E4M3X2, E8M0X2,
        Elem::I8, Elem::U64, Elem::Bool,
    ]
}

#[test]
fn matched_conversions_read_in_range_and_end_at_the_output() {
    for from in all_elems() {
        for to in all_elems() {
            for lanes in [2usize, 4, 6] {
                let input = named(0, from, lanes / from.packing_factor());
                let out = named(1, to, lanes / to.packing_factor());
                if !can_convert(input, out) {
                    continue;
                }
                let mut f = Formatter::new(0);
                special_cast(&mut f, &input, &out);
                for piece in &f.text.pieces {
                    if let Piece::Gap(Shown::Indexed(read)) = piece {
                        assert!(read.index < read.var.item().vectorization);
                    }
                }
                let mini = |e: Elem| matches!(e.unpacked(), Elem::FP4(_) | Elem::FP6(_) | Elem::FP8(_));
                let vars = written(&f.text);
                if mini(from) || mini(to) {
                    assert_eq!(vars.last(), Some(&out));
                }
                for i in 0..vars.len() {
                    for j in 0..i {
                        assert_ne!(vars[i], vars[j]);
                    }
                }
                assert!(f.next_tmp <= 5);
            }
        }
    }
}

#[test]
fn what_cannot_be_converted() {
    assert!(!can_convert(named(0, Elem::F16x2, 1), named(1, E4M3, 2)));
    assert!(!can_convert(named(0, Elem::BF16x2, 1), named(1, E8M0, 2)));
    assert!(can_convert(named(0, Elem::F16x2, 1), named(1, E2M1, 2)));
    assert!(can_convert(named(0, E2M1, 1), named(1, E4M3X2, 1)));
    assert!(can_convert(named(0, E2M1X2, 1), named(1, E4M3X2, 1)));
    assert!(can_convert(named(0, E2M1X2, 2), named(1, E4M3X2, 2)));
    assert!(can_convert(named(0, E2M1, 1), named(1, Elem::F16x2, 1)));
    assert!(!can_convert(named(0, E2M1X2, usize::MAX), named(1, Elem::F32, 1)));
    assert!(!can_convert(named(0, Elem::F32, 1), named(1, E2M1X2, usize::MAX)));
}

#[test]
fn types_are_packed_where_they_come_out_even() {
    assert_eq!(item(E2M1, 4).optimized(), item(E2M1X2, 2));
    assert_eq!(item(E2M1, 3).optimized(), item(E2M1, 3));
    assert_eq!(item(Elem::F32, 4).optimized(), item(Elem::F32, 4));
    assert_eq!(item(Elem::BF16, 2).optimized(), item(Elem::BF16x2, 1));
    assert_eq!(item(Elem::F16x2, 2).optimized(), item(Elem::F16x2, 2));
    assert_eq!(E4M3X2.unpacked(), E4M3);
    assert_eq!(item(E4M3X2, 3).packing_factor(), 2);
    assert_eq!(item(E4M3, 3).packing_factor(), 1);
}
