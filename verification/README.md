# cuda_convert

CUDA has conversion intrinsics for its fp4, fp6 and fp8 types, but only between some of them and
some of the wider floats. This crate emits the statements that convert one kernel variable into
another when such a minifloat is involved, with the intermediate types that the intrinsics need. The
only types that it does not convert between are packed halves and bfloats (`F16x2`, `BF16x2`) into
fp8. It is written in Verus.

- `src/element.rs`, `src/item.rs`, `src/variable.rs`: element types, value types, variables.
- `src/text.rs`: the emitted text. How types and variables are spelled is left open: the text has
  gaps that say what belongs there.
- `src/convert.rs`: the conversions, `special_cast` first among them.
- `src/plan.rs`: which conversions are chained to get from one type to another.
- `src/laws/`: what holds of every conversion.
- `app/`: fills the gaps in and writes the text to a `std::fmt::Formatter`.
