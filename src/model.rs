//! The arithmetic model of a 32-bit row: a natural number below `2^32`.
use vstd::prelude::*;
use vstd::arithmetic::power2::pow2;

verus! {

/// Number of bits in a row.
pub open spec fn row_bits() -> nat {
    32
}

/// Number of distinct row values, `2^32`.
pub open spec fn row_modulus() -> nat {
    pow2(row_bits())
}

/// The row `v` shifted towards the high end by `n` bits: the bits that pass
/// the top of the row are lost and zeros enter at the bottom.
pub open spec fn shifted(v: nat, n: nat) -> nat {
    (v * pow2(n)) % row_modulus()
}

/// The row `v` after pushing the field `x` of width `n`: the row moves up by
/// `n` bits and the low `n` bits of `x` fill the vacated low end.
pub open spec fn pushed(v: nat, n: nat, x: nat) -> nat {
    shifted(v, n) + x % pow2(n)
}

/// The field of width `n` held in the top `n` bits of the row `v`,
/// right-justified (zero when `n` is zero).
pub open spec fn top_field(v: nat, n: nat) -> nat
    recommends
        n <= row_bits(),
{
    v / pow2((row_bits() - n) as nat)
}

/// Total width of a sequence of fields.
pub open spec fn width_sum(ws: Seq<u32>) -> nat
    decreases ws.len(),
{
    if ws.len() == 0 {
        0
    } else {
        ws[0] as nat + width_sum(ws.drop_first())
    }
}

/// Each width is below the row width and each value fits in its width.
pub open spec fn fields_fit(ws: Seq<u32>, xs: Seq<u32>) -> bool {
    &&& ws.len() == xs.len()
    &&& forall|i: int|
        0 <= i < ws.len() ==> #[trigger] ws[i] < 32 && (xs[i] as nat) < pow2(ws[i] as nat)
}

/// The row `v` after pushing the values `xs` with the widths `ws`, in order.
pub open spec fn push_all(v: nat, ws: Seq<u32>, xs: Seq<u32>) -> nat
    decreases ws.len(),
{
    if ws.len() == 0 || xs.len() == 0 {
        v
    } else {
        push_all(pushed(v, ws[0] as nat, xs[0] as nat), ws.drop_first(), xs.drop_first())
    }
}

/// The values popped, in order, from the row `v` with the widths `ws`.
pub open spec fn pop_all(v: nat, ws: Seq<u32>) -> Seq<u32>
    decreases ws.len(),
{
    if ws.len() == 0 {
        seq![]
    } else {
        seq![top_field(v, ws[0] as nat) as u32] + pop_all(shifted(v, ws[0] as nat), ws.drop_first())
    }
}

/// The row left after popping, in order, the widths `ws` from the row `v`.
pub open spec fn pop_all_row(v: nat, ws: Seq<u32>) -> nat
    decreases ws.len(),
{
    if ws.len() == 0 {
        v
    } else {
        pop_all_row(shifted(v, ws[0] as nat), ws.drop_first())
    }
}

/// The values `xs` laid side by side with the widths `ws`, the first one in
/// the highest bits.
pub open spec fn concat_fields(ws: Seq<u32>, xs: Seq<u32>) -> nat
    decreases ws.len(),
{
    if ws.len() == 0 || xs.len() == 0 {
        0
    } else {
        xs[0] as nat * pow2(width_sum(ws.drop_first())) + concat_fields(ws.drop_first(), xs.drop_first())
    }
}

} // verus!
