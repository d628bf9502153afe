//! Laws of pushing and popping fields, stated over the model.
use vstd::prelude::*;
use vstd::arithmetic::div_mod::{
    lemma_div_multiples_vanish_fancy,
    lemma_fundamental_div_mod,
    lemma_mod_multiples_vanish,
    lemma_mod_pos_bound,
    lemma_mod_twice,
    lemma_small_mod,
    lemma_truncate_middle,
};
use vstd::arithmetic::power2::{lemma2_to64, lemma_pow2_adds, lemma_pow2_pos, pow2};
use crate::bits32::Bits32;
use crate::model::{
    concat_fields,
    fields_fit,
    pop_all,
    pop_all_row,
    push_all,
    pushed,
    row_modulus,
    shifted,
    top_field,
    width_sum,
};

verus! {

/// Shifting a row by `n` bits leaves `2^n` times the low `k = 32 - n` bits
/// of the row, which is at most `2^32 - 2^n`.
proof fn lemma_shifted_shape(v: nat, n: nat, k: nat)
    requires
        n + k == 32,
    ensures
        shifted(v, n) == pow2(n) * (v % pow2(k)),
        shifted(v, n) + pow2(n) <= row_modulus(),
{
    lemma_pow2_pos(n);
    lemma_pow2_pos(k);
    lemma_pow2_adds(n, k);
    assert(v * pow2(n) == pow2(n) * v) by (nonlinear_arith);
    lemma_truncate_middle(v as int, pow2(n) as int, pow2(k) as int);
    lemma_mod_pos_bound(v as int, pow2(k) as int);
    lemma_mul_below(pow2(n) as int, (v % pow2(k)) as int, pow2(k) as int);
}

/// `p * r` stays at least `p` below `p * q` when `r < q`.
proof fn lemma_mul_below(p: int, r: int, q: int)
    by (nonlinear_arith)
    requires
        p > 0,
        0 <= r < q,
    ensures
        p * r + p <= p * q,
{
}

/// Pushing keeps the row within 32 bits, and the low `n` bits of the result
/// are the low `n` bits of the pushed value.
proof fn lemma_pushed_shape(v: nat, n: nat, k: nat, x: nat)
    requires
        n + k == 32,
    ensures
        pushed(v, n, x) < row_modulus(),
        pushed(v, n, x) % pow2(n) == x % pow2(n),
        pushed(v, n, x) == pushed(v, n, x % pow2(n)),
{
    assert(pushed(v, n, x) % pow2(n) == x % pow2(n)) by {
        lemma_shifted_shape(v, n, k);
        lemma_pow2_pos(n);
        lemma_low_part(v % pow2(k), x, pow2(n));
    }
    assert(pushed(v, n, x) < row_modulus()) by {
        lemma_shifted_shape(v, n, k);
        lemma_pow2_pos(n);
        lemma_mod_pos_bound(x as int, pow2(n) as int);
    }
    assert(pushed(v, n, x) == pushed(v, n, x % pow2(n))) by {
        lemma_pow2_pos(n);
        lemma_mod_twice(x as int, pow2(n) as int);
    }
}

/// Below a multiple of `p`, adding `b` leaves `b` modulo `p` as the
/// remainder.
proof fn lemma_low_part(a: nat, b: nat, p: nat)
    requires
        p > 0,
    ensures
        (p * a + b % p) % p == b % p,
{
    lemma_mod_twice(b as int, p as int);
    lemma_mod_multiples_vanish(a as int, (b % p) as int, p as int);
}

/// Masking law: pushing `x` into `n` bits depends only on the low `n` bits of
/// `x`, and those bits are exactly what the low end of the row then holds.
pub proof fn lemma_push_masks(b: Bits32, n: u32, x: u32)
    requires
        n < 32,
    ensures
        pushed(b@, n as nat, x as nat) == pushed(b@, n as nat, x as nat % pow2(n as nat)),
        pushed(b@, n as nat, x as nat) % pow2(n as nat) == x as nat % pow2(n as nat),
{
    lemma_pushed_shape(b@, n as nat, (32 - n) as nat, x as nat);
}

/// Zero-width identity: pushing zero bits leaves the row as it was, and
/// popping zero bits returns zero and leaves the row as it was.
pub proof fn lemma_zero_width(b: Bits32, x: u32)
    ensures
        pushed(b@, 0, x as nat) == b@,
        top_field(b@, 0) == 0,
        shifted(b@, 0) == b@,
{
    b.lemma_view_bounded();
    lemma2_to64();
    lemma_small_mod(b@, row_modulus());
    lemma_small_mod(b@ / row_modulus(), 1);
}

/// A field below `p` stacked above a part below `q` stays below `p * q`.
proof fn lemma_stack_below(x: int, c: int, p: int, q: int)
    by (nonlinear_arith)
    requires
        0 <= x < p,
        0 <= c < q,
    ensures
        x * q + c < p * q,
{
}

/// Scaling a sum of two parts scales each part.
proof fn lemma_scale_sum(a: int, x: int, t: int, c: int)
    by (nonlinear_arith)
    ensures
        (a + x) * t + c == a * t + (x * t + c),
{
}

/// Reducing a factor modulo `m` first does not change a product-sum modulo
/// `m`.
proof fn lemma_mod_factor(a: int, b: int, r: int, m: int)
    requires
        m > 0,
    ensures
        ((a % m) * b + r) % m == (a * b + r) % m,
{
    lemma_fundamental_div_mod(a, m);
    let q: int = a / m;
    let a0: int = a % m;
    assert(a * b + r == m * (q * b) + (a0 * b + r)) by (nonlinear_arith)
        requires
            a == m * q + a0,
    ;
    lemma_mod_multiples_vanish(q * b, a0 * b + r, m);
}

/// The fields of a sequence that fit their widths, apart from the first one,
/// still fit.
proof fn lemma_fields_fit_rest(ws: Seq<u32>, xs: Seq<u32>)
    requires
        fields_fit(ws, xs),
        ws.len() > 0,
    ensures
        fields_fit(ws.drop_first(), xs.drop_first()),
{
    assert forall|i: int| 0 <= i < ws.drop_first().len() implies #[trigger] ws.drop_first()[i]
        < 32 && (xs.drop_first()[i] as nat) < pow2(ws.drop_first()[i] as nat) by {
        assert(ws[i + 1] < 32);
    }
}

/// Fields laid side by side fit in their total width.
proof fn lemma_concat_bounded(ws: Seq<u32>, xs: Seq<u32>)
    requires
        fields_fit(ws, xs),
    ensures
        concat_fields(ws, xs) < pow2(width_sum(ws)),
    decreases ws.len(),
{
    if ws.len() == 0 {
        lemma2_to64();
    } else {
        let rest_w: Seq<u32> = ws.drop_first();
        let rest_x: Seq<u32> = xs.drop_first();
        lemma_fields_fit_rest(ws, xs);
        lemma_concat_bounded(rest_w, rest_x);
        assert(ws[0] < 32 && (xs[0] as nat) < pow2(ws[0] as nat));
        lemma_stack_below(
            xs[0] as int,
            concat_fields(rest_w, rest_x) as int,
            pow2(ws[0] as nat) as int,
            pow2(width_sum(rest_w)) as int,
        );
        lemma_pow2_adds(ws[0] as nat, width_sum(rest_w));
    }
}

/// Pushing a sequence of fields moves the row up by their total width and
/// puts the fields, side by side, in the low bits.
proof fn lemma_push_all_value(v: nat, ws: Seq<u32>, xs: Seq<u32>)
    requires
        v < row_modulus(),
        fields_fit(ws, xs),
    ensures
        push_all(v, ws, xs) == (v * pow2(width_sum(ws)) + concat_fields(ws, xs)) % row_modulus(),
    decreases ws.len(),
{
    lemma2_to64();
    if ws.len() == 0 {
        lemma_small_mod(v, row_modulus());
        assert(v * pow2(0) == v);
    } else {
        let w: nat = ws[0] as nat;
        let x: nat = xs[0] as nat;
        let rest_w: Seq<u32> = ws.drop_first();
        let rest_x: Seq<u32> = xs.drop_first();
        let tail: nat = width_sum(rest_w);
        let c: nat = concat_fields(rest_w, rest_x);
        let p: nat = pushed(v, w, x);
        assert(ws[0] < 32 && (xs[0] as nat) < pow2(ws[0] as nat));
        assert(p < row_modulus() && p == shifted(v, w) + x) by {
            lemma_pushed_shape(v, w, (32 - w) as nat, x);
            lemma_small_mod(x, pow2(w));
        }
        lemma_fields_fit_rest(ws, xs);
        lemma_push_all_value(p, rest_w, rest_x);
        assert((p * pow2(tail) + c) % row_modulus() == (v * pow2(w) * pow2(tail) + (x
            * pow2(tail) + c)) % row_modulus()) by {
            lemma_scale_sum(
                ((v * pow2(w)) % row_modulus()) as int,
                x as int,
                pow2(tail) as int,
                c as int,
            );
            lemma_mod_factor(
                (v * pow2(w)) as int,
                pow2(tail) as int,
                (x * pow2(tail) + c) as int,
                row_modulus() as int,
            );
        }
        assert(v * pow2(w) * pow2(tail) == v * pow2(width_sum(ws))) by {
            lemma_pow2_adds(w, tail);
            assert(v * pow2(w) * pow2(tail) == v * (pow2(w) * pow2(tail))) by (nonlinear_arith);
        }
    }
}

/// Popping the widths `ws` from a row whose top bits hold the fields `xs`
/// side by side gives back `xs`, whatever lies below them; what lay below
/// them is then all that is left, moved to the top.
proof fn lemma_pop_all_fields(ws: Seq<u32>, xs: Seq<u32>, k: nat, low: nat)
    requires
        fields_fit(ws, xs),
        width_sum(ws) + k == 32,
        low < pow2(k),
    ensures
        pop_all(concat_fields(ws, xs) * pow2(k) + low, ws) == xs,
        pop_all_row(concat_fields(ws, xs) * pow2(k) + low, ws) == low * pow2(width_sum(ws)),
    decreases ws.len(),
{
    if ws.len() == 0 {
        assert(xs =~= Seq::<u32>::empty());
        lemma2_to64();
        assert(low * pow2(0) == low);
        assert(0 * pow2(k) == 0);
    } else {
        let w: nat = ws[0] as nat;
        let x: nat = xs[0] as nat;
        let rest_w: Seq<u32> = ws.drop_first();
        let rest_x: Seq<u32> = xs.drop_first();
        let tail: nat = width_sum(rest_w);
        let c: nat = concat_fields(rest_w, rest_x);
        let j: nat = tail + k;
        let r: nat = c * pow2(k) + low;
        let row: nat = concat_fields(ws, xs) * pow2(k) + low;
        lemma_fields_fit_rest(ws, xs);
        assert(ws[0] < 32 && (xs[0] as nat) < pow2(ws[0] as nat));
        assert(r < pow2(j)) by {
            lemma_concat_bounded(rest_w, rest_x);
            lemma_stack_below(c as int, low as int, pow2(tail) as int, pow2(k) as int);
            lemma_pow2_adds(tail, k);
        }
        assert(row == pow2(j) * x + r) by {
            lemma_pow2_adds(tail, k);
            assert((x * pow2(tail) + c) * pow2(k) + low == (pow2(tail) * pow2(k)) * x + (c
                * pow2(k) + low)) by (nonlinear_arith);
        }
        assert(top_field(row, w) == x) by {
            lemma_pow2_pos(j);
            assert((32 - w) as nat == j);
            lemma_div_multiples_vanish_fancy(x as int, r as int, pow2(j) as int);
        }
        let moved: nat = r * pow2(w);
        assert(shifted(row, w) == moved) by {
            lemma2_to64();
            lemma_pow2_pos(w);
            lemma_pow2_adds(j, w);
            assert(row * pow2(w) == row_modulus() * x + moved) by (nonlinear_arith)
                requires
                    row == pow2(j) * x + r,
                    moved == r * pow2(w),
                    row_modulus() == pow2(j) * pow2(w),
            ;
            assert(moved < row_modulus()) by (nonlinear_arith)
                requires
                    r < pow2(j),
                    pow2(w) > 0,
                    moved == r * pow2(w),
                    row_modulus() == pow2(j) * pow2(w),
            ;
            lemma_mod_multiples_vanish(x as int, moved as int, row_modulus() as int);
            lemma_small_mod(moved, row_modulus());
        }
        assert(moved == c * pow2(k + w) + low * pow2(w) && low * pow2(w) < pow2(k + w)) by {
            lemma_pow2_adds(k, w);
            lemma_pow2_pos(w);
            assert(moved == c * (pow2(k) * pow2(w)) + low * pow2(w)) by (nonlinear_arith)
                requires
                    moved == (c * pow2(k) + low) * pow2(w),
            ;
            assert(low * pow2(w) < pow2(k) * pow2(w)) by (nonlinear_arith)
                requires
                    low < pow2(k),
                    pow2(w) > 0,
            ;
        }
        lemma_pop_all_fields(rest_w, rest_x, k + w, low * pow2(w));
        assert(pop_all(row, ws) =~= xs);
        assert(pop_all_row(row, ws) == pop_all_row(moved, rest_w));
        assert(low * pow2(w) * pow2(tail) == low * pow2(width_sum(ws))) by {
            lemma_pow2_adds(w, tail);
            assert(low * pow2(w) * pow2(tail) == low * (pow2(w) * pow2(tail))) by (nonlinear_arith);
        }
    }
}

/// Round trip: pushing fields that fit their widths and fill the whole row,
/// then popping the same widths in the same order, gives back the same values,
/// whatever the row held before, and leaves the row empty.
pub proof fn lemma_round_trip(b: Bits32, ws: Seq<u32>, xs: Seq<u32>)
    requires
        fields_fit(ws, xs),
        width_sum(ws) == 32,
    ensures
        pop_all(push_all(b@, ws, xs), ws) == xs,
        pop_all_row(push_all(b@, ws, xs), ws) == 0,
{
    b.lemma_view_bounded();
    lemma2_to64();
    lemma_push_all_value(b@, ws, xs);
    lemma_concat_bounded(ws, xs);
    let c: nat = concat_fields(ws, xs);
    assert(push_all(b@, ws, xs) == c) by {
        lemma_mod_multiples_vanish(b@ as int, c as int, row_modulus() as int);
        lemma_small_mod(c, row_modulus());
        assert(b@ * pow2(32) == row_modulus() * b@) by (nonlinear_arith)
            requires
                row_modulus() == pow2(32),
        ;
    }
    assert(c * pow2(0) + 0 == c);
    lemma_pop_all_fields(ws, xs, 0, 0);
}

} // verus!
