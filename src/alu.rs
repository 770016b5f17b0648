//! The arithmetic of the basic instructions, on 16-bit words.
//!
//! Each operation takes the b operand first and the a operand second, as the
//! mnemonic writes them (`SUB b, a` computes `b - a`), and returns the word stored
//! in b and, where the instruction sets it, the new value of EX.
use vstd::arithmetic::div_mod::{
    lemma_basic_div, lemma_fundamental_div_mod, lemma_fundamental_div_mod_converse_div,
    lemma_fundamental_div_mod_converse_mod, lemma_hoist_over_denominator, lemma_mod_multiples_vanish, lemma_small_mod,
};
use vstd::arithmetic::power2::{lemma2_to64, lemma_pow2_adds, lemma_pow2_strictly_increases, pow2};
use vstd::bits::{lemma_u64_pow2_no_overflow, lemma_u64_shl_is_mul};
use vstd::prelude::*;

verus! {

/// A word read as a two's-complement number.
pub open spec fn signed(w: u16) -> int {
    if w < 0x8000 {
        w as int
    } else {
        w as int - 0x10000
    }
}

/// The word that holds `x` modulo 2^16 (two's complement for negative `x`).
pub open spec fn word(x: int) -> u16 {
    (x % 0x10000) as u16
}

pub open spec fn abs(x: int) -> int {
    if x < 0 {
        -x
    } else {
        x
    }
}

/// Division that truncates toward zero.
pub open spec fn tdiv(x: int, y: int) -> int {
    if (x < 0) == (y < 0) {
        abs(x) / abs(y)
    } else {
        -(abs(x) / abs(y))
    }
}

/// The remainder of `tdiv`: its sign follows the dividend.
pub open spec fn trem(x: int, y: int) -> int {
    if x < 0 {
        -(abs(x) % abs(y))
    } else {
        abs(x) % abs(y)
    }
}

pub open spec fn add_spec(b: u16, a: u16) -> (u16, u16) {
    (word(b + a), if b + a > 0xffff { 1 } else { 0 })
}

pub open spec fn sub_spec(b: u16, a: u16) -> (u16, u16) {
    (word(b - a), if b - a < 0 { 0xffff } else { 0 })
}

pub open spec fn mul_spec(b: u16, a: u16) -> (u16, u16) {
    (word(b * a), word((b * a) / 0x10000))
}

pub open spec fn mli_spec(b: u16, a: u16) -> (u16, u16) {
    (word(signed(b) * signed(a)), word((signed(b) * signed(a)) / 0x10000))
}

pub open spec fn div_spec(b: u16, a: u16) -> (u16, u16) {
    if a == 0 {
        (0, 0)
    } else {
        (word(b as int / a as int), word((b * 0x10000) / a as int))
    }
}

pub open spec fn dvi_spec(b: u16, a: u16) -> (u16, u16) {
    if a == 0 {
        (0, 0)
    } else {
        (word(tdiv(signed(b), signed(a))), word(tdiv(signed(b) * 0x10000, signed(a))))
    }
}

pub open spec fn mod_spec(b: u16, a: u16) -> u16 {
    if a == 0 {
        0
    } else {
        b % a
    }
}

pub open spec fn mdi_spec(b: u16, a: u16) -> u16 {
    if a == 0 {
        0
    } else {
        word(trem(signed(b), signed(a)))
    }
}

pub open spec fn shr_spec(b: u16, a: u16) -> (u16, u16) {
    (word(b as int / pow2(a as nat) as int), word((b * 0x10000) / pow2(a as nat) as int))
}

pub open spec fn asr_spec(b: u16, a: u16) -> (u16, u16) {
    (word(signed(b) / pow2(a as nat) as int), word((signed(b) * 0x10000) / pow2(a as nat) as int))
}

pub open spec fn shl_spec(b: u16, a: u16) -> (u16, u16) {
    (word(b * pow2(a as nat)), word((b * pow2(a as nat)) / 0x10000))
}

pub open spec fn adx_spec(b: u16, a: u16, ex: u16) -> (u16, u16) {
    (word(b + a + ex), if b + a + ex > 0xffff { 1 } else { 0 })
}

pub open spec fn sbx_spec(b: u16, a: u16, ex: u16) -> (u16, u16) {
    (word(b - a + ex), if b - a + ex < 0 { 0xffff } else { 0 })
}

/// `x + y` modulo 2^16.
pub fn wrap_add(x: u16, y: u16) -> (r: u16)
    ensures
        r == word(x + y),
{
    ((x as u32 + y as u32) % 0x10000) as u16
}

/// `x - y` modulo 2^16.
pub fn wrap_sub(x: u16, y: u16) -> (r: u16)
    ensures
        r == word(x - y),
{
    ((x as u32 + 0x10000 - y as u32) % 0x10000) as u16
}

fn to_signed(w: u16) -> (r: i64)
    ensures
        r == signed(w),
{
    if w < 0x8000 {
        w as i64
    } else {
        w as i64 - 0x10000
    }
}

/// `x` modulo 2^16, for `x` no smaller than -2^32.
fn wrap_signed(x: i64) -> (r: u16)
    requires
        -0x1_0000_0000 <= x <= 0x7fff_ffff_ffff,
    ensures
        r == word(x as int),
{
    proof {
        lemma_mod_multiples_vanish(0x10000, x as int, 0x10000);
    }
    (((x + 0x1_0000_0000) as u64) % 0x10000) as u16
}

/// `floor(x / 2^16)` modulo 2^16, for `x` no smaller than -2^32.
fn high_word(x: i64) -> (r: u16)
    requires
        -0x1_0000_0000 <= x <= 0x7fff_ffff_ffff,
    ensures
        r == word(x as int / 0x10000),
{
    proof {
        lemma_hoist_over_denominator(x as int, 0x10000, 0x10000);
        lemma_mod_multiples_vanish(1, x as int / 0x10000, 0x10000);
    }
    ((((x + 0x1_0000_0000) as u64) / 0x10000) % 0x10000) as u16
}

/// Floor division of a negative number through the quotient of a natural one.
proof fn lemma_floor_div_negative(x: int, d: int)
    requires
        x < 0,
        d > 0,
    ensures
        x / d == -1 - (-1 - x) / d,
{
    let q = (-1 - x) / d;
    let r = (-1 - x) % d;
    lemma_fundamental_div_mod(-1 - x, d);
    assert(x == d * (-1 - q) + (d - 1 - r)) by (nonlinear_arith)
        requires
            -1 - x == d * q + r,
    ;
    lemma_fundamental_div_mod_converse_div(x, d, -1 - q, d - 1 - r);
}

/// `b + a`; EX is 1 on a carry, else 0.
pub fn add(b: u16, a: u16) -> (r: (u16, u16))
    ensures
        r == add_spec(b, a),
{
    let s: u32 = b as u32 + a as u32;
    ((s % 0x10000) as u16, if s > 0xffff { 1 } else { 0 })
}

/// `b - a`; EX is 0xffff on a borrow, else 0.
pub fn sub(b: u16, a: u16) -> (r: (u16, u16))
    ensures
        r == sub_spec(b, a),
{
    (wrap_sub(b, a), if b < a { 0xffff } else { 0 })
}

/// Unsigned `b * a`; EX holds the high word.
pub fn mul(b: u16, a: u16) -> (r: (u16, u16))
    ensures
        r == mul_spec(b, a),
{
    assert(b as int * a as int <= 0xffff * 0xffff) by (nonlinear_arith)
        requires
            b <= 0xffff,
            a <= 0xffff,
    ;
    let p: u32 = b as u32 * a as u32;
    ((p % 0x10000) as u16, ((p / 0x10000) % 0x10000) as u16)
}

/// Signed `b * a`; EX holds the high word.
pub fn mli(b: u16, a: u16) -> (r: (u16, u16))
    ensures
        r == mli_spec(b, a),
{
    let sb = to_signed(b);
    let sa = to_signed(a);
    assert(-0x4000_0000 <= sb * sa <= 0x4000_0000) by (nonlinear_arith)
        requires
            -0x8000 <= sb <= 0x7fff,
            -0x8000 <= sa <= 0x7fff,
    ;
    let p = sb * sa;
    (wrap_signed(p), high_word(p))
}

/// Unsigned `b / a`; EX holds the fraction `(b << 16) / a`. Division by zero gives 0
/// and EX 0.
pub fn div(b: u16, a: u16) -> (r: (u16, u16))
    ensures
        r == div_spec(b, a),
{
    if a == 0 {
        (0, 0)
    } else {
        let q = b / a;
        let f: u32 = (b as u32 * 0x10000) / a as u32;
        (q, (f % 0x10000) as u16)
    }
}

/// `x / y` truncated toward zero, modulo 2^16, for `|x| <= 2^31`.
fn truncated_quotient(x: i64, y: i64) -> (r: u16)
    requires
        y != 0,
        -0x8000_0000 <= x <= 0x8000_0000,
        -0x8000 <= y <= 0x8000,
    ensures
        r == word(tdiv(x as int, y as int)),
{
    let ax: u64 = if x < 0 { (-x) as u64 } else { x as u64 };
    let ay: u64 = if y < 0 { (-y) as u64 } else { y as u64 };
    let q = ax / ay;
    proof {
        lemma_div_is_ordered_by_one(ax as int, ay as int);
    }
    if (x < 0) == (y < 0) {
        (q % 0x10000) as u16
    } else {
        proof {
            lemma_mod_multiples_vanish(0x10000, -(q as int), 0x10000);
        }
        ((0x1_0000_0000 - q) % 0x10000) as u16
    }
}

/// A quotient of a natural number by a positive one is no larger than the dividend.
proof fn lemma_div_is_ordered_by_one(x: int, d: int)
    requires
        x >= 0,
        d >= 1,
    ensures
        0 <= x / d <= x,
{
    lemma_fundamental_div_mod(x, d);
    assert(0 <= x / d <= x) by (nonlinear_arith)
        requires
            x == d * (x / d) + x % d,
            0 <= x % d < d,
            d >= 1,
            x >= 0,
    ;
}

/// Signed `b / a`, truncated toward zero; EX holds the fraction. Division by zero
/// gives 0 and EX 0.
pub fn dvi(b: u16, a: u16) -> (r: (u16, u16))
    ensures
        r == dvi_spec(b, a),
{
    if a == 0 {
        (0, 0)
    } else {
        let sb = to_signed(b);
        let sa = to_signed(a);
        (truncated_quotient(sb, sa), truncated_quotient(sb * 0x10000, sa))
    }
}

/// Unsigned `b % a`; 0 when `a` is 0.
pub fn rem(b: u16, a: u16) -> (r: u16)
    ensures
        r == mod_spec(b, a),
{
    if a == 0 {
        0
    } else {
        b % a
    }
}

/// Signed `b % a`, with the sign of `b`; 0 when `a` is 0.
pub fn mdi(b: u16, a: u16) -> (r: u16)
    ensures
        r == mdi_spec(b, a),
{
    if a == 0 {
        0
    } else {
        let sb = to_signed(b);
        let sa = to_signed(a);
        let ab: u64 = if sb < 0 { (-sb) as u64 } else { sb as u64 };
        let aa: u64 = if sa < 0 { (-sa) as u64 } else { sa as u64 };
        let m = ab % aa;
        if sb < 0 {
            proof {
                lemma_mod_multiples_vanish(1, -(m as int), 0x10000);
            }
            ((0x10000 - m) % 0x10000) as u16
        } else {
            m as u16
        }
    }
}

/// `2^n` for `n < 32`.
fn power_of_two(n: u16) -> (r: u64)
    requires
        n < 32,
    ensures
        r == pow2(n as nat),
        r <= 0x8000_0000,
        r >= 1,
{
    proof {
        lemma_u64_pow2_no_overflow(n as nat);
        lemma_u64_shl_is_mul(1, n as u64);
        lemma2_to64();
        if n < 31 {
            lemma_pow2_strictly_increases(n as nat, 31);
        }
    }
    1u64 << n as u64
}

/// `2^n >= 2^32` for `n >= 32`.
proof fn lemma_pow2_at_least_32(n: nat)
    requires
        n >= 32,
    ensures
        pow2(n) >= 0x1_0000_0000,
{
    lemma2_to64();
    if n > 32 {
        lemma_pow2_strictly_increases(32, n);
    }
}

/// Logical `b >> a`; EX holds the bits shifted out, `(b << 16) >> a`.
pub fn shr(b: u16, a: u16) -> (r: (u16, u16))
    ensures
        r == shr_spec(b, a),
{
    if a >= 32 {
        proof {
            lemma_pow2_at_least_32(a as nat);
            lemma_basic_div(b as int, pow2(a as nat) as int);
            lemma_basic_div(b * 0x10000, pow2(a as nat) as int);
        }
        (0, 0)
    } else {
        let p = power_of_two(a);
        proof {
            lemma_div_is_ordered_by_one(b as int, p as int);
        }
        let q = b as u64 / p;
        let f = (b as u64 * 0x10000) / p;
        (q as u16, (f % 0x10000) as u16)
    }
}

/// Arithmetic `b >> a`, the sign bit copied in; EX holds the bits shifted out.
pub fn asr(b: u16, a: u16) -> (r: (u16, u16))
    ensures
        r == asr_spec(b, a),
{
    let sb = to_signed(b);
    if sb >= 0 {
        shr(b, a)
    } else if a >= 32 {
        proof {
            let d = pow2(a as nat) as int;
            lemma_pow2_at_least_32(a as nat);
            lemma_fundamental_div_mod_converse_div(sb as int, d, -1, sb + d);
            lemma_fundamental_div_mod_converse_div(sb * 0x10000, d, -1, sb * 0x10000 + d);
        }
        (0xffff, 0xffff)
    } else {
        let p = power_of_two(a);
        let t: u64 = (0xffff - b) as u64;
        let t2: u64 = (0x10000 - b as u64) * 0x10000 - 1;
        let q = t / p;
        let q2 = t2 / p;
        proof {
            lemma_floor_div_negative(sb as int, p as int);
            lemma_floor_div_negative(sb * 0x10000, p as int);
            lemma_div_is_ordered_by_one(t as int, p as int);
            lemma_fundamental_div_mod_converse_mod(-1 - q as int, 0x10000, -1, 0xffff - q);
            let k = q2 as int / 0x10000;
            let m = q2 as int % 0x10000;
            lemma_fundamental_div_mod(q2 as int, 0x10000);
            lemma_fundamental_div_mod_converse_mod(-1 - q2 as int, 0x10000, -1 - k, 0xffff - m);
        }
        ((0xffff - q) as u16, (0xffff - q2 % 0x10000) as u16)
    }
}

/// `b << a`; EX holds the bits shifted out, `(b << a) >> 16`.
pub fn shl(b: u16, a: u16) -> (r: (u16, u16))
    ensures
        r == shl_spec(b, a),
{
    if a >= 32 {
        proof {
            let k = pow2((a - 32) as nat) as int;
            lemma_pow2_adds(32, (a - 32) as nat);
            lemma2_to64();
            let x = b * pow2(a as nat) as int;
            assert(x == 0x10000 * (0x10000 * (b * k))) by (nonlinear_arith)
                requires
                    x == b * pow2(a as nat) as int,
                    pow2(a as nat) == 0x1_0000_0000 * k,
            ;
            lemma_fundamental_div_mod_converse_mod(x, 0x10000, 0x10000 * (b * k), 0);
            lemma_fundamental_div_mod_converse_div(x, 0x10000, 0x10000 * (b * k), 0);
            lemma_fundamental_div_mod_converse_mod(0x10000 * (b * k), 0x10000, b * k, 0);
        }
        (0, 0)
    } else {
        let p = power_of_two(a);
        assert(b as int * p as int <= 0xffff * 0x8000_0000) by (nonlinear_arith)
            requires
                b <= 0xffff,
                p <= 0x8000_0000,
        ;
        let s = b as u64 * p;
        ((s % 0x10000) as u16, ((s / 0x10000) % 0x10000) as u16)
    }
}

/// `b + a + EX`; EX becomes 1 on a carry, else 0.
pub fn adx(b: u16, a: u16, ex: u16) -> (r: (u16, u16))
    ensures
        r == adx_spec(b, a, ex),
{
    let s: u32 = b as u32 + a as u32 + ex as u32;
    ((s % 0x10000) as u16, if s > 0xffff { 1 } else { 0 })
}

/// `b - a + EX`; EX becomes 0xffff on a borrow, else 0.
pub fn sbx(b: u16, a: u16, ex: u16) -> (r: (u16, u16))
    ensures
        r == sbx_spec(b, a, ex),
{
    let s: u32 = b as u32 + ex as u32 + 0x10000 - a as u32;
    ((s % 0x10000) as u16, if (b as u32 + ex as u32) < a as u32 { 0xffff } else { 0 })
}

/// Truncating division and its remainder put the dividend back together:
/// `tdiv(x, y) * y + trem(x, y) == x`.
pub proof fn lemma_tdiv_trem(x: int, y: int)
    requires
        y != 0,
    ensures
        tdiv(x, y) * y + trem(x, y) == x,
        abs(trem(x, y)) < abs(y),
{
    let q = abs(x) / abs(y);
    let r = abs(x) % abs(y);
    lemma_fundamental_div_mod(abs(x), abs(y));
    assert(tdiv(x, y) * y + trem(x, y) == x) by (nonlinear_arith)
        requires
            abs(x) == abs(y) * q + r,
            abs(x) == (if x < 0 { -x } else { x }),
            abs(y) == (if y < 0 { -y } else { y }),
            tdiv(x, y) == (if (x < 0) == (y < 0) { q } else { -q }),
            trem(x, y) == (if x < 0 { -r } else { r }),
    ;
}

/// For a non-zero divisor, DIV and MOD on the same words satisfy
/// `(b / a) * a + (b % a) == b`.
pub proof fn lemma_div_mod_unsigned(b: u16, a: u16)
    requires
        a != 0,
    ensures
        div_spec(b, a).0 * a + mod_spec(b, a) == b,
{
    lemma_fundamental_div_mod(b as int, a as int);
    lemma_div_is_ordered_by_one(b as int, a as int);
    lemma_small_mod((b as int / a as int) as nat, 0x10000);
    assert((b as int / a as int) * a + b as int % a as int == b) by (nonlinear_arith)
        requires
            b as int == a * (b as int / a as int) + b as int % a as int,
    ;
}

/// For a non-zero divisor, DVI and MDI on the same words satisfy
/// `(b / a) * a + (b % a) == b` read as signed numbers, with division truncating
/// toward zero. The one quotient that does not fit a word, -32768 / -1, is left out.
pub proof fn lemma_div_mod_signed(b: u16, a: u16)
    requires
        a != 0,
        !(b == 0x8000 && a == 0xffff),
    ensures
        signed(dvi_spec(b, a).0) * signed(a) + signed(mdi_spec(b, a)) == signed(b),
{
    let x = signed(b);
    let y = signed(a);
    lemma_tdiv_trem(x, y);
    let q = tdiv(x, y);
    lemma_div_is_ordered_by_one(abs(x), abs(y));
    assert(-0x8000 <= q <= 0x7fff) by {
        if abs(y) == 1 {
            lemma_div_by_one(abs(x));
        } else {
            lemma_div_by_two_or_more(abs(x), abs(y));
        }
    }
    lemma_small_signed_word(q);
    lemma_small_signed_word(trem(x, y));
}

proof fn lemma_div_by_one(x: int)
    requires
        x >= 0,
    ensures
        x / 1 == x,
{
}

proof fn lemma_div_by_two_or_more(x: int, d: int)
    requires
        0 <= x <= 0x8000,
        d >= 2,
    ensures
        x / d <= 0x4000,
{
    lemma_fundamental_div_mod(x, d);
    assert(x / d <= 0x4000) by (nonlinear_arith)
        requires
            x == d * (x / d) + x % d,
            0 <= x % d,
            x <= 0x8000,
            d >= 2,
    ;
}

/// A number that fits a signed word reads back from its word unchanged.
proof fn lemma_small_signed_word(x: int)
    requires
        -0x8000 <= x <= 0x7fff,
    ensures
        signed(word(x)) == x,
{
    if x < 0 {
        lemma_fundamental_div_mod_converse_mod(x, 0x10000, -1, x + 0x10000);
    }
}

} // verus!
