//! Alignment arithmetic: powers of two, divisibility, rounding an address up
//! to an alignment boundary, and the two small decisions the adapter makes
//! (which alignment to request from the host, and whether the host's direct
//! resize primitive may be used).

use vstd::arithmetic::div_mod::lemma_div_is_ordered;
use vstd::arithmetic::div_mod::lemma_fundamental_div_mod;
use vstd::arithmetic::div_mod::lemma_mod_bound;
use vstd::arithmetic::div_mod::lemma_mod_multiples_basic;
use vstd::arithmetic::div_mod::lemma_mod_self_0;
use vstd::arithmetic::div_mod::lemma_small_mod;
use vstd::prelude::*;

verus! {

/// `n` is a power of two: 1, 2, 4, 8, ...
pub open spec fn is_pow2(n: nat) -> bool
    decreases n,
{
    if n == 0 {
        false
    } else if n == 1 {
        true
    } else {
        n % 2 == 0 && is_pow2(n / 2)
    }
}

/// Every power of two is positive.
pub proof fn lemma_pow2_pos(n: nat)
    requires
        is_pow2(n),
    ensures
        n >= 1,
{
}

/// A smaller power of two divides a larger one.
pub proof fn lemma_pow2_divides(a: nat, b: nat)
    requires
        is_pow2(a),
        is_pow2(b),
        a <= b,
    ensures
        b % a == 0,
    decreases b,
{
    if a == 1 {
        assert(b % a == 0) by (nonlinear_arith)
            requires
                a == 1,
        ;
    } else {
        lemma_div_is_ordered(a as int, b as int, 2);
        lemma_pow2_divides(a / 2, b / 2);
        let ha = (a / 2) as int;
        let hb = (b / 2) as int;
        lemma_fundamental_div_mod(hb, ha);
        let q = hb / ha;
        lemma_fundamental_div_mod(a as int, 2);
        lemma_fundamental_div_mod(b as int, 2);
        assert(b as int == (a as int) * q) by (nonlinear_arith)
            requires
                hb == ha * q,
                a as int == 2 * ha,
                b as int == 2 * hb,
        ;
        lemma_mod_multiples_basic(q, a as int);
    }
}

/// Divisibility is transitive: if `b` divides `x` and `a` divides `b`,
/// then `a` divides `x`.
pub proof fn lemma_divides_trans(x: int, b: int, a: int)
    requires
        a >= 1,
        b >= 1,
        x % b == 0,
        b % a == 0,
    ensures
        x % a == 0,
{
    lemma_fundamental_div_mod(x, b);
    lemma_fundamental_div_mod(b, a);
    let qx = x / b;
    let qb = b / a;
    assert(x == a * (qb * qx)) by (nonlinear_arith)
        requires
            x == b * qx,
            b == a * qb,
    ;
    lemma_mod_multiples_basic(qb * qx, a);
}

/// Distinct powers of two are at least a factor of two apart.
pub proof fn lemma_pow2_gap(g: nat, a: nat)
    requires
        is_pow2(g),
        is_pow2(a),
        g < a,
    ensures
        2 * g <= a,
{
    lemma_pow2_divides(g, a);
    lemma_fundamental_div_mod(a as int, g as int);
    let q = (a as int) / (g as int);
    assert(2 * g <= a) by (nonlinear_arith)
        requires
            a as int == (g as int) * q,
            g < a,
            g >= 1,
    ;
}

/// The least multiple of `align` that is at least `addr`.
pub open spec fn align_up(addr: int, align: int) -> int
    recommends
        align >= 1,
        addr >= 0,
{
    addr + (align - addr % align) % align
}

/// `align_up` lands on an alignment boundary, at or past `addr` and less
/// than one whole alignment past it.
pub proof fn lemma_align_up(addr: int, align: int)
    requires
        addr >= 0,
        align >= 1,
    ensures
        align_up(addr, align) % align == 0,
        addr <= align_up(addr, align) < addr + align,
{
    lemma_mod_bound(addr, align);
    let r = addr % align;
    lemma_fundamental_div_mod(addr, align);
    let q = addr / align;
    if r == 0 {
        lemma_mod_self_0(align);
        assert(align_up(addr, align) == addr);
    } else {
        lemma_small_mod((align - r) as nat, align as nat);
        assert(align_up(addr, align) == addr + align - r);
        assert(addr + align - r == align * (q + 1)) by (nonlinear_arith)
            requires
                addr == align * q + r,
        ;
        lemma_mod_multiples_basic(q + 1, align);
    }
}

/// The alignment the adapter actually requests from the host: the required
/// alignment, raised to the pointer width when the requirement is weaker.
pub open spec fn eff_align(align: nat, word: nat) -> nat {
    if align >= word {
        align
    } else {
        word
    }
}

/// The effective request alignment is a power of two and a multiple of both
/// the required alignment and the pointer width; any address on an effective
/// boundary therefore satisfies both.
pub proof fn lemma_eff_align_divides(addr: int, align: nat, word: nat)
    requires
        is_pow2(align),
        is_pow2(word),
        addr % (eff_align(align, word) as int) == 0,
        addr >= 0,
    ensures
        is_pow2(eff_align(align, word)),
        addr % (align as int) == 0,
        addr % (word as int) == 0,
{
    let e = eff_align(align, word);
    lemma_pow2_pos(align);
    lemma_pow2_pos(word);
    lemma_pow2_divides(align, e);
    lemma_pow2_divides(word, e);
    lemma_divides_trans(addr, e as int, align as int);
    lemma_divides_trans(addr, e as int, word as int);
}

/// Computes `eff_align`: the larger of the required alignment and the
/// pointer width.
pub fn effective_align(align: usize, word: usize) -> (r: usize)
    ensures
        r as nat == eff_align(align as nat, word as nat),
{
    if align >= word {
        align
    } else {
        word
    }
}

/// The host's direct resize primitive may be used only when the old
/// alignment requirement is within the platform's minimum guarantee and no
/// larger than the new size itself.
pub open spec fn direct_resize_ok(old_align: nat, min_align: nat, new_size: nat) -> bool {
    old_align <= min_align && old_align <= new_size
}

/// Decides between the direct resize path and the allocate-copy-free
/// fallback.
pub fn use_direct_resize(old_align: usize, min_align: usize, new_size: usize) -> (r: bool)
    ensures
        r == direct_resize_ok(old_align as nat, min_align as nat, new_size as nat),
{
    old_align <= min_align && old_align <= new_size
}

/// How many bytes a resize preserves: the smaller of the old and new sizes.
pub open spec fn min_size(a: nat, b: nat) -> nat {
    if a <= b {
        a
    } else {
        b
    }
}

/// Computes `min_size`: the number of live bytes to carry over on the
/// fallback path.
pub fn copy_len(old_size: usize, new_size: usize) -> (r: usize)
    ensures
        r as nat == min_size(old_size as nat, new_size as nat),
{
    if old_size <= new_size {
        old_size
    } else {
        new_size
    }
}

/// The largest power of two that is at most `n`.
pub fn pow2_at_most(n: usize) -> (r: usize)
    requires
        n >= 1,
    ensures
        is_pow2(r as nat),
        r <= n,
        2 * (r as int) > n,
{
    let mut r: usize = 1;
    while r <= n / 2
        invariant
            1 <= r <= n,
            is_pow2(r as nat),
            n >= 1,
        decreases n - r,
    {
        r = r * 2;
    }
    r
}

} // verus!
