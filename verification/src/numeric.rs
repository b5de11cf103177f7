//! Big-endian byte arithmetic: the positional base-256 value of a byte
//! sequence, the carry-chain increment and borrow-chain decrement, and the
//! lemmas relating them.

use vstd::arithmetic::power::pow;
use vstd::prelude::*;

verus! {

/// The positional base-256 value of a big-endian byte sequence:
/// `s[0]*256^(n-1) + s[1]*256^(n-2) + ... + s[n-1]`.
pub open spec fn to_nat(s: Seq<u8>) -> nat
    decreases s.len(),
{
    if s.len() == 0 {
        0
    } else {
        to_nat(s.drop_last()) * 256 + s.last() as nat
    }
}

/// A sequence of `n` zero bytes.
pub open spec fn zeros(n: nat) -> Seq<u8> {
    Seq::new(n, |i: int| 0u8)
}

/// A sequence of `n` 0xFF bytes.
pub open spec fn maxes(n: nat) -> Seq<u8> {
    Seq::new(n, |i: int| 255u8)
}

/// The carry-chain successor: 0xFF bytes at the tail roll over to 0x00 and the
/// first byte (from the right) that is not 0xFF is incremented; an all-0xFF
/// sequence wraps to all zeros.
pub open spec fn inc_bytes(s: Seq<u8>) -> Seq<u8>
    decreases s.len(),
{
    if s.len() == 0 {
        s
    } else if s.last() == 255 {
        inc_bytes(s.drop_last()).push(0)
    } else {
        s.drop_last().push((s.last() + 1) as u8)
    }
}

/// The borrow-chain predecessor: 0x00 bytes at the tail roll over to 0xFF and
/// the first byte (from the right) that is not 0x00 is decremented; an
/// all-zero sequence wraps to all 0xFF.
pub open spec fn dec_bytes(s: Seq<u8>) -> Seq<u8>
    decreases s.len(),
{
    if s.len() == 0 {
        s
    } else if s.last() == 0 {
        dec_bytes(s.drop_last()).push(255)
    } else {
        s.drop_last().push((s.last() - 1) as u8)
    }
}

/// The value of a byte sequence of length `n` is below `256^n`.
pub proof fn lemma_to_nat_bound(s: Seq<u8>)
    ensures
        to_nat(s) < pow(256, s.len()),
    decreases s.len(),
{
    reveal(pow);
    if s.len() == 0 {
    } else {
        lemma_to_nat_bound(s.drop_last());
    }
}

/// Increment preserves the width.
pub proof fn lemma_inc_len(s: Seq<u8>)
    ensures
        inc_bytes(s).len() == s.len(),
    decreases s.len(),
{
    if s.len() > 0 && s.last() == 255 {
        lemma_inc_len(s.drop_last());
    }
}

/// Decrement preserves the width.
pub proof fn lemma_dec_len(s: Seq<u8>)
    ensures
        dec_bytes(s).len() == s.len(),
    decreases s.len(),
{
    if s.len() > 0 && s.last() == 0 {
        lemma_dec_len(s.drop_last());
    }
}

/// Appending a byte multiplies the value by 256 and adds the byte.
pub proof fn lemma_to_nat_push(s: Seq<u8>, b: u8)
    ensures
        to_nat(s.push(b)) == to_nat(s) * 256 + b,
{
    assert(s.push(b).drop_last() =~= s);
    assert(s.push(b).last() == b);
}

/// The carry chain computes plus one modulo `256^n`: it adds one everywhere
/// except at the all-0xFF maximum, where it wraps to zero.
pub proof fn lemma_inc_to_nat(s: Seq<u8>)
    requires
        s.len() > 0,
    ensures
        to_nat(s) == pow(256, s.len()) - 1 ==> to_nat(inc_bytes(s)) == 0,
        to_nat(s) < pow(256, s.len()) - 1 ==> to_nat(inc_bytes(s)) == to_nat(s) + 1,
    decreases s.len(),
{
    reveal(pow);
    let d = s.drop_last();
    let l = s.last();
    assert(to_nat(s) == to_nat(d) * 256 + l);
    assert(pow(256, s.len()) == 256 * pow(256, d.len()));
    lemma_to_nat_bound(d);
    if l == 255 {
        lemma_to_nat_push(inc_bytes(d), 0);
        if s.len() == 1 {
            assert(to_nat(d) == 0);
            assert(to_nat(inc_bytes(d)) == 0);
        } else {
            lemma_inc_to_nat(d);
        }
    } else {
        lemma_to_nat_push(d, (l + 1) as u8);
    }
}

/// The borrow chain computes minus one modulo `256^n`: it subtracts one
/// everywhere except at the all-zero minimum, where it wraps to the maximum.
pub proof fn lemma_dec_to_nat(s: Seq<u8>)
    requires
        s.len() > 0,
    ensures
        to_nat(s) == 0 ==> to_nat(dec_bytes(s)) == pow(256, s.len()) - 1,
        to_nat(s) > 0 ==> to_nat(dec_bytes(s)) == to_nat(s) - 1,
    decreases s.len(),
{
    reveal(pow);
    let d = s.drop_last();
    let l = s.last();
    assert(to_nat(s) == to_nat(d) * 256 + l);
    assert(pow(256, s.len()) == 256 * pow(256, d.len()));
    lemma_to_nat_bound(d);
    if l == 0 {
        lemma_to_nat_push(dec_bytes(d), 255);
        if s.len() == 1 {
            assert(to_nat(d) == 0);
            assert(to_nat(dec_bytes(d)) == 0);
        } else {
            lemma_dec_to_nat(d);
        }
    } else {
        lemma_to_nat_push(d, (l - 1) as u8);
    }
}

/// `n` applications of the carry-chain increment.
pub open spec fn inc_bytes_n(s: Seq<u8>, n: nat) -> Seq<u8>
    decreases n,
{
    if n == 0 {
        s
    } else {
        inc_bytes(inc_bytes_n(s, (n - 1) as nat))
    }
}

/// `n` applications of the borrow-chain decrement.
pub open spec fn dec_bytes_n(s: Seq<u8>, n: nat) -> Seq<u8>
    decreases n,
{
    if n == 0 {
        s
    } else {
        dec_bytes(dec_bytes_n(s, (n - 1) as nat))
    }
}

/// A counter not at the all-0xFF maximum is at distance one from its
/// increment: the incremented value is exactly one more.
pub proof fn lemma_increment_distance_one(s: Seq<u8>)
    requires
        s.len() > 0,
        to_nat(s) != pow(256, s.len()) - 1,
    ensures
        to_nat(inc_bytes(s)) == to_nat(s) + 1,
{
    lemma_to_nat_bound(s);
    lemma_inc_to_nat(s);
}

/// A counter not at the all-zero minimum is at distance one from its
/// decrement: the decremented value is exactly one less.
pub proof fn lemma_decrement_distance_one(s: Seq<u8>)
    requires
        s.len() > 0,
        to_nat(s) != 0,
    ensures
        to_nat(dec_bytes(s)) == to_nat(s) - 1,
{
    lemma_dec_to_nat(s);
}

/// Decrementing an incremented sequence restores it, across the wrap boundary
/// included.
pub proof fn lemma_dec_inc(s: Seq<u8>)
    ensures
        dec_bytes(inc_bytes(s)) =~= s,
    decreases s.len(),
{
    if s.len() == 0 {
    } else if s.last() == 255 {
        lemma_dec_inc(s.drop_last());
        assert(inc_bytes(s).last() == 0);
        assert(inc_bytes(s).drop_last() =~= inc_bytes(s.drop_last()));
    } else {
        assert(inc_bytes(s).last() == s.last() + 1);
        assert(inc_bytes(s).drop_last() =~= s.drop_last());
    }
}

/// Incrementing a decremented sequence restores it, across the wrap boundary
/// included.
pub proof fn lemma_inc_dec(s: Seq<u8>)
    ensures
        inc_bytes(dec_bytes(s)) =~= s,
    decreases s.len(),
{
    if s.len() == 0 {
    } else if s.last() == 0 {
        lemma_inc_dec(s.drop_last());
        assert(dec_bytes(s).last() == 255);
        assert(dec_bytes(s).drop_last() =~= dec_bytes(s.drop_last()));
    } else {
        assert(dec_bytes(s).last() == s.last() - 1);
        assert(dec_bytes(s).drop_last() =~= s.drop_last());
    }
}

/// On an all-0xFF sequence the carry chain wraps to all zeros.
pub proof fn lemma_inc_all_max(s: Seq<u8>)
    requires
        forall|j: int| 0 <= j < s.len() ==> s[j] == 255,
    ensures
        inc_bytes(s) =~= zeros(s.len()),
    decreases s.len(),
{
    if s.len() > 0 {
        lemma_inc_all_max(s.drop_last());
        assert(inc_bytes(s.drop_last()) == zeros((s.len() - 1) as nat));
    }
}

/// On an all-zero sequence the borrow chain wraps to all 0xFF.
pub proof fn lemma_dec_all_zero(s: Seq<u8>)
    requires
        forall|j: int| 0 <= j < s.len() ==> s[j] == 0,
    ensures
        dec_bytes(s) =~= maxes(s.len()),
    decreases s.len(),
{
    if s.len() > 0 {
        lemma_dec_all_zero(s.drop_last());
        assert(dec_bytes(s.drop_last()) == maxes((s.len() - 1) as nat));
    }
}

/// When the carry chain stops at position `i` (every byte to its right is
/// 0xFF), the increment keeps the head, adds one at `i`, and zeroes the tail.
pub proof fn lemma_inc_at(s: Seq<u8>, i: int)
    requires
        0 <= i < s.len(),
        s[i] != 255,
        forall|j: int| i < j < s.len() ==> s[j] == 255,
    ensures
        inc_bytes(s) =~= s.take(i).push((s[i] + 1) as u8) + zeros((s.len() - i - 1) as nat),
    decreases s.len(),
{
    if i == s.len() - 1 {
        assert(s.drop_last() =~= s.take(i));
    } else {
        assert(s.last() == 255);
        lemma_inc_at(s.drop_last(), i);
        assert(s.drop_last().take(i) =~= s.take(i));
        assert(inc_bytes(s) =~= (s.take(i).push((s[i] + 1) as u8) + zeros(
            (s.len() - i - 2) as nat,
        )).push(0));
    }
}

/// When the borrow chain stops at position `i` (every byte to its right is
/// 0x00), the decrement keeps the head, subtracts one at `i`, and fills the
/// tail with 0xFF.
pub proof fn lemma_dec_at(s: Seq<u8>, i: int)
    requires
        0 <= i < s.len(),
        s[i] != 0,
        forall|j: int| i < j < s.len() ==> s[j] == 0,
    ensures
        dec_bytes(s) =~= s.take(i).push((s[i] - 1) as u8) + maxes((s.len() - i - 1) as nat),
    decreases s.len(),
{
    if i == s.len() - 1 {
        assert(s.drop_last() =~= s.take(i));
    } else {
        assert(s.last() == 0);
        lemma_dec_at(s.drop_last(), i);
        assert(s.drop_last().take(i) =~= s.take(i));
        assert(dec_bytes(s) =~= (s.take(i).push((s[i] - 1) as u8) + maxes(
            (s.len() - i - 2) as nat,
        )).push(255));
    }
}

/// The carry-chain increment of a byte vector, least-significant byte last.
pub fn succ_bytes(v: &Vec<u8>) -> (r: Vec<u8>)
    ensures
        r@ == inc_bytes(v@),
{
    let n = v.len();
    let mut r: Vec<u8> = Vec::new();
    let mut k: usize = 0;
    while k < n
        invariant
            k <= n,
            n == v@.len(),
            r@ =~= v@.take(k as int),
        decreases n - k,
    {
        r.push(v[k]);
        assert(r@ =~= v@.take(k as int).push(v@[k as int]));
        assert(r@ =~= v@.take(k + 1));
        k += 1;
    }
    assert(r@ =~= v@);
    let mut i: usize = n;
    while i > 0
        invariant
            i <= n,
            n == v@.len(),
            r@.len() == n,
            forall|j: int| 0 <= j < i ==> r@[j] == v@[j],
            forall|j: int| i <= j < n ==> r@[j] == 0 && v@[j] == 255,
        decreases i,
    {
        i -= 1;
        let b = r[i];
        if b == 255 {
            r.set(i, 0);
        } else {
            r.set(i, b + 1);
            proof {
                lemma_inc_at(v@, i as int);
                assert(r@ =~= v@.take(i as int).push((v@[i as int] + 1) as u8) + zeros(
                    (v@.len() - i - 1) as nat,
                ));
            }
            return r;
        }
    }
    proof {
        lemma_inc_all_max(v@);
        assert(r@ =~= zeros(v@.len()));
    }
    r
}

/// A vector of `n` copies of `b`.
pub fn filled_bytes(n: usize, b: u8) -> (r: Vec<u8>)
    ensures
        r@ == Seq::new(n as nat, |i: int| b),
{
    let mut r: Vec<u8> = Vec::new();
    let mut k: usize = 0;
    while k < n
        invariant
            k <= n,
            r@ =~= Seq::new(k as nat, |i: int| b),
        decreases n - k,
    {
        r.push(b);
        assert(r@ =~= Seq::new((k + 1) as nat, |i: int| b));
        k += 1;
    }
    proof {
        assert(r@ =~= Seq::new(n as nat, |i: int| b));
    }
    r
}

/// A fresh vector with the same bytes.
pub fn copy_bytes(v: &Vec<u8>) -> (r: Vec<u8>)
    ensures
        r@ == v@,
{
    let n = v.len();
    let mut r: Vec<u8> = Vec::new();
    let mut k: usize = 0;
    while k < n
        invariant
            k <= n,
            n == v@.len(),
            r@ =~= v@.take(k as int),
        decreases n - k,
    {
        r.push(v[k]);
        assert(r@ =~= v@.take(k + 1));
        k += 1;
    }
    proof {
        assert(r@ =~= v@);
    }
    r
}

/// Whether two byte vectors hold the same bytes.
pub fn bytes_eq(a: &Vec<u8>, b: &Vec<u8>) -> (r: bool)
    ensures
        r == (a@ == b@),
{
    let n = a.len();
    if n != b.len() {
        return false;
    }
    let mut i: usize = 0;
    while i < n
        invariant
            i <= n,
            n == a@.len() == b@.len(),
            forall|j: int| 0 <= j < i ==> a@[j] == b@[j],
        decreases n - i,
    {
        if a[i] != b[i] {
            return false;
        }
        i += 1;
    }
    proof {
        assert(a@ =~= b@);
    }
    true
}

/// Lexicographic order on byte sequences, most-significant byte first.
pub open spec fn lex_lt(a: Seq<u8>, b: Seq<u8>) -> bool
    decreases a.len(),
{
    if a.len() == 0 || b.len() == 0 {
        b.len() > 0
    } else if a.first() != b.first() {
        a.first() < b.first()
    } else {
        lex_lt(a.drop_first(), b.drop_first())
    }
}

/// Front decomposition of the positional value: the leading byte weighs
/// `256^(n-1)`.
pub proof fn lemma_to_nat_first(s: Seq<u8>)
    requires
        s.len() > 0,
    ensures
        to_nat(s) == s.first() * pow(256, (s.len() - 1) as nat) + to_nat(s.drop_first()),
    decreases s.len(),
{
    reveal(pow);
    if s.len() == 1 {
        assert(s.drop_last() =~= Seq::<u8>::empty());
        assert(s.drop_first() =~= Seq::<u8>::empty());
    } else {
        let d = s.drop_last();
        lemma_to_nat_first(d);
        let p1 = pow(256, (d.len() - 1) as nat);
        let pn = pow(256, (s.len() - 1) as nat);
        assert(pn == 256 * p1);
        assert(d.first() == s.first());
        assert(to_nat(d) == s.first() * p1 + to_nat(d.drop_first()));
        assert(to_nat(s) == to_nat(d) * 256 + s.last());
        assert(s.drop_first().drop_last() =~= d.drop_first());
        assert(s.drop_first().last() == s.last());
        assert(to_nat(s.drop_first()) == to_nat(d.drop_first()) * 256 + s.last());
        assert(to_nat(d) * 256 == s.first() * p1 * 256 + to_nat(d.drop_first()) * 256);
        assert(s.first() * p1 * 256 == s.first() * pn) by (nonlinear_arith)
            requires
                pn == 256 * p1,
        ;
    }
}

/// For sequences of one width, lexicographic byte order coincides with the
/// order of positional base-256 values.
pub proof fn lemma_lex_order(a: Seq<u8>, b: Seq<u8>)
    requires
        a.len() == b.len(),
    ensures
        lex_lt(a, b) <==> to_nat(a) < to_nat(b),
    decreases a.len(),
{
    if a.len() == 0 {
    } else {
        lemma_to_nat_first(a);
        lemma_to_nat_first(b);
        let p = pow(256, (a.len() - 1) as nat);
        lemma_to_nat_bound(a.drop_first());
        lemma_to_nat_bound(b.drop_first());
        vstd::arithmetic::power::lemma_pow_positive(256, (a.len() - 1) as nat);
        if a.first() == b.first() {
            lemma_lex_order(a.drop_first(), b.drop_first());
        } else if a.first() < b.first() {
            assert((a.first() + 1) * p <= b.first() * p) by (nonlinear_arith)
                requires
                    a.first() + 1 <= b.first(),
                    p > 0,
            ;
            assert(a.first() * p + p == (a.first() + 1) * p) by (nonlinear_arith);
        } else {
            assert((b.first() + 1) * p <= a.first() * p) by (nonlinear_arith)
                requires
                    b.first() + 1 <= a.first(),
                    p > 0,
            ;
            assert(b.first() * p + p == (b.first() + 1) * p) by (nonlinear_arith);
        }
    }
}

/// No byte sequence is lexicographically below itself.
pub proof fn lemma_lex_lt_irreflexive(a: Seq<u8>)
    ensures
        !lex_lt(a, a),
    decreases a.len(),
{
    if a.len() > 0 {
        lemma_lex_lt_irreflexive(a.drop_first());
    }
}

/// Equal prefixes shift the lexicographic comparison to the tails.
pub proof fn lemma_lex_lt_skip(a: Seq<u8>, b: Seq<u8>, i: int)
    requires
        0 <= i <= a.len(),
        i <= b.len(),
        forall|j: int| 0 <= j < i ==> a[j] == b[j],
    ensures
        lex_lt(a, b) == lex_lt(a.skip(i), b.skip(i)),
    decreases i,
{
    if i > 0 {
        if a.len() == 0 || b.len() == 0 {
        } else {
            lemma_lex_lt_skip(a.drop_first(), b.drop_first(), i - 1);
            assert(a.drop_first().skip(i - 1) =~= a.skip(i));
            assert(b.drop_first().skip(i - 1) =~= b.skip(i));
        }
    } else {
        assert(a.skip(0) =~= a);
        assert(b.skip(0) =~= b);
    }
}

/// Lexicographic comparison of two byte vectors of one width.
pub fn bytes_lt(a: &Vec<u8>, b: &Vec<u8>) -> (r: bool)
    requires
        a@.len() == b@.len(),
    ensures
        r == lex_lt(a@, b@),
{
    let n = a.len();
    let mut i: usize = 0;
    while i < n
        invariant
            i <= n,
            n == a@.len() == b@.len(),
            forall|j: int| 0 <= j < i ==> a@[j] == b@[j],
        decreases n - i,
    {
        let x = a[i];
        let y = b[i];
        if x != y {
            proof {
                lemma_lex_lt_skip(a@, b@, i as int);
                assert(a@.skip(i as int).first() == a@[i as int]);
                assert(b@.skip(i as int).first() == b@[i as int]);
            }
            return x < y;
        }
        i += 1;
    }
    proof {
        lemma_lex_lt_skip(a@, b@, n as int);
        assert(a@.skip(n as int).len() == 0);
        assert(b@.skip(n as int).len() == 0);
    }
    false
}

/// `256^15` and `256^16`, spelled out for overflow reasoning on `u128`.
pub proof fn lemma_pow256_16()
    ensures
        pow(256, 15) == 0x1000000000000000000000000000000,
        pow(256, 16) == 0x100000000000000000000000000000000,
{
    reveal_with_fuel(pow, 17);
}

/// `256^n` grows with `n`.
pub proof fn lemma_pow256_increases(e1: nat, e2: nat)
    requires
        e1 <= e2,
    ensures
        pow(256, e1) <= pow(256, e2),
{
    vstd::arithmetic::power::lemma_pow_increases(256, e1, e2);
}

/// The positional value of at most 16 bytes, computed in a `u128`.
pub fn bytes_to_u128(v: &Vec<u8>) -> (r: u128)
    requires
        v@.len() <= 16,
    ensures
        r as nat == to_nat(v@),
{
    let n = v.len();
    let mut r: u128 = 0;
    let mut i: usize = 0;
    while i < n
        invariant
            i <= n,
            n == v@.len() <= 16,
            r as nat == to_nat(v@.take(i as int)),
        decreases n - i,
    {
        proof {
            lemma_to_nat_bound(v@.take(i as int));
            lemma_pow256_increases(i as nat, 15);
            lemma_pow256_16();
            lemma_to_nat_push(v@.take(i as int), v@[i as int]);
            assert(v@.take(i as int).push(v@[i as int]) =~= v@.take(i + 1));
        }
        r = r * 256 + (v[i] as u128);
        i += 1;
    }
    proof {
        assert(v@.take(n as int) =~= v@);
    }
    r
}

/// The borrow-chain decrement of a byte vector, least-significant byte last.
pub fn pred_bytes(v: &Vec<u8>) -> (r: Vec<u8>)
    ensures
        r@ == dec_bytes(v@),
{
    let n = v.len();
    let mut r: Vec<u8> = Vec::new();
    let mut k: usize = 0;
    while k < n
        invariant
            k <= n,
            n == v@.len(),
            r@ =~= v@.take(k as int),
        decreases n - k,
    {
        r.push(v[k]);
        assert(r@ =~= v@.take(k + 1));
        k += 1;
    }
    assert(r@ =~= v@);
    let mut i: usize = n;
    while i > 0
        invariant
            i <= n,
            n == v@.len(),
            r@.len() == n,
            forall|j: int| 0 <= j < i ==> r@[j] == v@[j],
            forall|j: int| i <= j < n ==> r@[j] == 255 && v@[j] == 0,
        decreases i,
    {
        i -= 1;
        let b = r[i];
        if b == 0 {
            r.set(i, 255);
        } else {
            r.set(i, b - 1);
            proof {
                lemma_dec_at(v@, i as int);
                assert(r@ =~= v@.take(i as int).push((v@[i as int] - 1) as u8) + maxes(
                    (v@.len() - i - 1) as nat,
                ));
            }
            return r;
        }
    }
    proof {
        lemma_dec_all_zero(v@);
        assert(r@ =~= maxes(v@.len()));
    }
    r
}

} // verus!
