//! Numbers written as digit sequences in a base between 2 and 256, and the
//! change from one base to another that keeps leading zeros.
//!
//! Base58 is the change between base 256 and base 58; the big-endian value
//! of a byte string is its value in base 256.

use vstd::prelude::*;

verus! {

/// Every digit is below `base`.
pub open spec fn all_below(digits: Seq<u8>, base: nat) -> bool {
    forall|i: int| 0 <= i < digits.len() ==> (#[trigger] digits[i] as nat) < base
}

/// The value of digits written least significant first.
pub open spec fn value_le(digits: Seq<u8>, base: nat) -> nat
    decreases digits.len(),
{
    if digits.len() == 0 {
        0
    } else {
        digits[0] as nat + base * value_le(digits.drop_first(), base)
    }
}

/// The value of digits written most significant first.
pub open spec fn value_be(digits: Seq<u8>, base: nat) -> nat
    decreases digits.len(),
{
    if digits.len() == 0 {
        0
    } else {
        base * value_be(digits.drop_last(), base) + digits.last() as nat
    }
}

/// The big-endian value of a byte string.
pub open spec fn be_nat(bytes: Seq<u8>) -> nat {
    value_be(bytes, 256)
}

/// The digits of `n`, least significant first, without high zeros.
pub open spec fn digits_le(n: nat, base: nat) -> Seq<u8>
    decreases n,
    when base >= 2
    via digits_le_decreases
{
    if n == 0 {
        Seq::empty()
    } else {
        seq![(n % base) as u8] + digits_le(n / base, base)
    }
}

#[via_fn]
proof fn digits_le_decreases(n: nat, base: nat) {
    if n != 0 {
        assert(n / base < n) by (nonlinear_arith)
            requires
                n > 0,
                base >= 2,
        ;
    }
}

/// The digits of `n`, most significant first, without leading zeros.
pub open spec fn digits_be(n: nat, base: nat) -> Seq<u8> {
    digits_le(n, base).reverse()
}

/// No zero digit stands last.
pub open spec fn trimmed_le(digits: Seq<u8>) -> bool {
    digits.len() == 0 || digits.last() != 0
}

/// No zero digit stands first.
pub open spec fn trimmed_be(digits: Seq<u8>) -> bool {
    digits.len() == 0 || digits[0] != 0
}

/// `count` zero digits.
pub open spec fn zeros(count: nat) -> Seq<u8> {
    Seq::new(count, |i: int| 0u8)
}

/// How many zero digits stand at the front.
pub open spec fn leading_zeros(digits: Seq<u8>) -> nat
    decreases digits.len(),
{
    if digits.len() == 0 || digits[0] != 0 {
        0
    } else {
        1 + leading_zeros(digits.drop_first())
    }
}

/// Digits in base `from` rewritten in base `to`: each leading zero digit
/// stays one zero digit, and the rest is the same number without leading
/// zeros.
pub open spec fn spec_transcode(digits: Seq<u8>, from: nat, to: nat) -> Seq<u8> {
    zeros(leading_zeros(digits)) + digits_be(value_be(digits, from), to)
}

/// `multiplier * value + carry` on digits written least significant first.
pub open spec fn mul_add_le(digits: Seq<u8>, carry: nat, base: nat, multiplier: nat) -> Seq<u8>
    decreases digits.len(),
{
    if digits.len() == 0 {
        digits_le(carry, base)
    } else {
        let acc = digits[0] as nat * multiplier + carry;
        seq![(acc % base) as u8] + mul_add_le(digits.drop_first(), acc / base, base, multiplier)
    }
}

proof fn lemma_digits_le(n: nat, base: nat)
    requires
        2 <= base <= 256,
    ensures
        value_le(digits_le(n, base), base) == n,
        all_below(digits_le(n, base), base),
        trimmed_le(digits_le(n, base)),
        n > 0 ==> digits_le(n, base).len() > 0,
    decreases n,
{
    if n != 0 {
        let q = n / base;
        let r = n % base;
        assert(q < n && r < base && n == base * q + r) by (nonlinear_arith)
            requires
                n > 0,
                base >= 2,
                q == n / base,
                r == n % base,
        ;
        lemma_digits_le(q, base);
        let d = digits_le(n, base);
        let rest = digits_le(q, base);
        assert(d == seq![r as u8] + rest);
        assert(d.drop_first() =~= rest);
        assert(d[0] == r as u8);
        if rest.len() == 0 {
            assert(q == 0);
            assert(base * q == 0) by (nonlinear_arith)
                requires
                    q == 0,
            ;
            assert(d.last() == r as u8);
        } else {
            assert(d.last() == rest.last());
        }
    }
}

proof fn lemma_digits_le_unique(digits: Seq<u8>, base: nat)
    requires
        2 <= base <= 256,
        all_below(digits, base),
        trimmed_le(digits),
    ensures
        digits_le(value_le(digits, base), base) == digits,
        digits.len() > 0 ==> value_le(digits, base) > 0,
    decreases digits.len(),
{
    if digits.len() > 0 {
        let rest = digits.drop_first();
        let d0 = digits[0] as nat;
        let v = value_le(rest, base);
        let n = value_le(digits, base);
        assert(n == d0 + base * v);
        assert(all_below(rest, base)) by {
            assert forall|i: int| 0 <= i < rest.len() implies (#[trigger] rest[i] as nat)
                < base by {
                assert(rest[i] == digits[i + 1]);
            }
        }
        if rest.len() > 0 {
            assert(rest.last() == digits.last());
        }
        lemma_digits_le_unique(rest, base);
        assert(d0 < base);
        if rest.len() == 0 {
            assert(d0 != 0);
            assert(base * v == 0) by (nonlinear_arith)
                requires
                    v == 0,
            ;
        } else {
            assert(base * v > 0) by (nonlinear_arith)
                requires
                    v > 0,
                    base >= 2,
            ;
        }
        assert(n > 0);
        assert(n % base == d0 && n / base == v) by (nonlinear_arith)
            requires
                n == d0 + base * v,
                d0 < base,
                base >= 2,
        ;
        assert(digits_le(n, base) =~= seq![d0 as u8] + digits_le(v, base));
        assert(digits =~= seq![digits[0]] + rest);
    } else {
        assert(digits =~= Seq::<u8>::empty());
    }
}

proof fn lemma_mul_add_le(digits: Seq<u8>, carry: nat, base: nat, multiplier: nat)
    requires
        2 <= base <= 256,
        1 <= multiplier,
        all_below(digits, base),
        trimmed_le(digits),
    ensures
        value_le(mul_add_le(digits, carry, base, multiplier), base) == multiplier * value_le(
            digits,
            base,
        ) + carry,
        all_below(mul_add_le(digits, carry, base, multiplier), base),
        trimmed_le(mul_add_le(digits, carry, base, multiplier)),
        mul_add_le(digits, carry, base, multiplier).len() >= digits.len(),
    decreases digits.len(),
{
    let out = mul_add_le(digits, carry, base, multiplier);
    if digits.len() == 0 {
        lemma_digits_le(carry, base);
        assert(multiplier * 0 == 0);
    } else {
        let rest = digits.drop_first();
        let d0 = digits[0] as nat;
        let acc = d0 * multiplier + carry;
        let q = acc / base;
        let r = acc % base;
        assert(r < base && acc == base * q + r) by (nonlinear_arith)
            requires
                base >= 2,
                q == acc / base,
                r == acc % base,
        ;
        assert(all_below(rest, base)) by {
            assert forall|i: int| 0 <= i < rest.len() implies (#[trigger] rest[i] as nat)
                < base by {
                assert(rest[i] == digits[i + 1]);
            }
        }
        if rest.len() > 0 {
            assert(rest.last() == digits.last());
        }
        lemma_mul_add_le(rest, q, base, multiplier);
        let tail = mul_add_le(rest, q, base, multiplier);
        assert(out == seq![r as u8] + tail);
        assert(out.drop_first() =~= tail);
        assert(out[0] == r as u8);
        let v = value_le(rest, base);
        assert(value_le(out, base) == r + base * (multiplier * v + q));
        assert(r + base * (multiplier * v + q) == multiplier * (d0 + base * v) + carry)
            by (nonlinear_arith)
            requires
                d0 * multiplier + carry == base * q + r,
        ;
        assert forall|i: int| 0 <= i < out.len() implies (#[trigger] out[i] as nat) < base by {
            if i > 0 {
                assert(out[i] == tail[i - 1]);
            }
        }
        if tail.len() > 0 {
            assert(out.last() == tail.last());
        } else {
            assert(rest.len() == 0);
            assert(d0 != 0);
            lemma_digits_le(q, base);
            assert(q == 0);
            assert(acc >= 1) by (nonlinear_arith)
                requires
                    acc == d0 * multiplier + carry,
                    d0 >= 1,
                    multiplier >= 1,
            ;
            assert(base * q == 0) by (nonlinear_arith)
                requires
                    q == 0,
            ;
            assert(r == acc);
        }
    }
}

proof fn lemma_value_reverse(digits: Seq<u8>, base: nat)
    ensures
        value_be(digits, base) == value_le(digits.reverse(), base),
    decreases digits.len(),
{
    if digits.len() > 0 {
        lemma_value_reverse(digits.drop_last(), base);
        assert(digits.reverse().drop_first() =~= digits.drop_last().reverse());
        assert(digits.reverse()[0] == digits.last());
    }
}

/// The digits of a number spell the number, and no zero stands first.
pub proof fn lemma_digits_be(n: nat, base: nat)
    requires
        2 <= base <= 256,
    ensures
        value_be(digits_be(n, base), base) == n,
        all_below(digits_be(n, base), base),
        trimmed_be(digits_be(n, base)),
{
    lemma_digits_le(n, base);
    let le = digits_le(n, base);
    lemma_value_reverse(le.reverse(), base);
    assert(le.reverse().reverse() =~= le);
    assert forall|i: int| 0 <= i < le.reverse().len() implies (#[trigger] le.reverse()[i] as nat)
        < base by {
        assert(le.reverse()[i] == le[le.len() - 1 - i]);
    }
    if le.len() > 0 {
        assert(le.reverse()[0] == le.last());
    }
}

/// Digits without a leading zero are the digits of their value.
pub proof fn lemma_digits_be_unique(digits: Seq<u8>, base: nat)
    requires
        2 <= base <= 256,
        all_below(digits, base),
        trimmed_be(digits),
    ensures
        digits_be(value_be(digits, base), base) == digits,
{
    let le = digits.reverse();
    lemma_value_reverse(digits, base);
    assert forall|i: int| 0 <= i < le.len() implies (#[trigger] le[i] as nat) < base by {
        assert(le[i] == digits[digits.len() - 1 - i]);
    }
    if le.len() > 0 {
        assert(le.last() == digits[0]);
    }
    lemma_digits_le_unique(le, base);
    assert(le.reverse() =~= digits);
}

proof fn lemma_zeros_value(count: nat, rest: Seq<u8>, base: nat)
    ensures
        value_be(zeros(count) + rest, base) == value_be(rest, base),
    decreases rest.len(), count,
{
    let all = zeros(count) + rest;
    if rest.len() == 0 {
        assert(all =~= zeros(count));
        if count > 0 {
            assert(zeros(count).drop_last() =~= zeros((count - 1) as nat) + rest);
            lemma_zeros_value((count - 1) as nat, rest, base);
            assert(base * 0 == 0);
        }
    } else {
        assert(all.drop_last() =~= zeros(count) + rest.drop_last());
        lemma_zeros_value(count, rest.drop_last(), base);
    }
}

proof fn lemma_leading_zeros_split(digits: Seq<u8>)
    ensures
        leading_zeros(digits) <= digits.len(),
        digits =~= zeros(leading_zeros(digits)) + digits.skip(leading_zeros(digits) as int),
        trimmed_be(digits.skip(leading_zeros(digits) as int)),
    decreases digits.len(),
{
    if digits.len() != 0 && digits[0] == 0 {
        let rest = digits.drop_first();
        lemma_leading_zeros_split(rest);
        let z = leading_zeros(rest);
        assert(digits.skip(z as int + 1) =~= rest.skip(z as int));
        assert(zeros(z + 1) =~= seq![0u8] + zeros(z));
        assert(digits =~= seq![0u8] + rest);
        assert(digits =~= zeros(z + 1) + digits.skip(z as int + 1));
    } else {
        assert(digits.skip(0) =~= digits);
        assert(zeros(0) + digits =~= digits);
    }
}

proof fn lemma_leading_zeros_join(count: nat, rest: Seq<u8>)
    requires
        trimmed_be(rest),
    ensures
        leading_zeros(zeros(count) + rest) == count,
    decreases count,
{
    let all = zeros(count) + rest;
    if count > 0 {
        assert(all.drop_first() =~= zeros((count - 1) as nat) + rest);
        lemma_leading_zeros_join((count - 1) as nat, rest);
    } else {
        assert(all =~= rest);
    }
}

/// Changing the base and changing it back returns the digits.
pub proof fn lemma_transcode_round_trip(digits: Seq<u8>, from: nat, to: nat)
    requires
        2 <= from <= 256,
        2 <= to <= 256,
        all_below(digits, from),
    ensures
        all_below(spec_transcode(digits, from, to), to),
        spec_transcode(spec_transcode(digits, from, to), to, from) == digits,
{
    let z = leading_zeros(digits);
    lemma_leading_zeros_split(digits);
    let tail = digits.skip(z as int);
    let n = value_be(digits, from);
    lemma_zeros_value(z, tail, from);
    assert(n == value_be(tail, from));
    let out_tail = digits_be(n, to);
    let out = spec_transcode(digits, from, to);
    lemma_digits_be(n, to);
    lemma_leading_zeros_join(z, out_tail);
    lemma_zeros_value(z, out_tail, to);
    assert forall|i: int| 0 <= i < tail.len() implies (#[trigger] tail[i] as nat) < from by {
        assert(tail[i] == digits[i + z]);
    }
    lemma_digits_be_unique(tail, from);
    assert forall|i: int| 0 <= i < out.len() implies (#[trigger] out[i] as nat) < to by {
        if i >= z {
            assert(out[i] == out_tail[i - z]);
        }
    }
}

/// `base` to the power `exp`.
pub open spec fn pow(base: nat, exp: nat) -> nat
    decreases exp,
{
    if exp == 0 {
        1
    } else {
        base * pow(base, (exp - 1) as nat)
    }
}

/// A number between two neighbouring powers of the base has one digit more
/// than the exponent, and its first digit is its quotient by the power.
pub proof fn lemma_top_digit(n: nat, base: nat, exp: nat)
    requires
        2 <= base <= 256,
        pow(base, exp) <= n < base * pow(base, exp),
    ensures
        digits_be(n, base).len() == exp + 1,
        digits_be(n, base)[0] as nat == n / pow(base, exp),
        digits_le(n, base).len() == exp + 1,
        digits_le(n, base).last() as nat == n / pow(base, exp),
    decreases exp,
{
    let p = pow(base, exp);
    let q = n / base;
    let r = n % base;
    assert(r < base && n == base * q + r) by (nonlinear_arith)
        requires
            base >= 2,
            q == n / base,
            r == n % base,
    ;
    assert(n > 0);
    let d = digits_le(n, base);
    assert(d == seq![r as u8] + digits_le(q, base));
    if exp == 0 {
        assert(p == 1);
        assert(base * p == base) by (nonlinear_arith)
            requires
                p == 1,
        ;
        assert(q == 0) by (nonlinear_arith)
            requires
                n == base * q + r,
                n < base,
                base >= 2,
        ;
        assert(base * q == 0) by (nonlinear_arith)
            requires
                q == 0,
        ;
        assert(digits_le(q, base) =~= Seq::<u8>::empty());
        assert(d =~= seq![r as u8]);
        assert(n / 1 == n);
    } else {
        let below = pow(base, (exp - 1) as nat);
        assert(p == base * below);
        assert(below <= q && q < base * below) by (nonlinear_arith)
            requires
                n == base * q + r,
                r < base,
                base * below <= n,
                n < base * (base * below),
                base >= 2,
        ;
        lemma_top_digit(q, base, (exp - 1) as nat);
        let rest = digits_le(q, base);
        assert(d.len() == rest.len() + 1);
        assert(d.last() == rest.last());
        assert(below > 0) by {
            if below == 0 {
                assert(base * below == 0) by (nonlinear_arith)
                    requires
                        below == 0,
                ;
            }
        }
        vstd::arithmetic::div_mod::lemma_div_denominator(n as int, base as int, below as int);
        assert(q / below == n / p);
    }
    assert(d.reverse()[0] == d.last());
}

/// A number below a power of the base has no more digits than the
/// exponent, and rewriting digits adds no more than that to their number.
pub proof fn lemma_transcode_len(digits: Seq<u8>, from: nat, to: nat, exp: nat)
    requires
        2 <= from <= 256,
        2 <= to <= 256,
        value_be(digits, from) < pow(to, exp),
    ensures
        spec_transcode(digits, from, to).len() <= digits.len() + exp,
{
    lemma_leading_zeros_split(digits);
    lemma_digits_count(value_be(digits, from), to, exp);
}

proof fn lemma_digits_count(n: nat, base: nat, exp: nat)
    requires
        2 <= base <= 256,
        n < pow(base, exp),
    ensures
        digits_le(n, base).len() <= exp,
        digits_be(n, base).len() <= exp,
    decreases exp,
{
    if n != 0 {
        let q = n / base;
        let r = n % base;
        assert(n == base * q + r && r < base) by (nonlinear_arith)
            requires
                base >= 2,
                q == n / base,
                r == n % base,
        ;
        if exp == 0 {
            assert(pow(base, 0) == 1);
        } else {
            let below = pow(base, (exp - 1) as nat);
            assert(q < below) by (nonlinear_arith)
                requires
                    n == base * q + r,
                    n < base * below,
                    base >= 2,
            ;
            lemma_digits_count(q, base, (exp - 1) as nat);
            assert(digits_le(n, base) == seq![r as u8] + digits_le(q, base));
        }
    }
}

/// A value is below the power of the base that its length gives.
pub proof fn lemma_value_be_bound(digits: Seq<u8>, base: nat)
    requires
        2 <= base,
        all_below(digits, base),
    ensures
        value_be(digits, base) < pow(base, digits.len()),
    decreases digits.len(),
{
    if digits.len() > 0 {
        let rest = digits.drop_last();
        lemma_value_be_bound(rest, base);
        let v = value_be(rest, base);
        let p = pow(base, rest.len());
        let last = digits.last() as nat;
        assert(last < base);
        assert(base * v + last < base * p) by (nonlinear_arith)
            requires
                v < p,
                last < base,
        ;
    }
}

/// The first digit weighs the power of the base that the rest's length gives.
pub proof fn lemma_value_be_first(digits: Seq<u8>, base: nat)
    requires
        digits.len() > 0,
    ensures
        value_be(digits, base) == digits[0] as nat * pow(base, (digits.len() - 1) as nat)
            + value_be(digits.drop_first(), base),
    decreases digits.len(),
{
    let d0 = digits[0] as nat;
    if digits.len() == 1 {
        assert(digits.drop_last() =~= Seq::<u8>::empty());
        assert(digits.drop_first() =~= Seq::<u8>::empty());
        assert(base * 0 == 0);
        assert(d0 * 1 == d0);
    } else {
        let front = digits.drop_last();
        let tail = digits.drop_first();
        lemma_value_be_first(front, base);
        assert(front.drop_first() =~= tail.drop_last());
        assert(front[0] == digits[0]);
        assert(tail.last() == digits.last());
        let inner = value_be(front.drop_first(), base);
        let below = pow(base, (digits.len() - 2) as nat);
        let last = digits.last() as nat;
        assert(base * (d0 * below + inner) + last == d0 * (base * below) + (base * inner + last))
            by (nonlinear_arith);
    }
}

/// The two powers between which the Base58Check numbers of addresses lie.
pub proof fn lemma_powers()
    ensures
        pow(256, 24) == 6277101735386680763835789423207666416102355444464034512896nat,
        pow(58, 33) == 15599970876632771988160814054146447252125923204784443097088nat,
        pow(58, 34) == 904798310844700775313327215140493940623303545877497699631104nat,
{
    reveal_with_fuel(pow, 36);
}

/// The last `len` base-256 digits of `n`, most significant first.
pub open spec fn be_bytes(n: nat, len: nat) -> Seq<u8>
    decreases len,
{
    if len == 0 {
        Seq::empty()
    } else {
        be_bytes(n / 256, (len - 1) as nat).push((n % 256) as u8)
    }
}

/// A byte string is the digits of its value at its own length.
pub proof fn lemma_be_bytes(bytes: Seq<u8>)
    ensures
        be_bytes(be_nat(bytes), bytes.len()) == bytes,
    decreases bytes.len(),
{
    if bytes.len() > 0 {
        let rest = bytes.drop_last();
        lemma_be_bytes(rest);
        let n = be_nat(bytes);
        assert(n == 256 * be_nat(rest) + bytes.last() as nat);
        assert(n / 256 == be_nat(rest));
        assert(n % 256 == bytes.last() as nat);
        assert(be_bytes(n, bytes.len()) =~= bytes);
    } else {
        assert(be_bytes(be_nat(bytes), 0) =~= bytes);
    }
}

/// Replaces the number that `work` holds (least significant digit first)
/// by `multiplier` times that number plus `carry`.
pub fn mul_add(work: &mut Vec<u8>, base: u32, multiplier: u32, carry: u32)
    requires
        2 <= base <= 256,
        1 <= multiplier <= 256,
        carry <= multiplier,
        all_below(old(work)@, base as nat),
    ensures
        final(work)@ == mul_add_le(old(work)@, carry as nat, base as nat, multiplier as nat),
{
    let ghost before = work@;
    let ghost target = mul_add_le(before, carry as nat, base as nat, multiplier as nat);
    let mut carry = carry;
    let mut i: usize = 0;
    proof {
        assert(before.skip(0) =~= before);
        assert(work@.take(0) + target =~= target);
    }
    while i < work.len()
        invariant
            2 <= base <= 256,
            1 <= multiplier <= 256,
            carry <= multiplier,
            i <= work@.len(),
            work@.len() == before.len(),
            all_below(before, base as nat),
            forall|j: int| i <= j < work@.len() ==> work@[j] == before[j],
            target == work@.take(i as int) + mul_add_le(
                before.skip(i as int),
                carry as nat,
                base as nat,
                multiplier as nat,
            ),
        decreases work@.len() - i,
    {
        let digit = work[i] as u32;
        assert(digit == before[i as int]);
        assert(before.skip(i as int)[0] == before[i as int]);
        assert((before[i as int] as nat) < base);
        assert(digit * multiplier <= 255 * 256) by (nonlinear_arith)
            requires
                digit <= 255,
                multiplier <= 256,
        ;
        let acc = digit * multiplier + carry;
        let ghost old_work = work@;
        let q = acc / base;
        let r = acc % base;
        assert(q <= multiplier) by (nonlinear_arith)
            requires
                acc == digit * multiplier + carry,
                digit < base,
                carry <= multiplier,
                q == acc / base,
                base >= 2,
        ;
        work.set(i, r as u8);
        proof {
            assert(before.skip(i as int).drop_first() =~= before.skip(i + 1));
            assert(work@.take(i + 1) =~= old_work.take(i as int).push(r as u8));
            assert(target =~= work@.take(i + 1) + mul_add_le(
                before.skip(i + 1),
                q as nat,
                base as nat,
                multiplier as nat,
            ));
        }
        carry = q;
        i += 1;
    }
    let ghost head = work@;
    proof {
        assert(work@.take(i as int) =~= work@);
        assert(before.skip(i as int) =~= Seq::<u8>::empty());
    }
    while carry > 0
        invariant
            2 <= base <= 256,
            target == work@ + digits_le(carry as nat, base as nat),
        decreases carry,
    {
        let r = carry % base;
        let ghost old_work = work@;
        work.push(r as u8);
        proof {
            assert(digits_le(carry as nat, base as nat) == seq![r as u8] + digits_le(
                (carry / base) as nat,
                base as nat,
            ));
            assert(target =~= work@ + digits_le((carry / base) as nat, base as nat));
        }
        carry = carry / base;
    }
    proof {
        assert(digits_le(0, base as nat) =~= Seq::<u8>::empty());
        assert(work@ + Seq::<u8>::empty() =~= work@);
    }
}

/// The digits of `input` (base `from`, most significant first) in base `to`,
/// leading zero digits kept one for one.
pub fn transcode(input: &[u8], from: u32, to: u32) -> (output: Vec<u8>)
    requires
        2 <= from <= 256,
        2 <= to <= 256,
        all_below(input@, from as nat),
    ensures
        output@ == spec_transcode(input@, from as nat, to as nat),
{
    let mut work: Vec<u8> = Vec::new();
    let mut i: usize = 0;
    while i < input.len()
        invariant
            2 <= from <= 256,
            2 <= to <= 256,
            all_below(input@, from as nat),
            i <= input.len(),
            all_below(work@, to as nat),
            trimmed_le(work@),
            value_le(work@, to as nat) == value_be(input@.take(i as int), from as nat),
        decreases input.len() - i,
    {
        let digit = input[i] as u32;
        assert((input@[i as int] as nat) < from);
        proof {
            lemma_mul_add_le(work@, digit as nat, to as nat, from as nat);
            assert(input@.take(i + 1).drop_last() =~= input@.take(i as int));
        }
        mul_add(&mut work, to, from, digit);
        i += 1;
    }
    let mut zero_count: usize = 0;
    proof {
        assert(input@.skip(0) =~= input@);
    }
    while zero_count < input.len() && input[zero_count] == 0
        invariant
            zero_count <= input.len(),
            leading_zeros(input@) == zero_count + leading_zeros(input@.skip(zero_count as int)),
        decreases input.len() - zero_count,
    {
        proof {
            assert(input@.skip(zero_count as int).drop_first() =~= input@.skip(zero_count + 1));
        }
        zero_count += 1;
    }
    let mut output: Vec<u8> = Vec::new();
    let mut k: usize = 0;
    while k < zero_count
        invariant
            k <= zero_count,
            output@ == zeros(k as nat),
        decreases zero_count - k,
    {
        output.push(0);
        k += 1;
        assert(output@ =~= zeros(k as nat));
    }
    let ghost head = output@;
    let ghost le = work@;
    proof {
        assert(input@.take(input@.len() as int) =~= input@);
        lemma_digits_le_unique(work@, to as nat);
    }
    let mut j: usize = work.len();
    while j > 0
        invariant
            j <= work.len(),
            work@ == le,
            output@ == head + le.reverse().take(le.len() - j),
        decreases j,
    {
        j -= 1;
        output.push(work[j]);
        assert(output@ =~= head + le.reverse().take(le.len() - j));
    }
    proof {
        assert(le.reverse().take(le.len() as int) =~= le.reverse());
    }
    output
}

} // verus!
