//! Whole numbers as bytes.
use vstd::arithmetic::div_mod::lemma_div_denominator;
use vstd::arithmetic::power::{lemma_pow_positive, pow};
use vstd::prelude::*;

verus! {

/// The last `width` base-256 digits of `n`, lowest first.
pub open spec fn le_bytes(n: nat, width: nat) -> Seq<u8>
    decreases width,
{
    if width == 0 {
        Seq::empty()
    } else {
        seq![(n % 256) as u8] + le_bytes(n / 256, (width - 1) as nat)
    }
}

/// The last `width` base-256 digits of `n`, highest first.
pub open spec fn be_bytes(n: nat, width: nat) -> Seq<u8>
    decreases width,
{
    if width == 0 {
        Seq::empty()
    } else {
        be_bytes(n / 256, (width - 1) as nat).push((n % 256) as u8)
    }
}

/// The number whose base-256 digits, highest first, are `digits`.
pub open spec fn be_value(digits: Seq<u8>) -> nat
    decreases digits.len(),
{
    if digits.len() == 0 {
        0
    } else {
        be_value(digits.drop_last()) * 256 + digits.last() as nat
    }
}

/// How many numbers `width` base-256 digits can tell apart.
pub open spec fn span(width: nat) -> nat
    decreases width,
{
    if width == 0 {
        1
    } else {
        256 * span((width - 1) as nat)
    }
}

/// `width` digits come out, whichever end is first.
pub proof fn lemma_width(n: nat, width: nat)
    ensures
        le_bytes(n, width).len() == width,
        be_bytes(n, width).len() == width,
    decreases width,
{
    if width > 0 {
        lemma_width(n / 256, (width - 1) as nat);
    }
}

/// Reading back the digits of a number, highest first, gives the number, where the digits
/// were enough to hold it.
pub proof fn law_be_value_of_be_bytes(n: nat, width: nat)
    requires
        n < span(width),
    ensures
        be_value(be_bytes(n, width)) == n,
    decreases width,
{
    if width > 0 {
        law_be_value_of_be_bytes(n / 256, (width - 1) as nat);
        assert(be_bytes(n, width).drop_last() =~= be_bytes(n / 256, (width - 1) as nat));
    }
}

/// Different digits, of which there are as many, stand for different numbers.
pub proof fn law_digits_decide(a: Seq<u8>, b: Seq<u8>)
    requires
        a.len() == b.len(),
        be_value(a) == be_value(b),
    ensures
        a == b,
    decreases a.len(),
{
    if a.len() > 0 {
        law_digits_decide(a.drop_last(), b.drop_last());
        assert(a =~= a.drop_last().push(a.last()));
        assert(b =~= b.drop_last().push(b.last()));
    }
}

/// The two orders are each other's mirror image.
pub proof fn law_le_is_be_reversed(n: nat, width: nat)
    ensures
        le_bytes(n, width) == be_bytes(n, width).reverse(),
    decreases width,
{
    lemma_width(n, width);
    if width > 0 {
        let w = (width - 1) as nat;
        law_le_is_be_reversed(n / 256, w);
        lemma_width(n / 256, w);
    }
    assert(le_bytes(n, width) =~= be_bytes(n, width).reverse());
}

/// The last `width` bytes of `n`, lowest first.
pub fn to_le_bytes(n: u64, width: usize) -> (out: Vec<u8>)
    ensures
        out@ == le_bytes(n as nat, width as nat),
{
    let mut out: Vec<u8> = Vec::new();
    let mut rest: u64 = n;
    let mut left: usize = width;
    while left > 0
        invariant
            out@ + le_bytes(rest as nat, left as nat) == le_bytes(n as nat, width as nat),
        decreases left,
    {
        let ghost before = out@;
        out.push((rest % 256) as u8);
        assert(before + le_bytes(rest as nat, left as nat) =~= out@ + le_bytes(
            (rest / 256) as nat,
            (left - 1) as nat,
        ));
        rest = rest / 256;
        left = left - 1;
    }
    out
}

/// The last `width` bytes of `n`, highest first.
pub fn to_be_bytes(n: u64, width: usize) -> (out: Vec<u8>)
    ensures
        out@ == be_bytes(n as nat, width as nat),
    decreases width,
{
    if width == 0 {
        Vec::new()
    } else {
        let mut out = to_be_bytes(n / 256, width - 1);
        out.push((n % 256) as u8);
        out
    }
}

/// Byte `i` from the low end of a number is what is left of it, below 256, once it has been divided
/// by 256 `i` times: `le_bytes` has it at place `i`.
pub proof fn law_le_digit(n: nat, width: nat, i: int)
    requires
        0 <= i < width,
    ensures
        le_bytes(n, width).len() == width,
        le_bytes(n, width)[i] as int == n as int / pow(256, i as nat) % 256,
    decreases width,
{
    reveal(pow);
    lemma_width(n, width);
    if i > 0 {
        law_le_digit(n / 256, (width - 1) as nat, i - 1);
        lemma_pow_positive(256, (i - 1) as nat);
        lemma_div_denominator(n as int, 256, pow(256, (i - 1) as nat));
    }
}

/// Byte `i` from the low end of a number stands `i` places before the last in `be_bytes`.
pub proof fn law_be_digit(n: nat, width: nat, i: int)
    requires
        0 <= i < width,
    ensures
        be_bytes(n, width).len() == width,
        be_bytes(n, width)[width - 1 - i] as int == n as int / pow(256, i as nat) % 256,
    decreases width,
{
    reveal(pow);
    lemma_width(n, width);
    lemma_width(n / 256, (width - 1) as nat);
    if i > 0 {
        law_be_digit(n / 256, (width - 1) as nat, i - 1);
        lemma_pow_positive(256, (i - 1) as nat);
        lemma_div_denominator(n as int, 256, pow(256, (i - 1) as nat));
    }
}

} // verus!
