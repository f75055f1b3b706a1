//! Byte-level helpers shared by the instruction parser, the code generator
//! and the assembly renderer: ASCII whitespace tests, prefix and equality
//! checks on byte slices, and decimal rendering/parsing of counters and
//! segment indices.
use vstd::prelude::*;

verus! {

/// ASCII whitespace, as the parser understands it: space, tab, carriage
/// return and line feed.
pub open spec fn is_ws(b: u8) -> bool {
    b == 32 || b == 9 || b == 13 || b == 10
}

/// Executable mirror of [`is_ws`].
pub fn ws_byte(b: u8) -> (r: bool)
    ensures
        r == is_ws(b),
{
    b == 32 || b == 9 || b == 13 || b == 10
}

/// ASCII decimal digit.
pub open spec fn is_digit(b: u8) -> bool {
    48 <= b <= 57
}

/// `p` is a prefix of `s`.
pub open spec fn has_prefix(s: Seq<u8>, p: Seq<u8>) -> bool {
    p.len() <= s.len() && forall|i: int| 0 <= i < p.len() ==> s[i] == p[i]
}

/// Byte-for-byte equality of two slices.
pub fn eq_bytes(a: &[u8], b: &[u8]) -> (r: bool)
    ensures
        r <==> a@ == b@,
{
    if a.len() != b.len() {
        proof {
            assert(a@.len() != b@.len());
        }
        return false;
    }
    let n = a.len();
    let mut i: usize = 0;
    while i < n
        invariant
            0 <= i <= n,
            n == a@.len() == b@.len(),
            forall|j: int| 0 <= j < i ==> a@[j] == b@[j],
        decreases n - i,
    {
        if a[i] != b[i] {
            return false;
        }
        i = i + 1;
    }
    proof {
        assert(a@ =~= b@);
    }
    true
}

/// Does `s` start with `p`?
pub fn starts_with(s: &[u8], p: &[u8]) -> (r: bool)
    ensures
        r <==> has_prefix(s@, p@),
{
    if p.len() > s.len() {
        return false;
    }
    let n = p.len();
    let mut i: usize = 0;
    while i < n
        invariant
            0 <= i <= n,
            n == p@.len() <= s@.len(),
            forall|j: int| 0 <= j < i ==> s@[j] == p@[j],
        decreases n - i,
    {
        if s[i] != p[i] {
            return false;
        }
        i = i + 1;
    }
    true
}

/// Append the bytes of `src` to `out`.
pub fn extend_bytes(out: &mut Vec<u8>, src: &[u8])
    ensures
        final(out)@ == old(out)@ + src@,
{
    let n = src.len();
    let mut i: usize = 0;
    while i < n
        invariant
            0 <= i <= n,
            n == src@.len(),
            out@ == old(out)@ + src@.take(i as int),
        decreases n - i,
    {
        out.push(src[i]);
        proof {
            assert(out@ =~= old(out)@ + src@.take(i + 1));
        }
        i = i + 1;
    }
    proof {
        assert(src@.take(n as int) =~= src@);
    }
}

/// The decimal numeral of `n`, most significant digit first.
pub open spec fn dec_text(n: nat) -> Seq<u8>
    decreases n,
{
    if n < 10 {
        seq![(48 + n) as u8]
    } else {
        dec_text(n / 10).push((48 + n % 10) as u8)
    }
}

/// The numeric value of a digit string, read left to right.
pub open spec fn dec_val(s: Seq<u8>) -> nat
    decreases s.len(),
{
    if s.len() == 0 {
        0
    } else {
        dec_val(s.drop_last()) * 10 + (if is_digit(s.last()) {
            (s.last() - 48) as nat
        } else {
            0
        })
    }
}

/// Every byte of a decimal numeral is a digit, and the numeral is nonempty.
pub proof fn lemma_dec_text_digits(n: nat)
    ensures
        dec_text(n).len() >= 1,
        forall|i: int| 0 <= i < dec_text(n).len() ==> is_digit(#[trigger] dec_text(n)[i]),
    decreases n,
{
    if n >= 10 {
        lemma_dec_text_digits(n / 10);
    }
}

/// Reading a numeral back yields the number it was rendered from.
pub proof fn lemma_dec_text_val(n: nat)
    ensures
        dec_val(dec_text(n)) == n,
    decreases n,
{
    if n < 10 {
        let t = dec_text(n);
        assert(t =~= seq![(48 + n) as u8]);
        assert(t.drop_last() =~= Seq::<u8>::empty());
        assert(dec_val(t) == dec_val(t.drop_last()) * 10 + (t.last() - 48));
        assert(dec_val(t.drop_last()) == 0);
    } else {
        lemma_dec_text_val(n / 10);
        let t = dec_text(n);
        assert(t == dec_text(n / 10).push((48 + n % 10) as u8));
        assert(t.drop_last() =~= dec_text(n / 10));
        assert(t.last() == (48 + n % 10) as u8);
        assert(dec_val(t) == dec_val(t.drop_last()) * 10 + (t.last() - 48));
        assert(n / 10 * 10 + n % 10 == n) by (nonlinear_arith);
    }
}

/// Distinct numbers have distinct numerals.
pub proof fn lemma_dec_text_injective(m: nat, n: nat)
    requires
        m != n,
    ensures
        dec_text(m) != dec_text(n),
{
    if dec_text(m) == dec_text(n) {
        lemma_dec_text_val(m);
        lemma_dec_text_val(n);
    }
}

/// Render `n` in decimal onto the end of `out`.
pub fn push_dec(out: &mut Vec<u8>, n: u64)
    ensures
        final(out)@ == old(out)@ + dec_text(n as nat),
    decreases n,
{
    if n < 10 {
        out.push(48 + n as u8);
        proof {
            assert(out@ =~= old(out)@ + dec_text(n as nat));
        }
    } else {
        push_dec(out, n / 10);
        out.push(48 + (n % 10) as u8);
        proof {
            assert(out@ =~= old(out)@ + dec_text(n as nat));
        }
    }
}

} // verus!
