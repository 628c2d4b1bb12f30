//! Numbers, bytes and their order.

use crate::bytes::{le, lemma_le_len, lex_lt, pow256};
use crate::crypto::{joined, low_i64};
use crate::rpc::{id_in, signature_in};
use crate::text::{decimal, hex_text, hex_value, is_hex, law_hex_read_back, unhex};
use crate::wire::i64_bits;
use vstd::prelude::*;

verus! {

// ── Decimal ──

/// The number that decimal digits spell, the most significant first.
pub open spec fn undecimal(t: Seq<char>) -> int
    decreases t.len(),
{
    if t.len() == 0 {
        0
    } else {
        10 * undecimal(t.drop_last()) + (t.last() as int - '0' as int)
    }
}

/// A number in digits is read back, has digits only, and no zero in front unless it
/// is zero.
pub proof fn law_decimal_read_back(n: nat)
    ensures
        undecimal(decimal(n)) == n,
        decimal(n).len() > 0,
        forall|i: int| 0 <= i < decimal(n).len() ==> '0' <= #[trigger] decimal(n)[i] <= '9',
        n > 0 ==> decimal(n)[0] != '0',
        n == 0 ==> decimal(n).len() == 1,
    decreases n,
{
    reveal_with_fuel(undecimal, 2);
    if n < 10 {
        assert(decimal(n).drop_last() =~= Seq::<char>::empty());
    } else {
        law_decimal_read_back(n / 10);
        assert(decimal(n).drop_last() =~= decimal(n / 10));
    }
}

// ── Cut to 64 bits ──

/// Cut to 64 bits a number differs by a multiple of two to the 64th, and a number
/// that fits stays as it is.
pub proof fn law_low_bits(n: int)
    ensures
        i64::MIN <= low_i64(n) <= i64::MAX,
        (n - low_i64(n)) % 0x1_0000_0000_0000_0000 == 0,
        i64::MIN <= n <= i64::MAX ==> low_i64(n) == n,
{
}

/// The bits of a signed number are those of a number without sign that differs by
/// nothing or by two to the 64th.
pub proof fn law_signed_bits(v: i64)
    ensures
        0 <= i64_bits(v) < 0x1_0000_0000_0000_0000,
        low_i64(i64_bits(v)) == v,
{
}

// ── Bytes of a number ──

/// Byte `i` of a number, least significant first, is what is left of it by 256 when
/// it has been divided by 256 that often.
pub proof fn law_byte_of(n: int, width: nat, i: nat)
    requires
        n >= 0,
        i < width,
    ensures
        le(n, width).len() == width,
        le(n, width)[i as int] == n / (pow256(i) as int) % 256,
    decreases width,
{
    lemma_le_len(n, width);
    lemma_le_len(n / 256, (width - 1) as nat);
    if i > 0 {
        let j = (i - 1) as nat;
        law_byte_of(n / 256, (width - 1) as nat, j);
        assert(le(n, width)[i as int] == le(n / 256, (width - 1) as nat)[j as int]);
        lemma_pow_positive(j);
        vstd::arithmetic::div_mod::lemma_div_denominator(n, 256, pow256(j) as int);
    } else {
        assert(n / 1 == n);
    }
}

proof fn lemma_pow_positive(width: nat)
    ensures
        pow256(width) > 0,
    decreases width,
{
    if width > 0 {
        lemma_pow_positive((width - 1) as nat);
    }
}

// ── Order ──

/// Byte strings are in the order of the first bytes in which they differ, and what
/// leads another comes before it.
pub proof fn law_lexicographic(a: Seq<u8>, b: Seq<u8>, i: int)
    requires
        0 <= i <= a.len(),
        i <= b.len(),
        a.take(i) == b.take(i),
    ensures
        i < a.len() && i < b.len() && a[i] != b[i] ==> (lex_lt(a, b) <==> a[i] < b[i]),
        i == a.len() ==> (lex_lt(a, b) <==> a.len() < b.len()),
    decreases i,
{
    if i > 0 {
        assert(a[0] == a.take(i)[0] && b[0] == b.take(i)[0]);
        assert(a.drop_first().take(i - 1) =~= a.take(i).drop_first());
        assert(b.drop_first().take(i - 1) =~= b.take(i).drop_first());
        law_lexicographic(a.drop_first(), b.drop_first(), i - 1);
    }
}

// ── Joined ──

/// What is joined are the chunks in their order, with nothing between.
pub proof fn law_joined(a: Seq<&[u8]>, b: Seq<&[u8]>, c: &[u8])
    ensures
        joined(Seq::empty()) == Seq::<u8>::empty(),
        joined(seq![c]) == c@,
        joined(a + b) == joined(a) + joined(b),
    decreases b.len(),
{
    assert(seq![c].drop_last() =~= Seq::<&[u8]>::empty());
    reveal_with_fuel(joined, 2);
    assert(joined(seq![c]) =~= c@);
    if b.len() == 0 {
        assert(a + b =~= a);
        assert(joined(a) + joined(b) =~= joined(a));
    } else {
        law_joined(a, b.drop_last(), c);
        assert((a + b).drop_last() =~= a + b.drop_last());
        assert((a + b).last() == b.last());
        assert(joined(a + b) =~= joined(a) + joined(b));
    }
}

// ── Ids in text ──

/// A text is taken for an id just where it has 64 hexadecimal digits, and for a
/// signature just where it has 128.
pub proof fn law_ids_in_text(text: Seq<char>)
    ensures
        id_in(text) is Some <==> text.len() == 64 && forall|i: int| 0 <= i < 64 ==> hex_value(#[trigger] text[i]) is Some,
        signature_in(text) is Some <==> text.len() == 128 && forall|i: int| 0 <= i < 128 ==> hex_value(#[trigger] text[i]) is Some,
        id_in(text) matches Some(bytes) ==> unhex(text) == Some(bytes),
        signature_in(text) matches Some(bytes) ==> unhex(text) == Some(bytes),
{
    if text.len() == 64 || text.len() == 128 {
        assert(is_hex(text) <==> forall|i: int| 0 <= i < text.len() ==> hex_value(#[trigger] text[i]) is Some);
    }
}

/// An id and a signature that are written out are read back.
pub proof fn law_ids_read_back(id: Seq<u8>, signature: Seq<u8>)
    requires
        id.len() == 32,
        signature.len() == 64,
    ensures
        id_in(hex_text(id)) == Some(id),
        signature_in(hex_text(signature)) == Some(signature),
{
    law_hex_read_back(id);
    law_hex_read_back(signature);
}

} // verus!
