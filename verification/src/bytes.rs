//! Byte sequences: fixed-width integers, prefixes and the lexicographic order.

use vstd::prelude::*;

verus! {

/// 256 to the power `width`: how many values `width` bytes can hold.
pub open spec fn pow256(width: nat) -> nat
    decreases width,
{
    if width == 0 {
        1
    } else {
        256 * pow256((width - 1) as nat)
    }
}

/// The `width` low bytes of `n`, least significant first.
pub open spec fn le(n: int, width: nat) -> Seq<u8>
    decreases width,
{
    if width == 0 {
        Seq::empty()
    } else {
        seq![(n % 256) as u8] + le(n / 256, (width - 1) as nat)
    }
}

/// The number that `s` spells, least significant byte first.
pub open spec fn un_le(s: Seq<u8>) -> int
    decreases s.len(),
{
    if s.len() == 0 {
        0
    } else {
        s[0] + 256 * un_le(s.drop_first())
    }
}

/// The `width` low bytes of `n`, most significant first.
pub open spec fn be(n: int, width: nat) -> Seq<u8> {
    le(n, width).reverse()
}

/// The number that `s` spells, most significant byte first.
pub open spec fn un_be(s: Seq<u8>) -> int {
    un_le(s.reverse())
}

pub proof fn lemma_pow256_values()
    ensures
        pow256(2) == 0x1_0000,
        pow256(4) == 0x1_0000_0000,
        pow256(8) == 0x1_0000_0000_0000_0000,
{
    reveal_with_fuel(pow256, 9);
}

pub proof fn lemma_le_len(n: int, width: nat)
    ensures
        le(n, width).len() == width,
    decreases width,
{
    if width > 0 {
        lemma_le_len(n / 256, (width - 1) as nat);
    }
}

/// Reading back the bytes of a number that fits gives the number.
pub proof fn lemma_le_round_trip(n: int, width: nat)
    requires
        0 <= n < pow256(width),
    ensures
        le(n, width).len() == width,
        un_le(le(n, width)) == n,
    decreases width,
{
    if width > 0 {
        let rest = le(n / 256, (width - 1) as nat);
        lemma_le_round_trip(n / 256, (width - 1) as nat);
        assert(le(n, width).drop_first() =~= rest);
    }
}

/// Any bytes are the bytes of the number that they spell.
pub proof fn lemma_un_le_round_trip(s: Seq<u8>)
    ensures
        0 <= un_le(s) < pow256(s.len()),
        le(un_le(s), s.len()) == s,
    decreases s.len(),
{
    if s.len() > 0 {
        let rest = s.drop_first();
        lemma_un_le_round_trip(rest);
        assert(un_le(s) % 256 == s[0] && un_le(s) / 256 == un_le(rest));
        assert(le(un_le(s), s.len()) =~= s);
    } else {
        assert(le(0, 0) =~= s);
    }
}

pub proof fn lemma_be_round_trip(n: int, width: nat)
    requires
        0 <= n < pow256(width),
    ensures
        be(n, width).len() == width,
        un_be(be(n, width)) == n,
{
    lemma_le_round_trip(n, width);
    assert(le(n, width).reverse().reverse() =~= le(n, width));
}

pub proof fn lemma_un_be_round_trip(s: Seq<u8>)
    ensures
        0 <= un_be(s) < pow256(s.len()),
        be(un_be(s), s.len()) == s,
{
    lemma_un_le_round_trip(s.reverse());
    assert(s.reverse().reverse() =~= s);
}

/// Two prefixes of one sequence that are equally long are equal.
pub proof fn lemma_prefixes_agree(a: Seq<u8>, b: Seq<u8>, s: Seq<u8>)
    requires
        a.is_prefix_of(s),
        b.is_prefix_of(s),
        a.len() == b.len(),
    ensures
        a == b,
{
    assert(a =~= s.subrange(0, a.len() as int));
    assert(b =~= s.subrange(0, b.len() as int));
}

/// `a + b` leads `s` exactly when `a` leads it and `b` leads what follows.
pub proof fn lemma_prefix_split(a: Seq<u8>, b: Seq<u8>, s: Seq<u8>)
    ensures
        (a + b).is_prefix_of(s) <==> (a.is_prefix_of(s) && b.is_prefix_of(s.skip(a.len() as int))),
{
    if (a + b).is_prefix_of(s) {
        assert(a + b =~= s.subrange(0, (a + b).len() as int));
        assert(a =~= s.subrange(0, a.len() as int)) by {
            assert forall|i: int| 0 <= i < a.len() implies a[i] == s[i] by {
                assert(a[i] == (a + b)[i]);
            }
        }
        assert(b =~= s.skip(a.len() as int).subrange(0, b.len() as int)) by {
            assert forall|i: int| 0 <= i < b.len() implies b[i] == s[a.len() + i] by {
                assert(b[i] == (a + b)[a.len() + i]);
            }
        }
    }
    if a.is_prefix_of(s) && b.is_prefix_of(s.skip(a.len() as int)) {
        assert(a + b =~= s.subrange(0, (a + b).len() as int)) by {
            assert(a =~= s.subrange(0, a.len() as int));
            assert(b =~= s.skip(a.len() as int).subrange(0, b.len() as int));
        }
    }
}

/// Append the bytes of `src` to `out`.
pub fn append(out: &mut Vec<u8>, src: &[u8])
    ensures
        final(out)@ == old(out)@ + src@,
{
    let ghost before = out@;
    out.extend_from_slice(src);
    assert(out@ =~= before + src@);
}

/// Are the two byte strings equal?
pub fn same_bytes(a: &[u8], b: &[u8]) -> (r: bool)
    ensures
        r == (a@ == b@),
{
    if a.len() != b.len() {
        return false;
    }
    let n: usize = a.len();
    let mut i: usize = 0;
    while i < n
        invariant
            n == a@.len(),
            n == b@.len(),
            i <= n,
            forall|j: int| 0 <= j < i ==> a@[j] == b@[j],
        decreases n - i,
    {
        if a[i] != b[i] {
            return false;
        }
        i += 1;
    }
    assert(a@ =~= b@);
    true
}

/// Are the two 32-byte values equal?
pub fn same_id(a: &[u8; 32], b: &[u8; 32]) -> (r: bool)
    ensures
        r == (*a == *b),
{
    let r = same_bytes(a.as_slice(), b.as_slice());
    proof {
        if a@ == b@ {
            assert forall|i: int| 0 <= i < 32 implies a[i] == b[i] by {
                assert(a@[i] == b@[i]);
            }
            assert(*a =~= *b);
        }
    }
    r
}

/// Is the id among these?
pub fn contains_id(ids: &Vec<[u8; 32]>, id: &[u8; 32]) -> (r: bool)
    ensures
        r == ids@.contains(*id),
{
    let n: usize = ids.len();
    let mut i: usize = 0;
    while i < n
        invariant
            n == ids@.len(),
            i <= n,
            forall|j: int| 0 <= j < i ==> ids@[j] != *id,
        decreases n - i,
    {
        if same_id(&ids[i], id) {
            assert(ids@[i as int] == *id);
            return true;
        }
        i += 1;
    }
    false
}

/// Arrays with the same bytes are the same array.
pub proof fn lemma_array_of_view<const N: usize>(a: [u8; N], b: [u8; N])
    requires
        a@ == b@,
    ensures
        a == b,
{
    assert forall|i: int| 0 <= i < N implies a[i] == b[i] by {
        assert(a@[i] == b@[i]);
    }
    assert(a =~= b);
}

/// The `N` low bytes of `n`, most significant first.
pub fn to_be<const N: usize>(n: u64) -> (r: [u8; N])
    ensures
        r@ == be(n as int, N as nat),
{
    let mut r: [u8; N] = [0u8; N];
    let mut rest: u64 = n;
    let mut i: usize = 0;
    assert(r@.subrange(N as int, N as int).reverse() =~= Seq::<u8>::empty());
    while i < N
        invariant
            i <= N,
            le(n as int, N as nat) =~= r@.subrange(N - i as int, N as int).reverse() + le(rest as int, (N - i) as nat),
        decreases N - i,
    {
        let ghost before = r@;
        let low: u8 = (rest % 256) as u8;
        let at: usize = N - 1 - i;
        r[at] = low;
        proof {
            assert(r@ =~= before.update(at as int, low));
            assert(r@.subrange(at as int, N as int).reverse() =~= before.subrange(N - i as int, N as int).reverse() + seq![low]);
            assert(le(rest as int, (N - i) as nat) == seq![(rest % 256) as u8] + le(rest as int / 256, (N - 1 - i) as nat));
        }
        rest = rest / 256;
        i += 1;
    }
    proof {
        assert(r@.subrange(0, N as int) =~= r@);
        assert(le(n as int, N as nat) =~= r@.reverse());
        assert(r@.reverse().reverse() =~= r@);
    }
    r
}

/// The number that at most eight bytes spell, most significant first.
pub fn from_be(s: &[u8]) -> (n: u64)
    requires
        s@.len() <= 8,
    ensures
        n as int == un_be(s@),
        (n as int) < pow256(s@.len()),
        be(n as int, s@.len()) == s@,
{
    let mut n: u64 = 0;
    let mut i: usize = 0;
    let len: usize = s.len();
    while i < len
        invariant
            i <= len <= 8,
            s@.len() == len,
            n as int == un_le(s@.subrange(0, i as int).reverse()),
            (n as int) < pow256(i as nat),
        decreases len - i,
    {
        proof {
            let t = s@.subrange(0, i as int).reverse();
            let u = s@.subrange(0, i + 1).reverse();
            assert(u.drop_first() =~= t);
            assert(u[0] == s@[i as int]);
            reveal_with_fuel(pow256, 9);
        }
        n = n * 256 + s[i] as u64;
        i += 1;
    }
    proof {
        assert(s@.subrange(0, len as int) =~= s@);
        lemma_un_be_round_trip(s@);
    }
    n
}

// ── Lexicographic order ──

/// Does `a` come before `b`, byte by byte, a prefix before what it leads?
pub open spec fn lex_lt(a: Seq<u8>, b: Seq<u8>) -> bool
    decreases a.len(),
{
    if b.len() == 0 {
        false
    } else if a.len() == 0 {
        true
    } else if a[0] != b[0] {
        a[0] < b[0]
    } else {
        lex_lt(a.drop_first(), b.drop_first())
    }
}

pub proof fn lemma_lex_irreflexive(a: Seq<u8>)
    ensures
        !lex_lt(a, a),
    decreases a.len(),
{
    if a.len() > 0 {
        lemma_lex_irreflexive(a.drop_first());
    }
}

pub proof fn lemma_lex_transitive(a: Seq<u8>, b: Seq<u8>, c: Seq<u8>)
    requires
        lex_lt(a, b),
        lex_lt(b, c),
    ensures
        lex_lt(a, c),
    decreases a.len(),
{
    if a.len() > 0 && a[0] == b[0] && b[0] == c[0] {
        lemma_lex_transitive(a.drop_first(), b.drop_first(), c.drop_first());
    }
}

pub proof fn lemma_lex_total(a: Seq<u8>, b: Seq<u8>)
    ensures
        lex_lt(a, b) || a == b || lex_lt(b, a),
    decreases a.len(),
{
    if a.len() > 0 && b.len() > 0 && a[0] == b[0] {
        lemma_lex_total(a.drop_first(), b.drop_first());
        if a.drop_first() == b.drop_first() {
            assert(a =~= seq![a[0]] + a.drop_first());
            assert(b =~= seq![b[0]] + b.drop_first());
        }
    } else if a.len() == 0 && b.len() == 0 {
        assert(a =~= b);
    }
}

/// The order is settled where the first difference is.
proof fn lemma_lex_from(a: Seq<u8>, b: Seq<u8>, i: int)
    requires
        0 <= i <= a.len(),
        i <= b.len(),
        forall|j: int| 0 <= j < i ==> a[j] == b[j],
    ensures
        lex_lt(a, b) == lex_lt(a.skip(i), b.skip(i)),
    decreases i,
{
    if i == 0 {
        assert(a.skip(0) =~= a);
        assert(b.skip(0) =~= b);
    } else {
        assert(a[0] == b[0]);
        lemma_lex_from(a.drop_first(), b.drop_first(), i - 1);
        assert(a.drop_first().skip(i - 1) =~= a.skip(i));
        assert(b.drop_first().skip(i - 1) =~= b.skip(i));
    }
}

/// What comes between two sequences with a common prefix has it too.
pub proof fn lemma_lex_between(p: Seq<u8>, a: Seq<u8>, b: Seq<u8>, c: Seq<u8>)
    requires
        p.is_prefix_of(a),
        p.is_prefix_of(c),
        lex_lt(a, b),
        lex_lt(b, c),
    ensures
        p.is_prefix_of(b),
    decreases p.len(),
{
    if p.len() > 0 {
        assert(a[0] == p[0] && c[0] == p[0]);
        assert(b.len() > 0 && b[0] == p[0]);
        lemma_prefix_split(seq![p[0]], p.drop_first(), a);
        lemma_prefix_split(seq![p[0]], p.drop_first(), b);
        lemma_prefix_split(seq![p[0]], p.drop_first(), c);
        assert(p =~= seq![p[0]] + p.drop_first());
        assert(a.skip(1) =~= a.drop_first());
        assert(b.skip(1) =~= b.drop_first());
        assert(c.skip(1) =~= c.drop_first());
        lemma_lex_between(p.drop_first(), a.drop_first(), b.drop_first(), c.drop_first());
        assert(seq![p[0]].is_prefix_of(b)) by {
            assert(b.subrange(0, 1) =~= seq![p[0]]);
        }
    } else {
        assert(p =~= b.subrange(0, 0));
    }
}

/// Which of two byte strings comes first.
#[derive(Debug, Clone, Copy, PartialEq, Eq, Structural)]
pub enum Order {
    Before,
    Same,
    After,
}

/// Compare two byte strings.
pub fn lex_order(a: &[u8], b: &[u8]) -> (r: Order)
    ensures
        match r {
            Order::Before => lex_lt(a@, b@),
            Order::Same => a@ == b@,
            Order::After => lex_lt(b@, a@),
        },
{
    let mut i: usize = 0;
    while i < a.len() && i < b.len()
        invariant
            i <= a@.len(),
            i <= b@.len(),
            forall|j: int| 0 <= j < i ==> a@[j] == b@[j],
        decreases a@.len() - i,
    {
        if a[i] != b[i] {
            proof {
                lemma_lex_from(a@, b@, i as int);
                lemma_lex_from(b@, a@, i as int);
                assert(a@.skip(i as int)[0] == a@[i as int] && b@.skip(i as int)[0] == b@[i as int]);
            }
            return if a[i] < b[i] {
                Order::Before
            } else {
                Order::After
            };
        }
        i += 1;
    }
    proof {
        lemma_lex_from(a@, b@, i as int);
        lemma_lex_from(b@, a@, i as int);
    }
    if i < b.len() {
        Order::Before
    } else if i < a.len() {
        Order::After
    } else {
        assert(a@ =~= b@);
        Order::Same
    }
}

/// Does `b` start with `p`?
pub fn starts_with(b: &[u8], p: &[u8]) -> (r: bool)
    ensures
        r == p@.is_prefix_of(b@),
{
    if b.len() < p.len() {
        return false;
    }
    let mut i: usize = 0;
    while i < p.len()
        invariant
            i <= p@.len() <= b@.len(),
            forall|j: int| 0 <= j < i ==> p@[j] == b@[j],
        decreases p@.len() - i,
    {
        if p[i] != b[i] {
            proof {
                if p@.is_prefix_of(b@) {
                    assert(p@[i as int] == b@.subrange(0, p@.len() as int)[i as int]);
                }
            }
            return false;
        }
        i += 1;
    }
    assert(p@ =~= b@.subrange(0, p@.len() as int));
    true
}

} // verus!
