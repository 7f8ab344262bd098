//! Little-endian encoding of unsigned integers, as a mathematical model and
//! as executable code.
use vstd::arithmetic::div_mod::lemma_div_denominator;
use vstd::prelude::*;

verus! {

/// 256 raised to the power `n`.
pub open spec fn pow256(n: nat) -> nat
    decreases n,
{
    if n == 0 {
        1
    } else {
        256 * pow256((n - 1) as nat)
    }
}

/// The `n` little-endian bytes of `v`: byte `i` is `(v / 256^i) % 256`.
pub open spec fn le_bytes(v: nat, n: nat) -> Seq<u8>
    decreases n,
{
    if n == 0 {
        Seq::empty()
    } else {
        seq![(v % 256) as u8] + le_bytes(v / 256, (n - 1) as nat)
    }
}

/// The number that the little-endian bytes `s` stand for.
pub open spec fn le_value(s: Seq<u8>) -> nat
    decreases s.len(),
{
    if s.len() == 0 {
        0
    } else {
        s[0] as nat + 256 * le_value(s.drop_first())
    }
}

/// The widths used by this crate, as powers of 256.
pub proof fn lemma_pow256_values()
    ensures
        pow256(0) == 1,
        pow256(1) == 0x100,
        pow256(2) == 0x1_0000,
        pow256(3) == 0x100_0000,
        pow256(4) == 0x1_0000_0000,
        pow256(5) == 0x100_0000_0000,
        pow256(6) == 0x1_0000_0000_0000,
        pow256(7) == 0x100_0000_0000_0000,
        pow256(8) == 0x1_0000_0000_0000_0000,
{
    reveal_with_fuel(pow256, 9);
}

/// `pow256` grows with its exponent.
pub proof fn lemma_pow256_monotone(a: nat, b: nat)
    requires
        a <= b,
    ensures
        pow256(a) <= pow256(b),
    decreases b,
{
    if a < b {
        lemma_pow256_monotone(a, (b - 1) as nat);
    }
}

/// Encoding into `n` bytes gives exactly `n` bytes.
pub proof fn lemma_le_bytes_len(v: nat, n: nat)
    ensures
        le_bytes(v, n).len() == n,
    decreases n,
{
    if n > 0 {
        lemma_le_bytes_len(v / 256, (n - 1) as nat);
    }
}

/// The value of `n` bytes is below `256^n`.
pub proof fn lemma_le_value_bound(s: Seq<u8>)
    ensures
        le_value(s) < pow256(s.len()),
    decreases s.len(),
{
    if s.len() > 0 {
        lemma_le_value_bound(s.drop_first());
    }
}

/// Decoding the encoding of a value that fits in `n` bytes gives the value back.
pub proof fn lemma_le_value_of_bytes(v: nat, n: nat)
    requires
        v < pow256(n),
    ensures
        le_value(le_bytes(v, n)) == v,
    decreases n,
{
    lemma_le_bytes_len(v, n);
    if n > 0 {
        let s = le_bytes(v, n);
        let tail = le_bytes(v / 256, (n - 1) as nat);
        assert(s.drop_first() =~= tail);
        lemma_le_value_of_bytes(v / 256, (n - 1) as nat);
    }
}

/// Encoding the value of some bytes, on as many bytes, gives the bytes back.
pub proof fn lemma_le_bytes_of_value(s: Seq<u8>)
    ensures
        le_bytes(le_value(s), s.len()) == s,
    decreases s.len(),
{
    if s.len() > 0 {
        let rest = s.drop_first();
        lemma_le_bytes_of_value(rest);
        let v = le_value(s);
        assert(v % 256 == s[0] as nat);
        assert(v / 256 == le_value(rest));
        assert(le_bytes(v, s.len()) =~= seq![s[0]] + rest);
        assert(seq![s[0]] + rest =~= s);
    }
}

/// Powers of 256 are positive.
pub proof fn lemma_pow256_positive(n: nat)
    ensures
        pow256(n) > 0,
    decreases n,
{
    if n > 0 {
        lemma_pow256_positive((n - 1) as nat);
    }
}

/// Byte `i` of the `n` little-endian bytes of `v` is `(v / 256^i) % 256`.
pub proof fn lemma_le_bytes_index(v: nat, n: nat, i: int)
    requires
        0 <= i < n,
    ensures
        le_bytes(v, n).len() == n,
        le_bytes(v, n)[i] as nat == (v / pow256(i as nat)) % 256,
    decreases n,
{
    lemma_le_bytes_len(v, n);
    if i > 0 {
        lemma_le_bytes_index(v / 256, (n - 1) as nat, i - 1);
        lemma_le_bytes_len(v / 256, (n - 1) as nat);
        assert(le_bytes(v, n)[i] == le_bytes(v / 256, (n - 1) as nat)[i - 1]);
        lemma_pow256_positive((i - 1) as nat);
        lemma_div_denominator(v as int, 256, pow256((i - 1) as nat) as int);
        assert(pow256(i as nat) == 256 * pow256((i - 1) as nat));
    } else {
        assert(pow256(0) == 1);
        assert(v / 1 == v);
        assert(le_bytes(v, n)[0] == (v % 256) as u8);
    }
}

/// Byte `i` of some bytes is `(v / 256^i) % 256`, where `v` is the number they
/// stand for.
pub proof fn lemma_le_value_index(s: Seq<u8>, i: int)
    requires
        0 <= i < s.len(),
    ensures
        s[i] as nat == (le_value(s) / pow256(i as nat)) % 256,
{
    lemma_le_bytes_of_value(s);
    lemma_le_bytes_index(le_value(s), s.len(), i);
}

/// Encodes the `n` low bytes of `v`, least significant byte first.
pub fn encode_le(v: u64, n: usize) -> (out: Vec<u8>)
    ensures
        out@ == le_bytes(v as nat, n as nat),
{
    let mut out: Vec<u8> = Vec::new();
    let mut x: u64 = v;
    let mut i: usize = 0;
    while i < n
        invariant
            i <= n,
            out@ + le_bytes(x as nat, (n - i) as nat) == le_bytes(v as nat, n as nat),
        decreases n - i,
    {
        let ghost before = out@;
        let b: u8 = (x % 256) as u8;
        out.push(b);
        proof {
            let rest = le_bytes((x / 256) as nat, (n - i - 1) as nat);
            assert(le_bytes(x as nat, (n - i) as nat) == seq![b] + rest);
            assert(before + (seq![b] + rest) =~= out@ + rest);
        }
        x = x / 256;
        i = i + 1;
    }
    assert(out@ + le_bytes(x as nat, 0) =~= out@);
    out
}

/// Decodes at most eight little-endian bytes into a number.
pub fn decode_le(bytes: &Vec<u8>) -> (v: u64)
    requires
        bytes@.len() <= 8,
    ensures
        v == le_value(bytes@),
{
    let mut acc: u64 = 0;
    let mut i: usize = bytes.len();
    assert(bytes@.skip(i as int) =~= Seq::<u8>::empty());
    while i > 0
        invariant
            i <= bytes@.len() <= 8,
            acc == le_value(bytes@.skip(i as int)),
        decreases i,
    {
        i = i - 1;
        proof {
            let tail = bytes@.skip(i + 1);
            lemma_le_value_bound(tail);
            lemma_pow256_monotone(tail.len(), 7);
            lemma_pow256_values();
            assert(bytes@.skip(i as int).drop_first() =~= tail);
        }
        acc = bytes[i] as u64 + 256 * acc;
    }
    assert(bytes@.skip(0) =~= bytes@);
    acc
}

} // verus!
