//! Little-endian encoding of the integers that messages carry, and the
//! two's-complement reading of those integers as signed values.
use vstd::prelude::*;

verus! {

/// `256^w`: how many values `w` bytes can hold.
pub open spec fn byte_range(w: nat) -> nat
    decreases w,
{
    if w == 0 {
        1
    } else {
        256 * byte_range((w - 1) as nat)
    }
}

/// The value of `s` read least significant byte first.
pub open spec fn le_value(s: Seq<u8>) -> nat
    decreases s.len(),
{
    if s.len() == 0 {
        0
    } else {
        s[0] as nat + 256 * le_value(s.drop_first())
    }
}

/// The `w` lowest bytes of `v`, least significant first.
pub open spec fn le_bytes(v: nat, w: nat) -> Seq<u8>
    decreases w,
{
    if w == 0 {
        Seq::empty()
    } else {
        seq![(v % 256) as u8] + le_bytes(v / 256, (w - 1) as nat)
    }
}

/// The two's-complement value of the `w`-byte pattern `u`.
pub open spec fn as_signed(u: nat, w: nat) -> int {
    if u < byte_range(w) / 2 {
        u as int
    } else {
        u - byte_range(w)
    }
}

/// The `w`-byte two's-complement pattern of `v`.
pub open spec fn as_unsigned(v: int, w: nat) -> nat {
    if v >= 0 {
        v as nat
    } else {
        (v + byte_range(w)) as nat
    }
}

/// The ranges of the widths that messages use.
pub proof fn lemma_byte_ranges()
    ensures
        byte_range(1) == 256,
        byte_range(2) == 65536,
        byte_range(4) == 4294967296,
{
    reveal_with_fuel(byte_range, 5);
}

pub proof fn lemma_le_bytes_len(v: nat, w: nat)
    ensures
        le_bytes(v, w).len() == w,
    decreases w,
{
    if w > 0 {
        lemma_le_bytes_len(v / 256, (w - 1) as nat);
    }
}

pub proof fn lemma_le_value_bound(s: Seq<u8>)
    ensures
        le_value(s) < byte_range(s.len()),
    decreases s.len(),
{
    if s.len() > 0 {
        lemma_le_value_bound(s.drop_first());
    }
}

/// Reading back the bytes of a value that fits in `w` bytes gives the value.
pub proof fn law_le_round_trip(v: nat, w: nat)
    requires
        v < byte_range(w),
    ensures
        le_value(le_bytes(v, w)) == v,
    decreases w,
{
    if w > 0 {
        let rest = le_bytes(v / 256, (w - 1) as nat);
        assert(le_bytes(v, w).drop_first() =~= rest);
        law_le_round_trip(v / 256, (w - 1) as nat);
    }
}

/// A signed value that fits in `w` bytes survives its conversion to a
/// byte pattern and back, and the pattern fits in `w` bytes.
pub proof fn law_signed_round_trip(v: int, w: nat)
    requires
        w > 0,
        -(byte_range(w) / 2) <= v < byte_range(w) / 2,
    ensures
        as_unsigned(v, w) < byte_range(w),
        as_signed(as_unsigned(v, w), w) == v,
{
}

/// Decodes `bytes`, least significant first.
pub fn decode_le(bytes: &Vec<u8>) -> (value: u32)
    requires
        bytes@.len() <= 4,
    ensures
        value as nat == le_value(bytes@),
{
    let n = bytes.len();
    let mut acc: u64 = 0;
    let mut i: usize = n;
    proof {
        lemma_byte_ranges();
        assert(bytes@.subrange(n as int, n as int) =~= Seq::<u8>::empty());
    }
    while i > 0
        invariant
            n == bytes@.len(),
            n <= 4,
            i <= n,
            acc as nat == le_value(bytes@.subrange(i as int, n as int)),
            acc < byte_range((n - i) as nat),
            byte_range((n - i) as nat) <= byte_range(n as nat),
            byte_range(n as nat) <= 4294967296,
        decreases i,
    {
        let ghost tail = bytes@.subrange(i as int, n as int);
        i = i - 1;
        let ghost s = bytes@.subrange(i as int, n as int);
        assert(s.drop_first() =~= tail);
        assert(byte_range((n - i) as nat) == 256 * byte_range((n - i - 1) as nat));
        proof {
            lemma_monotone_byte_range((n - i) as nat, n as nat);
        }
        acc = acc * 256 + bytes[i] as u64;
    }
    assert(bytes@.subrange(0, n as int) =~= bytes@);
    acc as u32
}

proof fn lemma_monotone_byte_range(a: nat, b: nat)
    requires
        a <= b,
    ensures
        byte_range(a) <= byte_range(b),
    decreases b,
{
    if a < b {
        lemma_monotone_byte_range(a, (b - 1) as nat);
    }
}

/// The `w` lowest bytes of `value`, least significant first.
pub fn encode_le(value: u32, w: usize) -> (bytes: Vec<u8>)
    requires
        w <= 4,
    ensures
        bytes@ == le_bytes(value as nat, w as nat),
{
    let mut out: Vec<u8> = Vec::new();
    let mut rest: u32 = value;
    let mut i: usize = 0;
    while i < w
        invariant
            i <= w,
            out@ + le_bytes(rest as nat, (w - i) as nat) == le_bytes(value as nat, w as nat),
        decreases w - i,
    {
        let ghost before = out@;
        let byte = (rest % 256) as u8;
        out.push(byte);
        let ghost k = (w - i) as nat;
        assert(le_bytes(rest as nat, k) == seq![byte] + le_bytes((rest / 256) as nat, (k - 1) as nat));
        assert(out@ + le_bytes((rest / 256) as nat, (k - 1) as nat) =~= before + le_bytes(
            rest as nat,
            k,
        ));
        rest = rest / 256;
        i = i + 1;
    }
    assert(out@ + le_bytes(rest as nat, 0) =~= out@);
    out
}

/// The value of one, two or four bytes, least significant first.
pub proof fn law_le_value_digits(s: Seq<u8>)
    ensures
        s.len() == 1 ==> le_value(s) == s[0] as int,
        s.len() == 2 ==> le_value(s) == s[0] + 256 * s[1],
        s.len() == 4 ==> le_value(s) == s[0] + 256 * s[1] + 65536 * s[2] + 16777216 * s[3],
{
    reveal_with_fuel(le_value, 5);
    if s.len() >= 1 {
        let s1 = s.drop_first();
        if s.len() >= 2 {
            assert(s1[0] == s[1]);
            let s2 = s1.drop_first();
            if s.len() >= 3 {
                assert(s2[0] == s[2]);
                let s3 = s2.drop_first();
                if s.len() >= 4 {
                    assert(s3[0] == s[3]);
                    let s4 = s3.drop_first();
                    assert(s4.len() == s.len() - 4);
                }
            }
        }
    }
}

/// The bytes of a value, least significant first: byte `k` is the `k`-th
/// base-256 digit.
pub proof fn law_le_bytes_digits(v: nat)
    ensures
        le_bytes(v, 1) =~= seq![(v % 256) as u8],
        le_bytes(v, 2) =~= seq![(v % 256) as u8, ((v / 256) % 256) as u8],
        le_bytes(v, 4) =~= seq![
            (v % 256) as u8,
            ((v / 256) % 256) as u8,
            ((v / 65536) % 256) as u8,
            ((v / 16777216) % 256) as u8,
        ],
{
    reveal_with_fuel(le_bytes, 5);
    assert(v / 256 / 256 == v / 65536) by (nonlinear_arith);
    assert(v / 256 / 256 / 256 == v / 16777216) by (nonlinear_arith);
    assert(le_bytes(v, 1) =~= seq![(v % 256) as u8]);
    assert(le_bytes(v / 256, 1) =~= seq![((v / 256) % 256) as u8]);
    assert(le_bytes(v, 2) =~= seq![(v % 256) as u8, ((v / 256) % 256) as u8]);
    assert(le_bytes(v / 65536, 1) =~= seq![((v / 65536) % 256) as u8]);
    assert(le_bytes(v / 16777216, 1) =~= seq![((v / 16777216) % 256) as u8]);
    assert(le_bytes(v / 65536, 2) =~= seq![((v / 65536) % 256) as u8, ((v / 16777216) % 256) as u8]);
    assert(le_bytes(v / 256, 3) =~= seq![
        ((v / 256) % 256) as u8,
        ((v / 65536) % 256) as u8,
        ((v / 16777216) % 256) as u8,
    ]);
}

/// Signed readings are two's complement: the signed value of a pattern
/// lies in the signed range of its width and differs from the pattern by a
/// multiple of the width's range; a signed value's pattern lies in the
/// unsigned range and differs from the value by such a multiple.
pub proof fn law_twos_complement(u: nat, v: int)
    ensures
        u < 256 ==> -128 <= as_signed(u, 1) < 128 && (as_signed(u, 1) - u) % 256 == 0,
        u < 65536 ==> -32768 <= as_signed(u, 2) < 32768 && (as_signed(u, 2) - u) % 65536 == 0,
        u < 4294967296 ==> -2147483648 <= as_signed(u, 4) < 2147483648 && (as_signed(u, 4) - u)
            % 4294967296 == 0,
        -128 <= v < 128 ==> as_unsigned(v, 1) < 256 && (as_unsigned(v, 1) - v) % 256 == 0,
        -32768 <= v < 32768 ==> as_unsigned(v, 2) < 65536 && (as_unsigned(v, 2) - v) % 65536 == 0,
        -2147483648 <= v < 2147483648 ==> as_unsigned(v, 4) < 4294967296 && (as_unsigned(v, 4) - v)
            % 4294967296 == 0,
{
    lemma_byte_ranges();
}

} // verus!
