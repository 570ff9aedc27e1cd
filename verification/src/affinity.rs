//! CPU affinity masks. Bit `i` of a mask, for `i < 32`, selects CPU `i`;
//! higher bits are ignored, as the operating-system side only ever
//! inspects the first thirty-two CPUs.
use vstd::prelude::*;

verus! {

/// Number of CPUs that a mask can address.
pub const MASK_CPUS: usize = 32;

/// Whether `mask` selects CPU `cpu`.
pub open spec fn has_cpu(mask: usize, cpu: usize) -> bool {
    (1usize << cpu) & mask != 0
}

/// The mask with bit `i` set, for each `i < n`, exactly when `flags[i]`
/// exists and is `true`.
pub open spec fn flags_mask(flags: Seq<bool>, n: nat) -> usize
    decreases n,
{
    if n == 0 {
        0
    } else {
        let prev = flags_mask(flags, (n - 1) as nat);
        let i = (n - 1) as int;
        if i < flags.len() && flags[i] {
            prev | (1usize << (i as usize))
        } else {
            prev
        }
    }
}

/// The CPUs that `mask` selects, in increasing order; each is below
/// [`MASK_CPUS`].
pub fn cpus_of_mask(mask: usize) -> (cpus: Vec<usize>)
    ensures
        forall|k: int| 0 <= k < cpus@.len() ==> #[trigger] cpus@[k] < MASK_CPUS,
        forall|k: int, l: int| 0 <= k < l < cpus@.len() ==> cpus@[k] < cpus@[l],
        forall|c: usize| c < MASK_CPUS ==> (cpus@.contains(c) <==> has_cpu(mask, c)),
{
    let mut cpus: Vec<usize> = Vec::new();
    let mut i: usize = 0;
    while i < MASK_CPUS
        invariant
            i <= MASK_CPUS,
            forall|k: int| 0 <= k < cpus@.len() ==> #[trigger] cpus@[k] < i,
            forall|k: int, l: int| 0 <= k < l < cpus@.len() ==> cpus@[k] < cpus@[l],
            forall|c: usize| c < i ==> (cpus@.contains(c) <==> has_cpu(mask, c)),
        decreases MASK_CPUS - i,
    {
        if ((1usize << i) & mask) > 0 {
            let ghost before = cpus@;
            cpus.push(i);
            assert forall|c: usize| c < i + 1 implies (cpus@.contains(c) <==> has_cpu(mask, c)) by {
                if c < i {
                    if before.contains(c) {
                        let k = choose|k: int| 0 <= k < before.len() && before[k] == c;
                        assert(cpus@[k] == c);
                    }
                    if cpus@.contains(c) {
                        let k = choose|k: int| 0 <= k < cpus@.len() && cpus@[k] == c;
                        assert(k < before.len());
                        assert(before[k] == c);
                    }
                } else {
                    assert(cpus@[before.len() as int] == c);
                }
            }
        } else {
            assert forall|c: usize| c < i + 1 implies (cpus@.contains(c) <==> has_cpu(mask, c)) by {
                if c == i {
                    if cpus@.contains(c) {
                        let k = choose|k: int| 0 <= k < cpus@.len() && cpus@[k] == c;
                        assert(cpus@[k] < i);
                    }
                }
            }
        }
        i = i + 1;
    }
    cpus
}

proof fn lemma_bit_or(x: usize, n: usize, i: usize)
    requires
        n < 32,
        i < 32,
    ensures
        has_cpu(x | (1usize << n), i) <==> (has_cpu(x, i) || i == n),
        x >> n == 0 ==> (x | (1usize << n)) >> ((n + 1) as usize) == 0,
        x >> n == 0 ==> x >> ((n + 1) as usize) == 0,
        x >> n == 0 && n <= i ==> !has_cpu(x, i),
{
    assert((1usize << i) & (x | (1usize << n)) != 0 <==> ((1usize << i) & x != 0 || i == n)) by (bit_vector)
        requires
            n < 32,
            i < 32,
    ;
    assert(x >> n == 0 ==> (x | (1usize << n)) >> ((n + 1) as usize) == 0) by (bit_vector)
        requires
            n < 32,
    ;
    assert(x >> n == 0 ==> x >> ((n + 1) as usize) == 0) by (bit_vector)
        requires
            n < 32,
    ;
    assert(x >> n == 0 && n <= i ==> (1usize << i) & x == 0) by (bit_vector)
        requires
            n < 32,
            i < 32,
    ;
}

proof fn lemma_flags_mask_bits(flags: Seq<bool>, n: nat)
    requires
        n <= MASK_CPUS,
    ensures
        forall|i: usize|
            i < MASK_CPUS ==> (#[trigger] has_cpu(flags_mask(flags, n), i) <==> (i < n && i
                < flags.len() && flags[i as int])),
        flags_mask(flags, n) >> (n as usize) == 0,
    decreases n,
{
    if n == 0 {
        assert forall|i: usize| i < MASK_CPUS implies !has_cpu(0usize, i) by {
            assert((1usize << i) & 0usize == 0) by (bit_vector);
        }
        assert(0usize >> 0usize == 0) by (bit_vector);
    } else {
        let k = (n - 1) as usize;
        let prev = flags_mask(flags, (n - 1) as nat);
        lemma_flags_mask_bits(flags, (n - 1) as nat);
        assert forall|i: usize| i < MASK_CPUS implies (#[trigger] has_cpu(flags_mask(flags, n), i) <==> (
        i < n && i < flags.len() && flags[i as int])) by {
            lemma_bit_or(prev, k, i);
        }
        lemma_bit_or(prev, k, 0);
    }
}

/// The mask that selects CPU `i`, for each `i <` [`MASK_CPUS`], exactly
/// when `flags[i]` exists and is `true`, and no CPU from [`MASK_CPUS`] on.
pub fn mask_of_cpu_flags(flags: &Vec<bool>) -> (mask: usize)
    ensures
        forall|i: usize|
            i < MASK_CPUS ==> (#[trigger] has_cpu(mask, i) <==> (i < flags@.len() && flags@[i as int])),
        mask >> 32usize == 0,
        mask == flags_mask(flags@, MASK_CPUS as nat),
{
    proof {
        lemma_flags_mask_bits(flags@, MASK_CPUS as nat);
    }
    let mut bits: usize = 0;
    let mut i: usize = 0;
    while i < MASK_CPUS
        invariant
            i <= MASK_CPUS,
            bits == flags_mask(flags@, i as nat),
        decreases MASK_CPUS - i,
    {
        if i < flags.len() && flags[i] {
            bits = bits | (1usize << i);
        }
        i = i + 1;
    }
    bits
}

/// The flags that reading back the CPUs selected by `mask` yields: entry
/// `i` tells whether CPU `i` is selected.
pub open spec fn cpu_flags(mask: usize) -> Seq<bool> {
    Seq::new(MASK_CPUS as nat, |i: int| has_cpu(mask, i as usize))
}

proof fn lemma_bit_step(m: usize, n: usize)
    requires
        n < 32,
    ensures
        (1usize << n) & m != 0 ==> (m & !(!0usize << n)) | (1usize << n) == m & !(!0usize << ((n + 1) as usize)),
        (1usize << n) & m == 0 ==> m & !(!0usize << n) == m & !(!0usize << ((n + 1) as usize)),
{
    assert((1usize << n) & m != 0 ==> (m & !(!0usize << n)) | (1usize << n) == m & !(!0usize << ((n + 1) as usize))) by (bit_vector)
        requires
            n < 32,
    ;
    assert((1usize << n) & m == 0 ==> m & !(!0usize << n) == m & !(!0usize << ((n + 1) as usize))) by (bit_vector)
        requires
            n < 32,
    ;
}

proof fn lemma_flags_mask_prefix(mask: usize, n: nat)
    requires
        n <= MASK_CPUS,
    ensures
        flags_mask(cpu_flags(mask), n) == mask & !(!0usize << (n as usize)),
    decreases n,
{
    if n == 0 {
        assert(mask & !(!0usize << 0usize) == 0) by (bit_vector);
    } else {
        let i = (n - 1) as usize;
        lemma_flags_mask_prefix(mask, (n - 1) as nat);
        lemma_bit_step(mask, i);
        assert(cpu_flags(mask)[i as int] == has_cpu(mask, i));
    }
}

/// Applying a mask and reading the selected CPUs back gives the mask
/// restricted to its low thirty-two bits: if exactly the CPUs in
/// `cpus_of_mask(mask)` are selected, the flags read back for CPUs
/// `0..32` are `cpu_flags(mask)`, and `mask_of_cpu_flags` turns them into
/// `mask & 0xFFFF_FFFF`.
pub proof fn law_affinity_round_trip(mask: usize)
    ensures
        flags_mask(cpu_flags(mask), MASK_CPUS as nat) == mask & 0xFFFF_FFFFusize,
{
    lemma_flags_mask_prefix(mask, MASK_CPUS as nat);
    assert(mask & !(!0usize << 32usize) == mask & 0xFFFF_FFFFusize) by (bit_vector);
}

} // verus!
