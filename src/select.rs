//! Selection rules over totally ordered keys: the first minimum picks the
//! stimulus, the first maximum picks the mode of the posterior.
use vstd::prelude::*;

verus! {

/// `i` holds the smallest key, and no earlier position holds one as small.
pub open spec fn is_first_min(keys: Seq<u64>, i: int) -> bool {
    &&& 0 <= i < keys.len()
    &&& forall|j: int| 0 <= j < keys.len() ==> keys[i] <= keys[j]
    &&& forall|j: int| 0 <= j < i ==> keys[j] > keys[i]
}

/// `i` holds the largest key, and no earlier position holds one as large.
pub open spec fn is_first_max(keys: Seq<u64>, i: int) -> bool {
    &&& 0 <= i < keys.len()
    &&& forall|j: int| 0 <= j < keys.len() ==> keys[j] <= keys[i]
    &&& forall|j: int| 0 <= j < i ==> keys[j] < keys[i]
}

/// The first minimum of a sequence of keys is unique: choosing it is
/// deterministic.
pub proof fn lemma_first_min_unique(keys: Seq<u64>, i: int, j: int)
    requires
        is_first_min(keys, i),
        is_first_min(keys, j),
    ensures
        i == j,
{
    if i < j {
        assert(keys[i] > keys[j] && keys[j] <= keys[i]);
    } else if j < i {
        assert(keys[j] > keys[i] && keys[i] <= keys[j]);
    }
}

/// The first maximum of a sequence of keys is unique: choosing it is
/// deterministic.
pub proof fn lemma_first_max_unique(keys: Seq<u64>, i: int, j: int)
    requires
        is_first_max(keys, i),
        is_first_max(keys, j),
    ensures
        i == j,
{
    if i < j {
        assert(keys[i] < keys[j] && keys[i] <= keys[j]);
    } else if j < i {
        assert(keys[j] < keys[i] && keys[j] <= keys[i]);
    }
}

/// Position of the first smallest key; `None` for no keys.
pub fn argmin_first(keys: &Vec<u64>) -> (r: Option<usize>)
    ensures
        r is None <==> keys@.len() == 0,
        r is Some ==> is_first_min(keys@, r->Some_0 as int),
{
    if keys.len() == 0 {
        return None;
    }
    let mut best: usize = 0;
    let mut k: usize = 1;
    while k < keys.len()
        invariant
            1 <= k <= keys@.len(),
            best < k,
            forall|j: int| 0 <= j < k ==> keys@[best as int] <= keys@[j],
            forall|j: int| 0 <= j < best ==> keys@[j] > keys@[best as int],
        decreases keys@.len() - k,
    {
        if keys[k] < keys[best] {
            best = k;
        }
        k = k + 1;
    }
    Some(best)
}

/// Position of the first largest key; `None` for no keys.
pub fn argmax_first(keys: &Vec<u64>) -> (r: Option<usize>)
    ensures
        r is None <==> keys@.len() == 0,
        r is Some ==> is_first_max(keys@, r->Some_0 as int),
{
    if keys.len() == 0 {
        return None;
    }
    let mut best: usize = 0;
    let mut k: usize = 1;
    while k < keys.len()
        invariant
            1 <= k <= keys@.len(),
            best < k,
            forall|j: int| 0 <= j < k ==> keys@[j] <= keys@[best as int],
            forall|j: int| 0 <= j < best ==> keys@[j] < keys@[best as int],
        decreases keys@.len() - k,
    {
        if keys[k] > keys[best] {
            best = k;
        }
        k = k + 1;
    }
    Some(best)
}

/// The position of the first smallest key (meaningful for a non-empty sequence).
pub open spec fn first_min_index(keys: Seq<u64>) -> int {
    choose|i: int| is_first_min(keys, i)
}

/// The position of the first largest key (meaningful for a non-empty sequence).
pub open spec fn first_max_index(keys: Seq<u64>) -> int {
    choose|i: int| is_first_max(keys, i)
}

/// Sign-magnitude value of a 64-bit pattern: the top bit is the sign, the
/// other 63 the magnitude; both zeros are 0. For binary64 patterns that are
/// not NaN this orders as the floating-point numbers they encode.
pub open spec fn sign_magnitude(bits: u64) -> int {
    if bits < 0x8000_0000_0000_0000u64 {
        bits as int
    } else {
        -(bits - 0x8000_0000_0000_0000u64)
    }
}

/// Key order is sign-magnitude order: equal values get equal keys (so the
/// two zeros tie), and a smaller value a smaller key.
pub proof fn lemma_order_key_monotone(a: u64, b: u64, ka: u64, kb: u64)
    requires
        ka as int == 0x8000_0000_0000_0000 + sign_magnitude(a),
        kb as int == 0x8000_0000_0000_0000 + sign_magnitude(b),
    ensures
        ka < kb <==> sign_magnitude(a) < sign_magnitude(b),
        ka == kb <==> sign_magnitude(a) == sign_magnitude(b),
{
}

/// Order key of a binary64 bit pattern: `2^63` plus its sign-magnitude value,
/// so that unsigned order on keys is numeric order on the non-NaN values, with
/// `-0.0` and `+0.0` equal.
pub fn float_order_key(bits: u64) -> (r: u64)
    ensures
        r as int == 0x8000_0000_0000_0000 + sign_magnitude(bits),
{
    let mag = bits & 0x7FFF_FFFF_FFFF_FFFFu64;
    assert(bits < 0x8000_0000_0000_0000u64 ==> mag == bits) by (bit_vector)
        requires
            mag == bits & 0x7FFF_FFFF_FFFF_FFFFu64,
    ;
    assert(bits >= 0x8000_0000_0000_0000u64 ==> mag == bits - 0x8000_0000_0000_0000u64)
        by (bit_vector)
        requires
            mag == bits & 0x7FFF_FFFF_FFFF_FFFFu64,
    ;
    if bits >= 0x8000_0000_0000_0000u64 {
        0x8000_0000_0000_0000u64 - mag
    } else {
        0x8000_0000_0000_0000u64 + mag
    }
}

} // verus!
