//! The sample transform that undoes the ADC's output randomisation: every sample whose
//! lowest bit is set has its other fifteen bits inverted.
use vstd::prelude::*;

verus! {

/// One sample after the transform.
pub open spec fn derandomize_spec(s: u16) -> u16 {
    if s & 1 == 1 {
        s ^ 0xFFFE
    } else {
        s
    }
}

/// The transform of one sample.
pub fn derandomize(s: u16) -> (r: u16)
    ensures
        r == derandomize_spec(s),
{
    if s & 1 == 1 {
        s ^ 0xFFFE
    } else {
        s
    }
}

/// The transform undoes itself: the lowest bit is kept, so the same samples are
/// inverted again.
pub proof fn lemma_derandomize_involution(s: u16)
    ensures
        derandomize_spec(derandomize_spec(s)) == s,
{
    assert((s & 1 == 1) ==> ((s ^ 0xFFFE) & 1 == 1 && (s ^ 0xFFFE) ^ 0xFFFE == s)) by (bit_vector);
}

/// Applies the transform in place to every sample of `buffer`.
pub fn apply(buffer: &mut Vec<u16>)
    ensures
        final(buffer)@ == old(buffer)@.map_values(|s: u16| derandomize_spec(s)),
{
    let ghost orig = buffer@;
    let mut i: usize = 0;
    while i < buffer.len()
        invariant
            buffer@.len() == orig.len(),
            i <= orig.len(),
            forall|j: int| 0 <= j < i ==> buffer@[j] == derandomize_spec(orig[j]),
            forall|j: int| i <= j < orig.len() ==> buffer@[j] == orig[j],
        decreases orig.len() - i,
    {
        let s = buffer[i];
        buffer.set(i, derandomize(s));
        i = i + 1;
    }
    proof {
        assert(buffer@ =~= orig.map_values(|s: u16| derandomize_spec(s)));
    }
}

/// Applying the transform twice to a buffer gives the buffer back.
pub proof fn lemma_apply_twice(v: Seq<u16>)
    ensures
        v.map_values(|s: u16| derandomize_spec(s)).map_values(|s: u16| derandomize_spec(s)) == v,
{
    let w = v.map_values(|s: u16| derandomize_spec(s)).map_values(|s: u16| derandomize_spec(s));
    assert forall|j: int| 0 <= j < v.len() implies w[j] == v[j] by {
        lemma_derandomize_involution(v[j]);
    }
    assert(w =~= v);
}

/// The low byte of a little-endian sample after the transform.
pub open spec fn low_byte_spec(lo: u8) -> u8 {
    if lo & 1 == 1 {
        lo ^ 0xFE
    } else {
        lo
    }
}

/// The high byte of a little-endian sample after the transform.
pub open spec fn high_byte_spec(lo: u8, hi: u8) -> u8 {
    if lo & 1 == 1 {
        hi ^ 0xFF
    } else {
        hi
    }
}

/// The byte-level transform is the sample-level one on each little-endian sample.
pub proof fn lemma_bytes_match_samples(lo: u8, hi: u8)
    ensures
        derandomize_spec((lo as u16) | ((hi as u16) << 8u16)) == (low_byte_spec(lo) as u16) | ((
        high_byte_spec(lo, hi) as u16) << 8u16),
{
    assert(((lo as u16) | ((hi as u16) << 8u16)) & 1 == 1 <==> lo & 1 == 1) by (bit_vector);
    assert(((lo as u16) | ((hi as u16) << 8u16)) ^ 0xFFFE == ((lo ^ 0xFE) as u16) | (((hi ^ 0xFF) as u16) << 8u16)) by (bit_vector);
}

/// `after` is `before` with every little-endian sample transformed; a last odd byte is
/// kept.
pub open spec fn bytes_transformed(before: Seq<u8>, after: Seq<u8>) -> bool {
    &&& after.len() == before.len()
    &&& forall|i: int|
        0 <= i < before.len() / 2 ==> #[trigger] after[2 * i] == low_byte_spec(before[2 * i])
            && after[2 * i + 1] == high_byte_spec(before[2 * i], before[2 * i + 1])
    &&& before.len() % 2 == 1 ==> after.last() == before.last()
}

/// Transforming a byte buffer twice gives it back.
pub proof fn lemma_apply_to_bytes_twice(a: Seq<u8>, b: Seq<u8>, c: Seq<u8>)
    requires
        bytes_transformed(a, b),
        bytes_transformed(b, c),
    ensures
        c == a,
{
    assert forall|j: int| 0 <= j < a.len() implies c[j] == a[j] by {
        let i = j / 2;
        if i < a.len() / 2 {
            let lo = a[2 * i];
            let hi = a[2 * i + 1];
            assert(b[2 * i] == low_byte_spec(lo));
            assert(c[2 * i] == low_byte_spec(b[2 * i]));
            assert((lo & 1 == 1) ==> ((lo ^ 0xFE) & 1 == 1 && (lo ^ 0xFE) ^ 0xFE == lo)) by (bit_vector);
            assert((lo & 1 != 1) ==> (lo & 1 != 1));
            assert(hi ^ 0xFF ^ 0xFF == hi) by (bit_vector);
            if j == 2 * i {
            } else {
                assert(j == 2 * i + 1);
            }
        } else {
            assert(j == a.len() - 1);
        }
    }
    assert(c =~= a);
}

/// Applies the transform in place to a buffer of little-endian 16-bit samples; a last
/// odd byte, which holds no whole sample, is left as it is.
pub fn apply_to_bytes(buffer: &mut Vec<u8>)
    ensures
        bytes_transformed(old(buffer)@, final(buffer)@),
{
    let ghost orig = buffer@;
    let len: usize = buffer.len();
    let n: usize = len / 2;
    let mut i: usize = 0;
    while i < n
        invariant
            len == orig.len(),
            buffer@.len() == orig.len(),
            n == orig.len() / 2,
            i <= n,
            forall|j: int|
                0 <= j < i ==> #[trigger] buffer@[2 * j] == low_byte_spec(orig[2 * j])
                    && buffer@[2 * j + 1] == high_byte_spec(orig[2 * j], orig[2 * j + 1]),
            forall|j: int| 2 * i <= j < orig.len() ==> buffer@[j] == orig[j],
        decreases n - i,
    {
        let lo = buffer[2 * i];
        let hi = buffer[2 * i + 1];
        if lo & 1 == 1 {
            buffer.set(2 * i, lo ^ 0xFE);
            buffer.set(2 * i + 1, hi ^ 0xFF);
        }
        i = i + 1;
    }
}

} // verus!
