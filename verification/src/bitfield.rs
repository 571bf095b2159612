//! Piece bitfields: bit `i` of a bitfield, counted from the most significant
//! bit of its first byte, tells whether piece `i` is held.
use vstd::prelude::*;

verus! {

/// Errors of bitfield operations.
#[derive(Debug, PartialEq, Eq, Structural)]
pub enum BitfieldError {
    /// The piece index lies beyond the bitfield.
    IndexOutOfRange,
    /// Two bitfields to be compared have different lengths.
    SizeMismatch,
}

impl BitfieldError {
    /// The text of the error.
    pub fn to_string(&self) -> (r: String)
        ensures
            self is IndexOutOfRange ==> r@ == "Piece index out of bitfield range"@,
            self is SizeMismatch ==> r@ == "Bitfields differ in length"@,
    {
        match self {
            BitfieldError::IndexOutOfRange => "Piece index out of bitfield range".to_owned(),
            BitfieldError::SizeMismatch => "Bitfields differ in length".to_owned(),
        }
    }
}

/// The mask of bit `r` (0 is the most significant) within a byte.
pub open spec fn bit_mask(r: int) -> u8 {
    (0x80u8 >> (r as u8)) as u8
}

/// Whether piece `i` is marked in the bitfield `s`.
pub open spec fn has_bit(s: Seq<u8>, i: int) -> bool {
    0 <= i < 8 * s.len() && s[i / 8] & bit_mask(i % 8) != 0
}

/// The bitfield of pieces that `theirs` holds and `mine` lacks, byte by byte.
pub open spec fn spec_interest(mine: Seq<u8>, theirs: Seq<u8>) -> Seq<u8>
    recommends
        mine.len() == theirs.len(),
{
    Seq::new(theirs.len(), |k: int| theirs[k] & !mine[k])
}

/// Whether `theirs` holds a piece that `mine` lacks.
pub open spec fn lacks_some(mine: Seq<u8>, theirs: Seq<u8>) -> bool {
    exists|i: int| has_bit(theirs, i) && !has_bit(mine, i)
}

/// Whether some byte of `s` is not zero.
pub open spec fn any_nonzero(s: Seq<u8>) -> bool {
    exists|k: int| 0 <= k < s.len() && s[k] != 0
}

pub(crate) proof fn lemma_mask_or(b: u8, r: u8, q: u8)
    requires
        r < 8,
        q < 8,
    ensures
        ((b | (0x80u8 >> r)) & (0x80u8 >> q) != 0) == (q == r || b & (0x80u8 >> q) != 0),
{
    assert(((b | (0x80u8 >> r)) & (0x80u8 >> q) != 0) == (q == r || b & (0x80u8 >> q) != 0))
        by (bit_vector)
        requires
            r < 8,
            q < 8,
    ;
}

proof fn lemma_and_not_bit(t: u8, m: u8, q: u8)
    requires
        q < 8,
    ensures
        ((t & !m) & (0x80u8 >> q) != 0) == (t & (0x80u8 >> q) != 0 && m & (0x80u8 >> q) == 0),
        (t & !m) & (0x80u8 >> q) != 0 ==> (t & !m) != 0,
{
    assert(((t & !m) & (0x80u8 >> q) != 0) == (t & (0x80u8 >> q) != 0 && m & (0x80u8 >> q)
        == 0)) by (bit_vector)
        requires
            q < 8,
    ;
    assert((t & !m) & (0x80u8 >> q) != 0 ==> (t & !m) != 0) by (bit_vector);
}

proof fn lemma_nonzero_has_bit(x: u8)
    requires
        x != 0,
    ensures
        exists|q: u8| q < 8 && #[trigger] (x & (0x80u8 >> q)) != 0,
{
    assert(x & (0x80u8 >> 0u8) != 0 || x & (0x80u8 >> 1u8) != 0 || x & (0x80u8 >> 2u8) != 0 || x
        & (0x80u8 >> 3u8) != 0 || x & (0x80u8 >> 4u8) != 0 || x & (0x80u8 >> 5u8) != 0 || x & (
    0x80u8 >> 6u8) != 0 || x & (0x80u8 >> 7u8) != 0) by (bit_vector)
        requires
            x != 0,
    ;
}

/// Some piece of `theirs` is missing from `mine` exactly when their interest
/// bitfield has a byte that is not zero.
pub proof fn lemma_interest_nonzero(mine: Seq<u8>, theirs: Seq<u8>)
    requires
        mine.len() == theirs.len(),
    ensures
        any_nonzero(spec_interest(mine, theirs)) == lacks_some(mine, theirs),
{
    let v = spec_interest(mine, theirs);
    if any_nonzero(v) {
        let k = choose|k: int| 0 <= k < v.len() && v[k] != 0;
        lemma_nonzero_has_bit(v[k]);
        let q = choose|q: u8| q < 8 && #[trigger] (v[k] & (0x80u8 >> q)) != 0;
        lemma_and_not_bit(theirs[k], mine[k], q);
        let i = 8 * k + q;
        assert(i / 8 == k && i % 8 == q as int);
        assert(has_bit(theirs, i) && !has_bit(mine, i));
    }
    if lacks_some(mine, theirs) {
        let i = choose|i: int| has_bit(theirs, i) && !has_bit(mine, i);
        let k = i / 8;
        let q = (i % 8) as u8;
        assert(bit_mask(i % 8) == (0x80u8 >> q));
        lemma_and_not_bit(theirs[k], mine[k], q);
        assert(v[k] != 0);
    }
}

/// Piece `i` is marked exactly when bit `7 - i % 8`, counted from the least
/// significant, of byte `i / 8` is one: pieces run from the most significant
/// bit of the first byte on.
pub proof fn lemma_has_bit_arith(s: Seq<u8>, i: int)
    ensures
        has_bit(s, i) == (0 <= i < 8 * s.len() && (s[i / 8] as int / pow2_of(7 - i % 8)) % 2
            == 1),
{
    if 0 <= i < 8 * s.len() {
        let b = s[i / 8];
        let r = i % 8;
        if r == 0 {
            assert((b & 0x80u8 != 0) == ((b as int / 128) % 2 == 1)) by (bit_vector);
        } else if r == 1 {
            assert((b & 0x40u8 != 0) == ((b as int / 64) % 2 == 1)) by (bit_vector);
        } else if r == 2 {
            assert((b & 0x20u8 != 0) == ((b as int / 32) % 2 == 1)) by (bit_vector);
        } else if r == 3 {
            assert((b & 0x10u8 != 0) == ((b as int / 16) % 2 == 1)) by (bit_vector);
        } else if r == 4 {
            assert((b & 0x08u8 != 0) == ((b as int / 8) % 2 == 1)) by (bit_vector);
        } else if r == 5 {
            assert((b & 0x04u8 != 0) == ((b as int / 4) % 2 == 1)) by (bit_vector);
        } else if r == 6 {
            assert((b & 0x02u8 != 0) == ((b as int / 2) % 2 == 1)) by (bit_vector);
        } else {
            assert((b & 0x01u8 != 0) == ((b as int / 1) % 2 == 1)) by (bit_vector);
        }
        assert(bit_mask(r) == (0x80u8 >> (r as u8)));
        assert((0x80u8 >> 0u8) == 0x80u8 && (0x80u8 >> 1u8) == 0x40u8 && (0x80u8 >> 2u8) == 0x20u8
            && (0x80u8 >> 3u8) == 0x10u8 && (0x80u8 >> 4u8) == 0x08u8 && (0x80u8 >> 5u8) == 0x04u8
            && (0x80u8 >> 6u8) == 0x02u8 && (0x80u8 >> 7u8) == 0x01u8) by (bit_vector);
    }
}

/// `2` to the power `k`, for `0 <= k < 8`.
pub open spec fn pow2_of(k: int) -> int {
    if k == 0 {
        1
    } else if k == 1 {
        2
    } else if k == 2 {
        4
    } else if k == 3 {
        8
    } else if k == 4 {
        16
    } else if k == 5 {
        32
    } else if k == 6 {
        64
    } else {
        128
    }
}

/// The interest bitfield marks exactly the pieces that `theirs` marks and
/// `mine` does not.
pub proof fn lemma_interest_bits(mine: Seq<u8>, theirs: Seq<u8>, i: int)
    requires
        mine.len() == theirs.len(),
    ensures
        spec_interest(mine, theirs).len() == theirs.len(),
        has_bit(spec_interest(mine, theirs), i) == (has_bit(theirs, i) && !has_bit(mine, i)),
{
    if 0 <= i < 8 * theirs.len() {
        let k = i / 8;
        let q = (i % 8) as u8;
        assert(bit_mask(i % 8) == (0x80u8 >> q));
        lemma_and_not_bit(theirs[k], mine[k], q);
    }
}

/// Whether piece `index` is marked in `bits`; an index beyond the bitfield is not.
pub fn have_bit(bits: &[u8], index: u32) -> (r: bool)
    ensures
        r == has_bit(bits@, index as int),
{
    let byte = (index / 8) as usize;
    if byte < bits.len() {
        let r = (index % 8) as u8;
        bits[byte] & (0x80u8 >> r) != 0
    } else {
        false
    }
}

/// Marks piece `index` in `bits`; fails, leaving `bits` as it is, when the
/// index lies beyond the bitfield.
pub fn add_bit(bits: &mut Vec<u8>, index: u32) -> (r: Result<(), BitfieldError>)
    ensures
        r is Ok <==> (index as int) < 8 * old(bits)@.len(),
        r is Ok ==> final(bits)@ == old(bits)@.update(
            index as int / 8,
            old(bits)@[index as int / 8] | bit_mask(index as int % 8),
        ),
        r is Ok ==> forall|i: int|
            #![trigger has_bit(final(bits)@, i)]
            has_bit(final(bits)@, i) == (i == index as int || has_bit(old(bits)@, i)),
        r is Err ==> r == Err::<(), BitfieldError>(BitfieldError::IndexOutOfRange),
        r is Err ==> final(bits)@ == old(bits)@,
{
    let byte = (index / 8) as usize;
    if byte < bits.len() {
        let r = (index % 8) as u8;
        let ghost before = bits@;
        let v = bits[byte] | (0x80u8 >> r);
        bits.set(byte, v);
        proof {
            assert forall|i: int|
                #![trigger has_bit(bits@, i)]
                has_bit(bits@, i) == (i == index as int || has_bit(before, i)) by {
                if 0 <= i < 8 * bits@.len() {
                    if i / 8 == byte as int {
                        lemma_mask_or(before[byte as int], r, (i % 8) as u8);
                    }
                }
            }
        }
        Ok(())
    } else {
        Err(BitfieldError::IndexOutOfRange)
    }
}

/// The bitfield of the pieces that `theirs` holds and `mine` lacks; fails
/// when the two bitfields differ in length.
pub fn interest(mine: &[u8], theirs: &[u8]) -> (r: Result<Vec<u8>, BitfieldError>)
    ensures
        r is Ok <==> mine@.len() == theirs@.len(),
        r matches Ok(v) ==> v@ == spec_interest(mine@, theirs@),
        r is Err ==> r == Err::<Vec<u8>, BitfieldError>(BitfieldError::SizeMismatch),
{
    if mine.len() != theirs.len() {
        return Err(BitfieldError::SizeMismatch);
    }
    let mut out: Vec<u8> = Vec::new();
    let mut k: usize = 0;
    while k < theirs.len()
        invariant
            mine@.len() == theirs@.len(),
            k <= theirs@.len(),
            out@ == spec_interest(mine@, theirs@).subrange(0, k as int),
        decreases theirs@.len() - k,
    {
        out.push(theirs[k] & !mine[k]);
        k = k + 1;
        assert(out@ =~= spec_interest(mine@, theirs@).subrange(0, k as int));
    }
    assert(out@ =~= spec_interest(mine@, theirs@));
    Ok(out)
}

/// Whether some byte of `bits` is not zero.
pub fn has_nonzero(bits: &[u8]) -> (r: bool)
    ensures
        r == any_nonzero(bits@),
{
    let mut k: usize = 0;
    while k < bits.len()
        invariant
            k <= bits@.len(),
            forall|j: int| 0 <= j < k ==> bits@[j] == 0,
        decreases bits@.len() - k,
    {
        if bits[k] != 0 {
            return true;
        }
        k = k + 1;
    }
    false
}

} // verus!
