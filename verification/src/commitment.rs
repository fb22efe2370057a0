use vstd::prelude::*;
use vstd::slice::slice_subrange;
use crate::bytes::{u64_le, le_to_u64, write_u64_le, read_u64_le, lemma_u64_le_round_trip,
    CodecError};
use nova_snark::provider::bn256_grumpkin::grumpkin::Scalar;

verus! {

#[verifier::external_type_specification]
#[verifier::external_body]
pub struct ExScalar(Scalar);

/// The canonical 32-byte little-endian representation of a field
/// element of the commitment curve's scalar field. It is a function of
/// the element alone; what the bytes are is stated nowhere, only how
/// the two conversion routines below relate to them.
pub uninterp spec fn scalar_bytes(e: Scalar) -> [u8; 32];

/// Relies on the field's `to_bytes`: the canonical little-endian byte
/// representation of the element, a function of the element alone.
#[verifier::external_body]
fn scalar_to_bytes(e: &Scalar) -> (r: [u8; 32])
    ensures
        r == scalar_bytes(*e),
{
    e.to_bytes()
}

/// Relies on the field's `from_bytes`: succeeds exactly on canonical
/// representations, and inverts `to_bytes`.
#[verifier::external_body]
fn scalar_from_bytes(b: &[u8]) -> (r: Option<Scalar>)
    requires
        b@.len() == 32,
    ensures
        forall|e: Scalar| scalar_bytes(e)@ == b@ ==> r == Some(e),
        r matches Some(e) ==> scalar_bytes(e)@ == b@,
{
    let arr: [u8; 32] = b.try_into().unwrap();
    Option::from(Scalar::from_bytes(&arr))
}

/// The concatenation of the canonical representations of `elems`, in
/// order.
pub open spec fn scalar_seq_bytes(elems: Seq<Scalar>) -> Seq<u8>
    decreases elems.len(),
{
    if elems.len() == 0 {
        Seq::empty()
    } else {
        scalar_seq_bytes(elems.drop_last()) + scalar_bytes(elems.last())@
    }
}

/// Canonical encoding of a commitment vector: the element count as
/// eight little-endian bytes, then each element's 32 canonical bytes.
pub open spec fn spec_cmt_encode(elems: Seq<Scalar>) -> Seq<u8> {
    u64_le(elems.len() as u64) + scalar_seq_bytes(elems)
}

/// Chunk `i` of the stream is the canonical representation of no field
/// element.
pub open spec fn chunk_non_canonical(bytes: Seq<u8>, i: int) -> bool {
    forall|e: Scalar| scalar_bytes(e)@ != bytes.subrange(8 + 32 * i, 8 + 32 * i + 32)
}

pub proof fn lemma_scalar_seq_bytes_len(elems: Seq<Scalar>)
    ensures
        scalar_seq_bytes(elems).len() == 32 * elems.len(),
    decreases elems.len(),
{
    if elems.len() > 0 {
        lemma_scalar_seq_bytes_len(elems.drop_last());
    }
}

pub proof fn lemma_scalar_seq_bytes_chunk(elems: Seq<Scalar>, i: int)
    requires
        0 <= i < elems.len(),
    ensures
        scalar_seq_bytes(elems).subrange(32 * i, 32 * i + 32) == scalar_bytes(elems[i])@,
    decreases elems.len(),
{
    lemma_scalar_seq_bytes_len(elems);
    if i == elems.len() - 1 {
        lemma_scalar_seq_bytes_len(elems.drop_last());
        assert(scalar_seq_bytes(elems).subrange(32 * i, 32 * i + 32) =~= scalar_bytes(
            elems[i])@);
    } else {
        lemma_scalar_seq_bytes_chunk(elems.drop_last(), i);
        lemma_scalar_seq_bytes_len(elems.drop_last());
        assert(scalar_seq_bytes(elems).subrange(32 * i, 32 * i + 32) =~= scalar_seq_bytes(
            elems.drop_last()).subrange(32 * i, 32 * i + 32));
    }
}

/// An incremental-commitment value: an ordered vector of field
/// elements of the commitment curve's scalar field, immutable after
/// construction.
#[derive(Clone, Debug, PartialEq)]
pub struct ICCmt {
    v: Vec<Scalar>,
}

impl View for ICCmt {
    type V = Seq<Scalar>;

    closed spec fn view(&self) -> Seq<Scalar> {
        self.v@
    }
}

impl ICCmt {
    /// Wraps an ordered vector of field elements.
    pub fn new(v: Vec<Scalar>) -> (r: Self)
        ensures
            r@ == v@,
    {
        Self { v }
    }

    /// Read-only view of the wrapped elements.
    pub fn inner(&self) -> (r: &Vec<Scalar>)
        ensures
            r@ == self@,
    {
        &self.v
    }

    /// Canonical byte encoding: the element count, then each element's
    /// canonical 32 bytes, in order.
    pub fn encode(&self) -> (r: Vec<u8>)
        ensures
            r@ == spec_cmt_encode(self@),
    {
        let n = self.v.len();
        let mut out: Vec<u8> = Vec::new();
        write_u64_le(&mut out, n as u64);
        let mut i: usize = 0;
        while i < n
            invariant
                n == self.v@.len(),
                out@ == u64_le(n as u64) + scalar_seq_bytes(self.v@.take(i as int)),
                i <= n,
            decreases n - i,
        {
            let b = scalar_to_bytes(&self.v[i]);
            let mut j: usize = 0;
            while j < 32
                invariant
                    b == scalar_bytes(self.v@[i as int]),
                    i < n,
                    n == self.v@.len(),
                    out@ == u64_le(n as u64) + scalar_seq_bytes(self.v@.take(i as int))
                        + b@.take(j as int),
                    j <= 32,
                decreases 32 - j,
            {
                out.push(b[j]);
                proof {
                    assert(out@ =~= u64_le(n as u64) + scalar_seq_bytes(self.v@.take(i as int))
                        + b@.take(j + 1));
                }
                j = j + 1;
            }
            proof {
                let pre = self.v@.take(i as int);
                let post = self.v@.take(i + 1);
                assert(post.drop_last() =~= pre);
                assert(post.last() == self.v@[i as int]);
                assert(b@.take(32) =~= b@);
                assert(out@ =~= u64_le(n as u64) + scalar_seq_bytes(post));
            }
            i = i + 1;
        }
        proof {
            assert(self.v@.take(n as int) =~= self.v@);
        }
        out
    }

    /// Canonical decoding. Succeeds exactly when the count prefix is
    /// present, the stream holds 32 bytes for each counted element,
    /// and every 32-byte chunk is a canonical field representation;
    /// a short stream ends the decoding with `UnexpectedEnd`, a
    /// non-canonical chunk with `InvalidData`. Trailing bytes are
    /// ignored. Decoding inverts `encode`: bytes produced by `encode`
    /// give back exactly the vector that was encoded.
    pub fn decode(bytes: &[u8]) -> (r: Result<Self, CodecError>)
        ensures
            r matches Ok(c) ==> {
                let n = le_to_u64(bytes@.subrange(0, 8)) as int;
                &&& bytes@.len() >= 8
                &&& c@.len() == n
                &&& 8 + 32 * n <= bytes@.len()
                &&& forall|i: int|
                    0 <= i < n ==> scalar_bytes(c@[i])@ == bytes@.subrange(
                        8 + 32 * i,
                        8 + 32 * i + 32,
                    )
            },
            forall|es: Seq<Scalar>|
                es.len() <= usize::MAX && bytes@ == spec_cmt_encode(es) ==> (r matches Ok(c)
                    && c@ == es),
            (r == Err::<ICCmt, CodecError>(CodecError::UnexpectedEnd)) <==> (bytes@.len() < 8 || 8 + 32 * (le_to_u64(
                bytes@.subrange(0, 8),
            ) as int) > bytes@.len()),
            r == Err::<ICCmt, CodecError>(CodecError::InvalidData) ==> {
                let n = le_to_u64(bytes@.subrange(0, 8)) as int;
                &&& 8 + 32 * n <= bytes@.len()
                &&& exists|i: int| 0 <= i < n && #[trigger] chunk_non_canonical(bytes@, i)
            },
    {
        if bytes.len() < 8 {
            return Err(CodecError::UnexpectedEnd);
        }
        let n64 = read_u64_le(bytes, 0);
        let avail = (bytes.len() - 8) / 32;
        if n64 > avail as u64 {
            proof {
                lemma_decode_short(bytes@, n64);
                let len = bytes@.len() as int;
                let q = (len - 8) / 32;
                assert(len - 8 < 32 * (q + 1)) by (nonlinear_arith)
                    requires
                        q == (len - 8) / 32,
                        len >= 8,
                ;
                assert(32 * (q + 1) <= 32 * (n64 as int)) by (nonlinear_arith)
                    requires
                        q + 1 <= n64,
                ;
            }
            return Err(CodecError::UnexpectedEnd);
        }
        let n = n64 as usize;
        proof {
            let len = bytes@.len() as int;
            assert(32 * ((len - 8) / 32) <= len - 8) by (nonlinear_arith)
                requires
                    len >= 8,
            ;
            assert(32 * (n as int) <= 32 * ((len - 8) / 32)) by (nonlinear_arith)
                requires
                    n <= (len - 8) / 32,
            ;
        }
        let mut v: Vec<Scalar> = Vec::new();
        let mut i: usize = 0;
        proof {
            assert(vstd::slice::spec_slice_len(bytes) == bytes@.len());
        }
        while i < n
            invariant
                bytes@.len() <= usize::MAX,
                bytes@.len() >= 8,
                n == le_to_u64(bytes@.subrange(0, 8)),
                8 + 32 * n <= bytes@.len(),
                i <= n,
                v@.len() == i,
                forall|j: int, e: Scalar|
                    0 <= j < i && scalar_bytes(e)@ == bytes@.subrange(8 + 32 * j, 8 + 32 * j + 32)
                        ==> v@[j] == e,
                forall|j: int|
                    0 <= j < i ==> scalar_bytes(v@[j])@ == bytes@.subrange(
                        8 + 32 * j,
                        8 + 32 * j + 32,
                    ),
            decreases n - i,
        {
            let chunk = slice_subrange(bytes, 8 + 32 * i, 8 + 32 * i + 32);
            match scalar_from_bytes(chunk) {
                Some(e) => {
                    v.push(e);
                },
                None => {
                    proof {
                        assert(chunk_non_canonical(bytes@, i as int));
                        lemma_decode_bad_chunk(bytes@, i as int);
                    }
                    return Err(CodecError::InvalidData);
                },
            }
            i = i + 1;
        }
        let c = Self { v };
        proof {
            assert forall|es: Seq<Scalar>|
                es.len() <= usize::MAX && bytes@ == spec_cmt_encode(es) implies c@ == es by {
                lemma_cmt_prefix(bytes@, es);
                assert forall|j: int| 0 <= j < es.len() implies c@[j] == es[j] by {
                    lemma_scalar_seq_bytes_chunk(es, j);
                    assert(scalar_bytes(es[j])@ =~= bytes@.subrange(8 + 32 * j, 8 + 32 * j + 32));
                }
                assert(c@ =~= es);
            }
        }
        Ok(c)
    }
}

/// No byte stream both encodes some vector and is too short for the
/// count its own prefix announces.
proof fn lemma_decode_short(bytes: Seq<u8>, n64: u64)
    requires
        bytes.len() >= 8,
        n64 == le_to_u64(bytes.subrange(0, 8)),
        !(8 + 32 * (n64 as int) <= bytes.len()),
    ensures
        forall|es: Seq<Scalar>|
            es.len() <= usize::MAX ==> bytes != spec_cmt_encode(es),
{
    assert forall|es: Seq<Scalar>|
        es.len() <= usize::MAX implies bytes != spec_cmt_encode(es) by {
        if bytes == spec_cmt_encode(es) {
            lemma_cmt_prefix(bytes, es);
        }
    }
}

/// If `bytes` encodes `es`, its count prefix reads back as `es.len()`
/// and the stream is exactly long enough for that many chunks.
proof fn lemma_cmt_prefix(bytes: Seq<u8>, es: Seq<Scalar>)
    requires
        es.len() <= usize::MAX,
        bytes == spec_cmt_encode(es),
    ensures
        bytes.len() == 8 + 32 * es.len(),
        le_to_u64(bytes.subrange(0, 8)) == es.len(),
        forall|j: int|
            0 <= j < es.len() ==> scalar_bytes(es[j])@ == bytes.subrange(
                8 + 32 * j,
                8 + 32 * j + 32,
            ),
{
    lemma_scalar_seq_bytes_len(es);
    assert(bytes.subrange(0, 8) =~= u64_le(es.len() as u64));
    lemma_u64_le_round_trip(es.len() as u64);
    assert forall|j: int| 0 <= j < es.len() implies scalar_bytes(es[j])@ == bytes.subrange(
        8 + 32 * j,
        8 + 32 * j + 32,
    ) by {
        lemma_scalar_seq_bytes_chunk(es, j);
        assert(bytes.subrange(8 + 32 * j, 8 + 32 * j + 32) =~= scalar_seq_bytes(es).subrange(
            32 * j,
            32 * j + 32,
        ));
    }
}

/// A stream whose chunk `i` is canonical for no element encodes no
/// vector.
proof fn lemma_decode_bad_chunk(bytes: Seq<u8>, i: int)
    requires
        bytes.len() >= 8,
        0 <= i,
        i < le_to_u64(bytes.subrange(0, 8)),
        8 + 32 * (le_to_u64(bytes.subrange(0, 8)) as int) <= bytes.len(),
        forall|e: Scalar| scalar_bytes(e)@ != bytes.subrange(8 + 32 * i, 8 + 32 * i + 32),
    ensures
        forall|es: Seq<Scalar>|
            es.len() <= usize::MAX ==> bytes != spec_cmt_encode(es),
{
    assert forall|es: Seq<Scalar>|
        es.len() <= usize::MAX implies bytes != spec_cmt_encode(es) by {
        if bytes == spec_cmt_encode(es) {
            lemma_cmt_prefix(bytes, es);
            lemma_u64_le_round_trip(es.len() as u64);
            assert(scalar_bytes(es[i])@ == bytes.subrange(8 + 32 * i, 8 + 32 * i + 32));
        }
    }
}

} // verus!
