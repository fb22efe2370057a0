use vstd::prelude::*;
use crate::bytes::{u64_le, le_to_u64, write_u64_le, read_u64_le, lemma_u64_le_round_trip,
    CodecError};

verus! {

/// Classification of one memory region of the arithmetized machine:
/// visibility (public or private), mutability (ROM or RAM) or stack,
/// together with an identifying tag and the width of one element.
/// A stack region is always private; no public stack is representable.
#[derive(Clone, Debug, PartialEq, Eq, PartialOrd, Ord, Structural)]
pub enum MemType {
    Stack(usize, usize),
    PubROM(usize, usize),
    PubRAM(usize, usize),
    PrivROM(usize, usize),
    PrivRAM(usize, usize),
}

/// Canonical one-byte discriminant of the variant, as it stands first
/// in the byte encoding.
pub open spec fn spec_disc(m: MemType) -> u8 {
    match m {
        MemType::PubROM(..) => 0,
        MemType::PubRAM(..) => 1,
        MemType::PrivROM(..) => 2,
        MemType::PrivRAM(..) => 3,
        MemType::Stack(..) => 4,
    }
}

/// The identifying tag carried by the variant.
pub open spec fn spec_tag(m: MemType) -> usize {
    match m {
        MemType::PubROM(t, _) => t,
        MemType::PubRAM(t, _) => t,
        MemType::PrivROM(t, _) => t,
        MemType::PrivRAM(t, _) => t,
        MemType::Stack(t, _) => t,
    }
}

/// The element width carried by the variant.
pub open spec fn spec_elem_len(m: MemType) -> usize {
    match m {
        MemType::PubROM(_, l) => l,
        MemType::PubRAM(_, l) => l,
        MemType::PrivROM(_, l) => l,
        MemType::PrivRAM(_, l) => l,
        MemType::Stack(_, l) => l,
    }
}

/// Rebuilds the variant with discriminant `d` from its two fields.
pub open spec fn spec_from_parts(d: u8, t: usize, l: usize) -> MemType
    recommends
        d <= 4,
{
    if d == 0 {
        MemType::PubROM(t, l)
    } else if d == 1 {
        MemType::PubRAM(t, l)
    } else if d == 2 {
        MemType::PrivROM(t, l)
    } else if d == 3 {
        MemType::PrivRAM(t, l)
    } else {
        MemType::Stack(t, l)
    }
}

/// Canonical byte encoding: discriminant byte, then `tag`, then
/// `elem_len`, each integer as eight little-endian bytes.
pub open spec fn spec_encode(m: MemType) -> Seq<u8> {
    seq![spec_disc(m)] + u64_le(spec_tag(m) as u64) + u64_le(spec_elem_len(m) as u64)
}

/// Canonical decoding of a byte stream that starts with an encoded
/// MemType; bytes past the first seventeen are ignored.
pub open spec fn spec_decode(s: Seq<u8>) -> Result<MemType, CodecError> {
    if s.len() < 17 {
        Err(CodecError::UnexpectedEnd)
    } else if s[0] > 4 {
        Err(CodecError::InvalidData)
    } else {
        let t = le_to_u64(s.subrange(1, 9));
        let l = le_to_u64(s.subrange(9, 17));
        if t > usize::MAX || l > usize::MAX {
            Err(CodecError::InvalidData)
        } else {
            Ok(spec_from_parts(s[0], t as usize, l as usize))
        }
    }
}

impl MemType {
    /// A private random-access region.
    pub fn priv_ram(tag: usize, elem_len: usize) -> (r: Self)
        ensures
            r == MemType::PrivRAM(tag, elem_len),
    {
        MemType::PrivRAM(tag, elem_len)
    }

    /// A private read-only region.
    pub fn priv_rom(tag: usize, elem_len: usize) -> (r: Self)
        ensures
            r == MemType::PrivROM(tag, elem_len),
    {
        MemType::PrivROM(tag, elem_len)
    }

    /// A public random-access region.
    pub fn pub_ram(tag: usize, elem_len: usize) -> (r: Self)
        ensures
            r == MemType::PubRAM(tag, elem_len),
    {
        MemType::PubRAM(tag, elem_len)
    }

    /// A public read-only region.
    pub fn pub_rom(tag: usize, elem_len: usize) -> (r: Self)
        ensures
            r == MemType::PubROM(tag, elem_len),
    {
        MemType::PubROM(tag, elem_len)
    }

    /// A stack region, which is private by construction.
    pub fn stack(tag: usize, elem_len: usize) -> (r: Self)
        ensures
            r == MemType::Stack(tag, elem_len),
    {
        MemType::Stack(tag, elem_len)
    }

    /// Maps explicit `(private, ram, stack)` flags to the variant they
    /// name. A stack is always private and never RAM, so `stack`
    /// demands `private && !ram`; the other combinations are invalid
    /// and excluded by contract rather than reinterpreted.
    pub fn new(private: bool, ram: bool, stack: bool, tag: usize, elem_len: usize) -> (r: Self)
        requires
            stack ==> private && !ram,
        ensures
            r == if stack {
                MemType::Stack(tag, elem_len)
            } else if private && ram {
                MemType::PrivRAM(tag, elem_len)
            } else if private {
                MemType::PrivROM(tag, elem_len)
            } else if ram {
                MemType::PubRAM(tag, elem_len)
            } else {
                MemType::PubROM(tag, elem_len)
            },
    {
        if stack {
            MemType::Stack(tag, elem_len)
        } else if private && ram {
            MemType::PrivRAM(tag, elem_len)
        } else if private {
            MemType::PrivROM(tag, elem_len)
        } else if ram {
            MemType::PubRAM(tag, elem_len)
        } else {
            MemType::PubROM(tag, elem_len)
        }
    }

    /// Rewrites the tag in place, keeping the variant and the element
    /// width, and returns the tag that was replaced.
    pub fn tag_replace(&mut self, sr_tag: usize) -> (r: usize)
        ensures
            r == spec_tag(*old(self)),
            spec_tag(*final(self)) == sr_tag,
            spec_disc(*final(self)) == spec_disc(*old(self)),
            spec_elem_len(*final(self)) == spec_elem_len(*old(self)),
    {
        let (t, m) = match &*self {
            MemType::PubROM(t, l) => (*t, MemType::PubROM(sr_tag, *l)),
            MemType::PubRAM(t, l) => (*t, MemType::PubRAM(sr_tag, *l)),
            MemType::PrivROM(t, l) => (*t, MemType::PrivROM(sr_tag, *l)),
            MemType::PrivRAM(t, l) => (*t, MemType::PrivRAM(sr_tag, *l)),
            MemType::Stack(t, l) => (*t, MemType::Stack(sr_tag, *l)),
        };
        *self = m;
        t
    }

    /// The width of one element of the region.
    pub fn elem_len(&self) -> (r: usize)
        ensures
            r == spec_elem_len(*self),
    {
        match self {
            MemType::PubROM(_, l) => *l,
            MemType::PubRAM(_, l) => *l,
            MemType::PrivROM(_, l) => *l,
            MemType::PrivRAM(_, l) => *l,
            MemType::Stack(_, l) => *l,
        }
    }

    /// The identifying tag of the region.
    pub fn tag(&self) -> (r: usize)
        ensures
            r == spec_tag(*self),
    {
        match self {
            MemType::PubROM(t, _) => *t,
            MemType::PubRAM(t, _) => *t,
            MemType::PrivROM(t, _) => *t,
            MemType::PrivRAM(t, _) => *t,
            MemType::Stack(t, _) => *t,
        }
    }

    /// Whether the region is the stack.
    pub fn is_stack(&self) -> (r: bool)
        ensures
            r == (spec_disc(*self) == 4),
    {
        match self {
            MemType::Stack(_, _) => true,
            _ => false,
        }
    }

    /// Canonical byte encoding of the value.
    pub fn encode(&self) -> (r: Vec<u8>)
        ensures
            r@ == spec_encode(*self),
    {
        let (ty, tag, len): (u8, usize, usize) = match self {
            MemType::PubROM(tag, len) => (0, *tag, *len),
            MemType::PubRAM(tag, len) => (1, *tag, *len),
            MemType::PrivROM(tag, len) => (2, *tag, *len),
            MemType::PrivRAM(tag, len) => (3, *tag, *len),
            MemType::Stack(tag, len) => (4, *tag, *len),
        };
        let mut out: Vec<u8> = Vec::new();
        out.push(ty);
        write_u64_le(&mut out, tag as u64);
        write_u64_le(&mut out, len as u64);
        proof {
            assert(out@ =~= spec_encode(*self));
        }
        out
    }

    /// Canonical decoding. The discriminant byte must be at most 4;
    /// any other value is invalid data. Trailing bytes are ignored.
    pub fn decode(bytes: &[u8]) -> (r: Result<Self, CodecError>)
        ensures
            r == spec_decode(bytes@),
    {
        if bytes.len() < 17 {
            return Err(CodecError::UnexpectedEnd);
        }
        let ty = bytes[0];
        if ty > 4 {
            return Err(CodecError::InvalidData);
        }
        let t64 = read_u64_le(bytes, 1);
        let l64 = read_u64_le(bytes, 9);
        if t64 > usize::MAX as u64 || l64 > usize::MAX as u64 {
            return Err(CodecError::InvalidData);
        }
        let t = t64 as usize;
        let l = l64 as usize;
        let m = if ty == 0 {
            MemType::PubROM(t, l)
        } else if ty == 1 {
            MemType::PubRAM(t, l)
        } else if ty == 2 {
            MemType::PrivROM(t, l)
        } else if ty == 3 {
            MemType::PrivRAM(t, l)
        } else {
            MemType::Stack(t, l)
        };
        Ok(m)
    }
}

/// Law: the canonical encoding of a MemType decodes back to exactly
/// that value, for every variant and every `(tag, elem_len)` pair.
pub proof fn lemma_mem_type_round_trip(m: MemType)
    ensures
        spec_decode(spec_encode(m)) == Ok::<MemType, CodecError>(m),
{
    let s = spec_encode(m);
    assert(s.len() == 17);
    assert(s[0] == spec_disc(m));
    assert(s.subrange(1, 9) =~= u64_le(spec_tag(m) as u64));
    assert(s.subrange(9, 17) =~= u64_le(spec_elem_len(m) as u64));
    lemma_u64_le_round_trip(spec_tag(m) as u64);
    lemma_u64_le_round_trip(spec_elem_len(m) as u64);
    assert(spec_from_parts(spec_disc(m), spec_tag(m), spec_elem_len(m)) == m);
}

} // verus!
