//! Blocks: a fixed header, then a length-delimited sequence of
//! fragments occupying exactly the declared content size.

use vstd::prelude::*;

use crate::bytes::be_bytes;
use crate::bytes::be_val;
use crate::bytes::copy_range;
use crate::bytes::lemma_be_val_bounds;
use crate::bytes::push_be;
use crate::bytes::push_bytes;
use crate::error::CoreError;
use crate::fragment::Fragment;
use crate::fragment::FragmentV;
use crate::fragment::Fragments;
use crate::fragment::dup_fragment;
use crate::fragment::spec_fragment_decode;
use crate::keys::dup_bytes;
use crate::primitives::BlockId;
use crate::primitives::PoolId;

verus! {

/// The mathematical model of a block.
pub ghost struct BlockV {
    pub content_size: u32,
    pub parent: Seq<u8>,
    pub epoch: u32,
    pub slot: u32,
    pub chain_length: u32,
    pub leader: Option<Seq<u8>>,
    pub fragments: Seq<FragmentV>,
}

/// A block: the header names its parent, its place on the timeline and
/// optionally its leader; the body carries the fragments.
#[derive(Clone, Debug)]
pub struct Block {
    pub content_size: u32,
    pub parent: BlockId,
    pub epoch: u32,
    pub slot: u32,
    pub chain_length: u32,
    pub leader: Option<PoolId>,
    pub fragments: Vec<Fragment>,
}

/// The models of a fragment vector, in order.
pub open spec fn fragments_of(s: Seq<Fragment>) -> Seq<FragmentV> {
    Seq::new(s.len(), |i: int| s[i]@)
}

impl View for Block {
    type V = BlockV;

    open spec fn view(&self) -> BlockV {
        BlockV {
            content_size: self.content_size,
            parent: self.parent.bytes@,
            epoch: self.epoch,
            slot: self.slot,
            chain_length: self.chain_length,
            leader: match &self.leader {
                Some(p) => Some(p.bytes@),
                None => None,
            },
            fragments: fragments_of(self.fragments@),
        }
    }
}

/// The canonical header bytes of a block: the content size, the parent
/// digest, epoch, slot and chain length, then the optional leader.
pub open spec fn block_header_bytes(m: BlockV) -> Seq<u8> {
    be_bytes(m.content_size as int, 4) + m.parent + be_bytes(m.epoch as int, 4) + be_bytes(
        m.slot as int,
        4,
    ) + be_bytes(m.chain_length as int, 4) + (match m.leader {
        None => seq![0u8],
        Some(l) => seq![1u8] + l,
    })
}

/// The fragment list denoted by the whole of `s`, each fragment behind
/// its own four-byte length.
pub open spec fn spec_frags_decode(s: Seq<u8>) -> Option<Seq<FragmentV>>
    decreases s.len(),
{
    if s.len() == 0 {
        Some(Seq::empty())
    } else if s.len() < 4 {
        None
    } else {
        let flen = be_val(s.subrange(0, 4));
        if flen < 1 || s.len() < 4 + flen {
            None
        } else {
            match spec_fragment_decode(s.subrange(4, 4 + flen)) {
                Some(f) => match spec_frags_decode(s.skip(4 + flen)) {
                    Some(fs) => Some(seq![f] + fs),
                    None => None,
                },
                None => None,
            }
        }
    }
}

/// Does `s` parse as a header whose declared content size exceeds what
/// is left after the header?  That is the one truncation failure.
pub open spec fn spec_block_truncated(s: Seq<u8>) -> bool {
    &&& s.len() >= 49
    &&& s[48] <= 1
    &&& s.len() >= 49 + (if s[48] == 1 { 32int } else { 0 })
    &&& s.len() - (49 + (if s[48] == 1 { 32int } else { 0 })) < be_val(s.subrange(0, 4))
}

/// The block denoted by `s`, if `s` is exactly one well-formed encoding.
pub open spec fn spec_block_decode(s: Seq<u8>) -> Option<BlockV> {
    if s.len() < 49 {
        None
    } else {
        let ltag = s[48];
        if ltag > 1 {
            None
        } else {
            let hdr_end: int = 49 + (if ltag == 1 {
                32int
            } else {
                0
            });
            if s.len() < hdr_end {
                None
            } else {
                let cs = be_val(s.subrange(0, 4));
                if s.len() - hdr_end != cs {
                    None
                } else {
                    match spec_frags_decode(s.skip(hdr_end)) {
                        Some(fs) => Some(
                            BlockV {
                                content_size: cs as u32,
                                parent: s.subrange(4, 36),
                                epoch: be_val(s.subrange(36, 40)) as u32,
                                slot: be_val(s.subrange(40, 44)) as u32,
                                chain_length: be_val(s.subrange(44, 48)) as u32,
                                leader: if ltag == 1 {
                                    Some(s.subrange(49, 81))
                                } else {
                                    None
                                },
                                fragments: fs,
                            },
                        ),
                        None => None,
                    }
                }
            }
        }
    }
}

/// Read a length-delimited fragment list occupying the whole of `b`.
fn frags_from_bytes(b: &[u8]) -> (r: Result<Vec<Fragment>, CoreError>)
    ensures
        match r {
            Ok(fs) => spec_frags_decode(b@) == Some(fragments_of(fs@)),
            Err(e) => spec_frags_decode(b@) is None && (e == CoreError::MalformedInput),
        },
    decreases b@.len(),
{
    if b.len() == 0 {
        let empty: Vec<Fragment> = Vec::new();
        proof {
            assert(fragments_of(empty@) =~= Seq::<FragmentV>::empty());
        }
        return Ok(empty);
    }
    if b.len() < 4 {
        return Err(CoreError::MalformedInput);
    }
    let flen_wide = crate::bytes::read_be(b, 0, 4);
    proof {
        lemma_be_val_bounds(b@.subrange(0, 4));
        assert(crate::bytes::pow256(4) == 0x1_0000_0000) by {
            reveal_with_fuel(crate::bytes::pow256, 5);
        }
    }
    let flen = flen_wide as usize;
    if flen < 1 || b.len() - 4 < flen {
        return Err(CoreError::MalformedInput);
    }
    let fb = vstd::slice::slice_subrange(b, 4, 4 + flen);
    proof {
        assert(fb@ =~= b@.subrange(4, 4 + flen));
    }
    let f = match Fragment::from_bytes(fb) {
        Ok(f) => f,
        Err(_) => {
            return Err(CoreError::MalformedInput);
        },
    };
    let rest = vstd::slice::slice_subrange(b, 4 + flen, b.len());
    proof {
        assert(rest@ =~= b@.skip(4 + flen));
    }
    match frags_from_bytes(rest) {
        Ok(mut fs) => {
            let ghost prev = fs@;
            fs.insert(0, f);
            proof {
                assert(fragments_of(fs@) =~= seq![f@] + fragments_of(prev));
            }
            Ok(fs)
        },
        Err(e) => Err(e),
    }
}

impl Block {
    /// Read a block from its canonical bytes.  A buffer holding less
    /// content than the header declares is reported as truncated.
    pub fn from_bytes(bytes: &[u8]) -> (r: Result<Block, CoreError>)
        ensures
            match r {
                Ok(b) => spec_block_decode(bytes@) == Some(b@),
                Err(e) => {
                    &&& spec_block_decode(bytes@) is None
                    &&& (e == if spec_block_truncated(bytes@) {
                        CoreError::TruncatedBlock
                    } else {
                        CoreError::MalformedInput
                    })
                },
            },
    {
        if bytes.len() < 49 {
            return Err(CoreError::MalformedInput);
        }
        let ltag = bytes[48];
        if ltag > 1 {
            return Err(CoreError::MalformedInput);
        }
        let hdr_end: usize = if ltag == 1 {
            81
        } else {
            49
        };
        if bytes.len() < hdr_end {
            return Err(CoreError::MalformedInput);
        }
        let cs_wide = crate::bytes::read_be(bytes, 0, 4);
        proof {
            lemma_be_val_bounds(bytes@.subrange(0, 4));
            assert(crate::bytes::pow256(4) == 0x1_0000_0000) by {
                reveal_with_fuel(crate::bytes::pow256, 5);
            }
        }
        let cs = cs_wide as u32;
        if bytes.len() - hdr_end < cs as usize {
            return Err(CoreError::TruncatedBlock);
        }
        if bytes.len() - hdr_end > cs as usize {
            return Err(CoreError::MalformedInput);
        }
        let parent = copy_range(bytes, 4, 32);
        let epoch = crate::bytes::read_be(bytes, 36, 4) as u32;
        let slot = crate::bytes::read_be(bytes, 40, 4) as u32;
        let chain_length = crate::bytes::read_be(bytes, 44, 4) as u32;
        proof {
            lemma_be_val_bounds(bytes@.subrange(36, 40));
            lemma_be_val_bounds(bytes@.subrange(40, 44));
            lemma_be_val_bounds(bytes@.subrange(44, 48));
        }
        let leader: Option<PoolId> = if ltag == 1 {
            Some(PoolId { bytes: copy_range(bytes, 49, 32) })
        } else {
            None
        };
        let body = vstd::slice::slice_subrange(bytes, hdr_end, bytes.len());
        proof {
            assert(body@ =~= bytes@.skip(hdr_end as int));
        }
        let fragments = match frags_from_bytes(body) {
            Ok(fs) => fs,
            Err(_) => {
                return Err(CoreError::MalformedInput);
            },
        };
        Ok(
            Block {
                content_size: cs,
                parent: BlockId { bytes: parent },
                epoch,
                slot,
                chain_length,
                leader,
                fragments,
            },
        )
    }

    /// The content-addressed identifier: the digest of the header bytes.
    pub fn id(&self) -> (r: BlockId)
        requires
            self.parent.wf(),
        ensures
            r.bytes@ == crate::crypto::blake2b256_of(block_header_bytes(self@)),
            r.wf(),
    {
        let mut v: Vec<u8> = Vec::new();
        push_be(&mut v, self.content_size as u128, 4);
        push_bytes(&mut v, self.parent.bytes.as_slice());
        push_be(&mut v, self.epoch as u128, 4);
        push_be(&mut v, self.slot as u128, 4);
        push_be(&mut v, self.chain_length as u128, 4);
        match &self.leader {
            None => v.push(0),
            Some(l) => {
                v.push(1);
                push_bytes(&mut v, l.bytes.as_slice());
            },
        }
        proof {
            assert(v@ =~= block_header_bytes(self@));
        }
        BlockId { bytes: crate::crypto::blake2b_256(v.as_slice()) }
    }

    /// The parent block's identifier.
    pub fn parent_id(&self) -> (r: BlockId)
        ensures
            r.bytes@ == self@.parent,
    {
        BlockId { bytes: dup_bytes(&self.parent.bytes) }
    }

    /// The fragments, in order.
    pub fn fragments(&self) -> (r: Fragments)
        ensures
            fragments_of(r.items@) == self@.fragments,
    {
        let mut items: Vec<Fragment> = Vec::new();
        let mut i: usize = 0;
        while i < self.fragments.len()
            invariant
                0 <= i <= self.fragments@.len(),
                items@.len() == i,
                forall|k: int| 0 <= k < i ==> #[trigger] items@[k]@ == self.fragments@[k]@,
            decreases self.fragments@.len() - i,
        {
            items.push(dup_fragment(&self.fragments[i]));
            i = i + 1;
        }
        proof {
            assert(fragments_of(items@) =~= fragments_of(self.fragments@));
        }
        Fragments { items }
    }

    /// The epoch the block sits in.
    pub fn epoch(&self) -> (r: u32)
        ensures
            r == self@.epoch,
    {
        self.epoch
    }

    /// The slot within the epoch.
    pub fn slot(&self) -> (r: u32)
        ensures
            r == self@.slot,
    {
        self.slot
    }

    /// How many blocks precede this one.
    pub fn chain_length(&self) -> (r: u32)
        ensures
            r == self@.chain_length,
    {
        self.chain_length
    }

    /// The pool that made the block, where the header names one.
    pub fn leader_id(&self) -> (r: Option<PoolId>)
        ensures
            match self@.leader {
                Some(l) => r matches Some(p) && p.bytes@ == l,
                None => r is None,
            },
    {
        match &self.leader {
            Some(p) => Some(PoolId { bytes: dup_bytes(&p.bytes) }),
            None => None,
        }
    }

    /// How many bytes of fragments the block declares.
    pub fn content_size(&self) -> (r: u32)
        ensures
            r == self@.content_size,
    {
        self.content_size
    }
}

} // verus!
