use chain_tx::block::Block;
use chain_tx::error::CoreError;
use chain_tx::fragment::Fragment;

/// A block holding one initial fragment, with the given leader flag.
fn block_bytes(with_leader: bool, content_shortfall: usize) -> Vec<u8> {
    // fragment: initial with payload [1, 2, 3]
    let fragment = Fragment::Initial(vec![1, 2, 3]);
    let fb = fragment.as_bytes().unwrap();
    let mut region: Vec<u8> = (fb.len() as u32).to_be_bytes().to_vec();
    region.extend(&fb);
    let declared = region.len() - content_shortfall;

    let mut bytes: Vec<u8> = (declared as u32).to_be_bytes().to_vec();
    bytes.extend([0x11u8; 32]); // parent
    bytes.extend(5u32.to_be_bytes()); // epoch
    bytes.extend(9u32.to_be_bytes()); // slot
    bytes.extend(2u32.to_be_bytes()); // chain length
    if with_leader {
        bytes.push(1);
        bytes.extend([0x22u8; 32]);
    } else {
        bytes.push(0);
    }
    if content_shortfall == 0 {
        bytes.extend(&region);
    } else {
        bytes.extend(&region[..declared]);
    }
    bytes
}

#[test]
fn block_decodes_header_and_fragments() {
    let bytes = block_bytes(true, 0);
    let block = Block::from_bytes(&bytes).unwrap();
    assert_eq!(block.epoch(), 5);
    assert_eq!(block.slot(), 9);
    assert_eq!(block.chain_length(), 2);
    assert_eq!(block.content_size(), 8);
    assert_eq!(block.parent_id().as_bytes(), vec![0x11; 32]);
    assert_eq!(block.leader_id().unwrap().as_bytes(), vec![0x22; 32]);
    let fragments = block.fragments();
    assert_eq!(fragments.size(), 1);
    assert!(fragments.get(0).is_initial());
}

#[test]
fn block_without_leader() {
    let bytes = block_bytes(false, 0);
    let block = Block::from_bytes(&bytes).unwrap();
    assert!(block.leader_id().is_none());
    // the id is a digest of the header, stable across reads
    let again = Block::from_bytes(&bytes).unwrap();
    assert_eq!(block.id().as_bytes(), again.id().as_bytes());
    assert_ne!(block.id().as_bytes(), block.parent_id().as_bytes());
}

#[test]
fn block_truncated_content_is_reported() {
    // declare one byte more content than the buffer carries
    let mut bytes = block_bytes(false, 0);
    let declared = u32::from_be_bytes([bytes[0], bytes[1], bytes[2], bytes[3]]) + 1;
    bytes[0..4].copy_from_slice(&declared.to_be_bytes());
    assert!(matches!(Block::from_bytes(&bytes), Err(CoreError::TruncatedBlock)));
}

#[test]
fn block_rejects_short_header() {
    assert!(matches!(Block::from_bytes(&[0u8; 10]), Err(CoreError::MalformedInput)));
}

#[test]
fn old_utxo_declaration_fragment_round_trip() {
    let decl_fragment: Vec<u8> = {
        // tag 1, two entries: (3-byte address, value 7), (1-byte address, value 9)
        let mut v = vec![1u8, 2u8];
        v.extend([0, 3]);
        v.extend([0xAB, 0xCD, 0xEF]);
        v.extend(7u64.to_be_bytes());
        v.extend([0, 1]);
        v.extend([0x5A]);
        v.extend(9u64.to_be_bytes());
        v
    };
    let fragment = Fragment::from_bytes(&decl_fragment).unwrap();
    assert!(fragment.is_old_utxo_declaration());
    let decl = fragment.get_old_utxo_declaration().unwrap();
    assert_eq!(decl.size(), 2);
    assert_eq!(decl.get_address(0), "abcdef");
    assert_eq!(decl.get_value(0).as_u64(), 7);
    assert_eq!(decl.get_address(1), "5a");
    assert_eq!(decl.get_value(1).as_u64(), 9);
    assert_eq!(fragment.as_bytes().unwrap(), decl_fragment);
}

#[test]
fn update_fragments_round_trip() {
    let proposal = Fragment::UpdateProposal(vec![9, 9, 9]);
    assert!(proposal.is_update_proposal());
    let bytes = proposal.as_bytes().unwrap();
    let back = Fragment::from_bytes(&bytes).unwrap();
    assert!(back.is_update_proposal());
    assert!(!back.is_update_vote());

    let vote = Fragment::UpdateVote(vec![1]);
    assert!(vote.is_update_vote());
    let vb = vote.as_bytes().unwrap();
    assert!(Fragment::from_bytes(&vb).unwrap().is_update_vote());
}
