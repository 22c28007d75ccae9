use flock_index::error::ProgramFault;
use flock_index::error::FlockError;
use flock_index::state::{
    decode_index, encode_index, index_pda, vault_pda, Index, Key, ACCOUNT_TAG_INDEX, COMPONENT_LEN,
    INDEX_LEN, REBALANCE_LEN, STATE_LIVE, STATE_PAUSED, STATE_VERSION,
};
use flock_index::guards::AccountView;
use flock_index::processor::{index_mut, index_mut_uninitialized, index_ref};
use solana_program::pubkey::Pubkey;

#[test]
fn layout_is_stable_and_padding_free() {
    assert_eq!(COMPONENT_LEN, 64);
    assert_eq!(REBALANCE_LEN, 72);
    assert_eq!(std::mem::align_of::<Index>(), 8);
    // 128 keys + 16 timestamps + 16 scalars + 46 name/symbol/flags + 2 pad + 1024 + 72.
    assert_eq!(Index::LEN, 1304);
}

#[test]
fn decode_rejects_a_foreign_account() {
    let bytes = vec![0u8; Index::LEN];
    assert!(decode_index(&bytes).is_err());
}

#[test]
fn decode_round_trips_through_bytes() {
    let mut idx = Index::zeroed();
    idx.tag = ACCOUNT_TAG_INDEX;
    idx.version = STATE_VERSION;
    idx.component_count = 2;
    idx.components[1].units = 4_321;
    let bytes = encode_index(&idx);
    let back = decode_index(&bytes).unwrap();
    assert_eq!(back.components().len(), 2);
    assert_eq!(back.components()[1].units, 4_321);
}

#[test]
fn encoding_is_exactly_the_record_length_and_keeps_every_field() {
    let mut idx = Index::zeroed();
    idx.tag = ACCOUNT_TAG_INDEX;
    idx.version = STATE_VERSION;
    idx.index_mint = Key::new([7u8; 32]);
    idx.governor = Key::new([8u8; 32]);
    idx.last_fee_accrual = -12;
    idx.rebalance_delay = 3_600;
    idx.streaming_fee_bps = 200;
    idx.state = STATE_LIVE;
    idx.name[0] = b'F';
    idx.components[15].target_units = u64::MAX;
    idx.rebalance.start_premium_bps = -50;
    idx.rebalance.active = 1;
    let bytes = encode_index(&idx);
    assert_eq!(bytes.len(), INDEX_LEN);
    // the tag and version sit at 156 and 157
    assert_eq!(bytes[156], ACCOUNT_TAG_INDEX);
    assert_eq!(bytes[157], STATE_VERSION);
    // the first key is the index mint
    assert_eq!(&bytes[0..32], &[7u8; 32]);
    let back = decode_index(&bytes).unwrap();
    assert!(back.governor.same(&Key::new([8u8; 32])));
    assert_eq!(back.last_fee_accrual, -12);
    assert_eq!(back.rebalance_delay, 3_600);
    assert_eq!(back.streaming_fee_bps, 200);
    assert_eq!(back.state, STATE_LIVE);
    assert_eq!(back.name[0], b'F');
    assert_eq!(back.components[15].target_units, u64::MAX);
    assert_eq!(back.rebalance.start_premium_bps, -50);
    assert_eq!(back.rebalance.active, 1);
    // and the bytes of the decoded record are the same bytes
    assert_eq!(encode_index(&back), bytes);
}

#[test]
fn decode_refuses_short_data_and_a_wrong_version() {
    let short = vec![0u8; Index::LEN - 1];
    assert_eq!(decode_index(&short).unwrap_err(), ProgramFault::AccountDataTooSmall);
    let mut idx = Index::zeroed();
    idx.tag = ACCOUNT_TAG_INDEX;
    idx.version = STATE_VERSION + 1;
    let bytes = encode_index(&idx);
    assert_eq!(
        decode_index(&bytes).unwrap_err(),
        ProgramFault::Flock(FlockError::InvalidAccountOwner)
    );
}

#[test]
fn component_lookup_and_liveness() {
    let mut idx = Index::zeroed();
    idx.component_count = 2;
    idx.components[0].mint = Key::new([1u8; 32]);
    idx.components[1].mint = Key::new([2u8; 32]);
    assert_eq!(idx.find_component(&Key::new([2u8; 32])), Some(1));
    assert_eq!(idx.find_component(&Key::new([3u8; 32])), None);
    assert!(idx.component(1).is_ok());
    assert_eq!(idx.component(2).unwrap_err(), ProgramFault::Flock(FlockError::UnknownComponent));
    assert_eq!(idx.is_live().unwrap_err(), ProgramFault::Flock(FlockError::NotSealed));
    idx.state = STATE_PAUSED;
    assert_eq!(idx.is_live().unwrap_err(), ProgramFault::Flock(FlockError::Paused));
    idx.state = STATE_LIVE;
    assert!(idx.is_live().is_ok());
}

#[test]
fn derived_addresses_match_the_runtime_derivation() {
    let program = Pubkey::new_from_array([9u8; 32]);
    let mint = Pubkey::new_from_array([4u8; 32]);
    let component = Pubkey::new_from_array([5u8; 32]);
    let (expect_index, expect_bump) =
        Pubkey::find_program_address(&[b"index", mint.as_ref()], &program);
    let (index, bump) = index_pda(&Key::new([9u8; 32]), &Key::new([4u8; 32])).unwrap();
    assert_eq!(index.bytes, expect_index.to_bytes());
    assert_eq!(bump, expect_bump);
    assert_ne!(index.bytes, [4u8; 32]);
    let (expect_vault, expect_vbump) =
        Pubkey::find_program_address(&[b"vault", mint.as_ref(), component.as_ref()], &program);
    let (vault, vbump) =
        vault_pda(&Key::new([9u8; 32]), &Key::new([4u8; 32]), &Key::new([5u8; 32])).unwrap();
    assert_eq!(vault.bytes, expect_vault.to_bytes());
    assert_eq!(vbump, expect_vbump);
}

#[test]
fn a_record_is_written_in_place_and_the_tail_is_kept() {
    let program = Key::new([9u8; 32]);
    let mut info = AccountView { key: Key::new([1u8; 32]), owner: program, is_signer: false, data: vec![7u8; INDEX_LEN + 3] };
    // not yet a record: only the uninitialized write takes it
    assert_eq!(
        index_mut(&mut info, &program, &Index::zeroed()).unwrap_err(),
        ProgramFault::Flock(FlockError::InvalidAccountOwner)
    );
    assert_eq!(info.data, vec![7u8; INDEX_LEN + 3]);
    let mut idx = Index::zeroed();
    idx.tag = ACCOUNT_TAG_INDEX;
    idx.version = STATE_VERSION;
    idx.redeem_fee_bps = 42;
    index_mut_uninitialized(&mut info, &idx).unwrap();
    assert_eq!(&info.data[INDEX_LEN..], &[7u8, 7, 7]);
    assert_eq!(index_ref(&info, &program).unwrap().redeem_fee_bps, 42);
    idx.redeem_fee_bps = 43;
    index_mut(&mut info, &program, &idx).unwrap();
    assert_eq!(decode_index(&info.data).unwrap().redeem_fee_bps, 43);
    assert_eq!(info.data.len(), INDEX_LEN + 3);
    // another program's account is refused and left alone
    let mut foreign = AccountView { owner: Key::new([3u8; 32]), ..info.clone() };
    let before = foreign.data.clone();
    assert!(index_mut(&mut foreign, &program, &Index::zeroed()).is_err());
    assert_eq!(foreign.data, before);
    let mut short = AccountView { data: vec![0u8; 10], ..info.clone() };
    assert_eq!(index_mut_uninitialized(&mut short, &idx).unwrap_err(), ProgramFault::AccountDataTooSmall);
}
