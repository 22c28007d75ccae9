use flock_index::error::{FlockError, ProgramFault};
use flock_index::guards::{
    read_mint, read_token_account, require_key, require_signer, require_system_program,
    require_token_account, require_token_account_of_mint, require_token_program, system_program_key,
    token_program_key, AccountView,
};
use flock_index::state::Key;
use solana_program::program_option::COption;
use solana_program::program_pack::Pack;
use solana_program::pubkey::Pubkey;
use spl_token::state::{Account, AccountState, Mint};

fn token_account_bytes(mint: [u8; 32], owner: [u8; 32], amount: u64) -> Vec<u8> {
    let mut data = vec![0u8; Account::LEN];
    Account::pack(
        Account {
            mint: Pubkey::new_from_array(mint),
            owner: Pubkey::new_from_array(owner),
            amount,
            delegate: COption::None,
            state: AccountState::Initialized,
            is_native: COption::None,
            delegated_amount: 0,
            close_authority: COption::None,
        },
        &mut data,
    )
    .unwrap();
    data
}

fn view(owner: Key, data: Vec<u8>) -> AccountView {
    AccountView { key: Key::new([1u8; 32]), owner, is_signer: false, data }
}

const INVALID_TOKEN_ACCOUNT: ProgramFault = ProgramFault::Flock(FlockError::InvalidTokenAccount);

#[test]
fn program_ids_are_the_declared_addresses() {
    assert_eq!(
        token_program_key().bytes,
        [
            6, 221, 246, 225, 215, 101, 161, 147, 217, 203, 225, 70, 206, 235, 121, 172, 28, 180, 133,
            237, 95, 91, 55, 145, 58, 140, 245, 133, 126, 255, 0, 169
        ]
    );
    assert_eq!(system_program_key().bytes, [0u8; 32]);
}

#[test]
fn a_token_account_reads_back_its_fields() {
    let info = view(token_program_key(), token_account_bytes([4u8; 32], [5u8; 32], 77));
    let acct = read_token_account(&info).unwrap();
    assert_eq!(acct.mint.bytes, [4u8; 32]);
    assert_eq!(acct.owner.bytes, [5u8; 32]);
    assert_eq!(acct.amount, 77);
    assert!(require_token_account(&info, &Key::new([4u8; 32]), &Key::new([5u8; 32])).is_ok());
    assert_eq!(
        require_token_account(&info, &Key::new([4u8; 32]), &Key::new([6u8; 32])).unwrap_err(),
        INVALID_TOKEN_ACCOUNT
    );
    assert!(require_token_account_of_mint(&info, &Key::new([4u8; 32])).is_ok());
    assert_eq!(
        require_token_account_of_mint(&info, &Key::new([9u8; 32])).unwrap_err(),
        INVALID_TOKEN_ACCOUNT
    );
}

#[test]
fn token_data_under_another_owner_or_malformed_is_refused() {
    let foreign = view(Key::new([3u8; 32]), token_account_bytes([4u8; 32], [5u8; 32], 77));
    assert_eq!(read_token_account(&foreign).unwrap_err(), INVALID_TOKEN_ACCOUNT);
    let short = view(token_program_key(), vec![0u8; 10]);
    assert_eq!(read_token_account(&short).unwrap_err(), INVALID_TOKEN_ACCOUNT);
    let uninitialized = view(token_program_key(), vec![0u8; Account::LEN]);
    assert_eq!(read_token_account(&uninitialized).unwrap_err(), INVALID_TOKEN_ACCOUNT);
}

#[test]
fn a_mint_reads_back_its_fields() {
    let mut data = vec![0u8; Mint::LEN];
    Mint::pack(
        Mint {
            mint_authority: COption::Some(Pubkey::new_from_array([8u8; 32])),
            supply: 1_234,
            decimals: 9,
            is_initialized: true,
            freeze_authority: COption::None,
        },
        &mut data,
    )
    .unwrap();
    let m = read_mint(&view(token_program_key(), data)).unwrap();
    assert_eq!(m.mint_authority.unwrap().bytes, [8u8; 32]);
    assert_eq!(m.supply, 1_234);
    assert_eq!(m.decimals, 9);
    assert!(m.freeze_authority.is_none());
    assert_eq!(read_mint(&view(token_program_key(), vec![1u8; 3])).unwrap_err(), INVALID_TOKEN_ACCOUNT);
}

#[test]
fn signer_key_and_program_checks() {
    let mut info = view(token_program_key(), vec![]);
    assert_eq!(require_signer(&info).unwrap_err(), ProgramFault::Flock(FlockError::MissingSignature));
    info.is_signer = true;
    assert!(require_signer(&info).is_ok());
    assert!(require_key(&info, &Key::new([1u8; 32])).is_ok());
    assert_eq!(
        require_key(&info, &Key::new([2u8; 32])).unwrap_err(),
        ProgramFault::Flock(FlockError::SeedsMismatch)
    );
    let tp = AccountView { key: token_program_key(), owner: Key::zero(), is_signer: false, data: vec![] };
    assert!(require_token_program(&tp).is_ok());
    assert_eq!(require_token_program(&info).unwrap_err(), INVALID_TOKEN_ACCOUNT);
    let sp = AccountView { key: system_program_key(), owner: Key::zero(), is_signer: false, data: vec![] };
    assert!(require_system_program(&sp).is_ok());
    assert_eq!(require_system_program(&tp).unwrap_err(), INVALID_TOKEN_ACCOUNT);
}

#[test]
fn error_codes_are_the_numbered_variants() {
    assert_eq!(FlockError::InvalidAccountOwner.code(), 0);
    assert_eq!(FlockError::InvalidTokenAccount.code(), 11);
    assert_eq!(FlockError::InvalidIndexMint.code(), 12);
    assert_eq!(FlockError::NavFloorBreached.code(), 21);
    assert_eq!(FlockError::StaleProposal.code(), 27);
    assert_eq!(FlockError::BuyAmountExceedsCap.code(), 31);
}

#[test]
fn token_bytes_are_read_at_the_layout_offsets() {
    let mut data = token_account_bytes([4u8; 32], [5u8; 32], 0x0102_0304_0506_0708);
    assert_eq!(&data[64..72], &[8, 7, 6, 5, 4, 3, 2, 1]);
    // frozen still reads
    data[108] = 2;
    assert_eq!(read_token_account(&view(token_program_key(), data.clone())).unwrap().amount, 0x0102_0304_0506_0708);
    // an unknown state, or a bad option tag, is refused
    let mut bad_state = data.clone();
    bad_state[108] = 3;
    assert_eq!(read_token_account(&view(token_program_key(), bad_state)).unwrap_err(), INVALID_TOKEN_ACCOUNT);
    let mut bad_tag = data.clone();
    bad_tag[72] = 2;
    assert_eq!(read_token_account(&view(token_program_key(), bad_tag)).unwrap_err(), INVALID_TOKEN_ACCOUNT);
    let mut bad_close = data;
    bad_close[130] = 1;
    assert_eq!(read_token_account(&view(token_program_key(), bad_close)).unwrap_err(), INVALID_TOKEN_ACCOUNT);

    let mut mint = vec![0u8; Mint::LEN];
    mint[0] = 1;
    mint[4..36].copy_from_slice(&[6u8; 32]);
    mint[36..44].copy_from_slice(&500u64.to_le_bytes());
    mint[44] = 6;
    mint[45] = 1;
    let m = read_mint(&view(token_program_key(), mint.clone())).unwrap();
    assert_eq!(m.mint_authority.unwrap().bytes, [6u8; 32]);
    assert_eq!((m.supply, m.decimals), (500, 6));
    assert!(m.freeze_authority.is_none());
    let mut uninitialized = mint.clone();
    uninitialized[45] = 0;
    assert_eq!(read_mint(&view(token_program_key(), uninitialized)).unwrap_err(), INVALID_TOKEN_ACCOUNT);
    let mut bad_freeze = mint;
    bad_freeze[46] = 7;
    assert_eq!(read_mint(&view(token_program_key(), bad_freeze)).unwrap_err(), INVALID_TOKEN_ACCOUNT);
}
