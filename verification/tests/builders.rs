use flock_index::builders::{
    accrue_fees, add_component, bid, end_rebalance, fixed, init_index, issue, propose_rebalance,
    redeem, seal_index, set_authority, set_params, set_paused, AuctionArgs, InitArgs,
};
use flock_index::instruction::FlockInstruction;
use flock_index::state::{index_pda, vault_pda, Key};
use solana_program::pubkey::Pubkey;

fn key(b: u8) -> Key {
    Key::new([b; 32])
}

fn token_program() -> [u8; 32] {
    spl_token::id().to_bytes()
}

#[test]
fn fixed_pads_and_cuts() {
    let a: [u8; 8] = fixed("abc");
    assert_eq!(a, [b'a', b'b', b'c', 0, 0, 0, 0, 0]);
    let b: [u8; 2] = fixed("abc");
    assert_eq!(b, [b'a', b'b']);
    let c: [u8; 4] = fixed("");
    assert_eq!(c, [0u8; 4]);
}

#[test]
fn init_index_lists_its_accounts_in_order() {
    let args = InitArgs {
        name: fixed("Flock"),
        symbol: fixed("FLK"),
        streaming_fee_bps: 100,
        issue_fee_bps: 10,
        redeem_fee_bps: 20,
        max_premium_bps: 300,
        rebalance_delay: 3_600,
    };
    let ix = init_index(&key(9), &key(1), &key(2), &key(3), &key(4), &key(5), args).unwrap();
    let (index, _) = index_pda(&key(9), &key(2)).unwrap();
    assert_eq!(ix.program_id, key(9));
    assert_eq!(ix.accounts.len(), 7);
    assert!(ix.accounts[0].is_signer && ix.accounts[0].is_writable);
    assert_eq!(ix.accounts[0].pubkey, key(1));
    assert_eq!(ix.accounts[1].pubkey, index);
    assert!(!ix.accounts[1].is_signer && ix.accounts[1].is_writable);
    assert_eq!(ix.accounts[2].pubkey, key(2));
    assert_eq!(ix.accounts[5].pubkey, key(5));
    assert_eq!(ix.accounts[6].pubkey.bytes, solana_program::system_program::id().to_bytes());
    match ix.data {
        FlockInstruction::InitIndex { name, streaming_fee_bps, rebalance_delay, .. } => {
            assert_eq!(&name[..5], b"Flock");
            assert_eq!(streaming_fee_bps, 100);
            assert_eq!(rebalance_delay, 3_600);
        }
        other => panic!("unexpected {other:?}"),
    }
}

#[test]
fn add_component_derives_the_vault() {
    let ix = add_component(&key(9), &key(4), &key(1), &key(2), &key(6), 2_000_000).unwrap();
    let (vault, _) = vault_pda(&key(9), &key(2), &key(6)).unwrap();
    let expect = Pubkey::find_program_address(
        &[b"vault", &[2u8; 32], &[6u8; 32]],
        &Pubkey::new_from_array([9u8; 32]),
    )
    .0;
    assert_eq!(vault.bytes, expect.to_bytes());
    assert_eq!(ix.accounts.len(), 8);
    assert!(ix.accounts[0].is_signer && !ix.accounts[0].is_writable);
    assert_eq!(ix.accounts[5].pubkey, vault);
    assert!(ix.accounts[5].is_writable);
    assert_eq!(ix.accounts[7].pubkey.bytes, token_program());
    assert_eq!(ix.data, FlockInstruction::AddComponent { units: 2_000_000 });
}

#[test]
fn issue_and_redeem_interleave_vaults_and_user_accounts() {
    let comps = [(key(6), key(16)), (key(7), key(17))];
    let ix = issue(&key(9), &key(1), &key(2), &key(3), &key(4), &comps, 10, vec![5, 6]).unwrap();
    assert_eq!(ix.accounts.len(), 10);
    assert!(ix.accounts[0].is_signer);
    assert_eq!(ix.accounts[5].pubkey.bytes, token_program());
    assert_eq!(ix.accounts[6].pubkey, vault_pda(&key(9), &key(2), &key(6)).unwrap().0);
    assert_eq!(ix.accounts[7].pubkey, key(16));
    assert_eq!(ix.accounts[8].pubkey, vault_pda(&key(9), &key(2), &key(7)).unwrap().0);
    assert_eq!(ix.accounts[9].pubkey, key(17));
    assert!(ix.accounts[9].is_writable);
    assert_eq!(ix.data, FlockInstruction::Issue { amount: 10, max_in: vec![5, 6] });
    let rx = redeem(&key(9), &key(1), &key(2), &key(3), &key(4), &comps, 10, vec![1, 2]).unwrap();
    assert_eq!(rx.accounts, ix.accounts);
    assert_eq!(rx.data, FlockInstruction::Redeem { amount: 10, min_out: vec![1, 2] });
}

#[test]
fn auction_builders_list_vaults_after_the_head() {
    let mints = [key(6), key(7)];
    let args = AuctionArgs { duration: 3_600, start_premium_bps: -50, end_premium_bps: 100, max_nav_loss_bps: 100 };
    let px = propose_rebalance(&key(9), &key(4), &key(2), &mints, vec![1, 2], vec![3, 4], args).unwrap();
    assert_eq!(px.accounts.len(), 5);
    assert!(!px.accounts[3].is_writable);
    assert_eq!(px.accounts[4].pubkey, vault_pda(&key(9), &key(2), &key(7)).unwrap().0);
    let bx = bid(&key(9), &key(1), &key(2), &mints, &key(11), &key(12), 1, 0, 100, 200).unwrap();
    assert_eq!(bx.accounts.len(), 8);
    assert!(bx.accounts[6].is_writable && bx.accounts[7].is_writable);
    assert_eq!(
        bx.data,
        FlockInstruction::Bid { sell_component: 1, buy_component: 0, sell_amount: 100, max_buy_amount: 200 }
    );
    let ex = end_rebalance(&key(9), &key(1), &key(2), &mints).unwrap();
    assert_eq!(ex.accounts.len(), 5);
    assert_eq!(ex.data, FlockInstruction::EndRebalance);
    let fx = accrue_fees(&key(9), &key(2), &key(3), &mints).unwrap();
    assert_eq!(fx.accounts.len(), 6);
    assert!(!fx.accounts[0].is_signer && fx.accounts[0].is_writable);
    assert_eq!(fx.data, FlockInstruction::AccrueFees);
}

#[test]
fn governance_builders_take_signer_index_and_mint() {
    let (index, _) = index_pda(&key(9), &key(2)).unwrap();
    for ix in [
        seal_index(&key(9), &key(4), &key(2)).unwrap(),
        set_authority(&key(9), &key(3), &key(2), 1, &key(8)).unwrap(),
        set_paused(&key(9), &key(4), &key(2), true).unwrap(),
    ] {
        assert_eq!(ix.accounts.len(), 3);
        assert!(ix.accounts[0].is_signer && !ix.accounts[0].is_writable);
        assert_eq!(ix.accounts[1].pubkey, index);
        assert_eq!(ix.accounts[2].pubkey, key(2));
    }
    let px = set_params(&key(9), &key(3), &key(2), &key(12), 1, 2, 3, 4, 5).unwrap();
    assert_eq!(px.accounts.len(), 5);
    assert!(px.accounts[0].is_signer && !px.accounts[0].is_writable);
    assert_eq!(px.accounts[1].pubkey, index);
    assert!(px.accounts[2].is_writable && px.accounts[3].is_writable);
    assert_eq!(px.accounts[3].pubkey, key(12));
    assert_eq!(px.accounts[4].pubkey.bytes, token_program());
    assert_eq!(
        set_authority(&key(9), &key(3), &key(2), 1, &key(8)).unwrap().data,
        FlockInstruction::SetAuthority { role: 1, new_authority: key(8) }
    );
}
