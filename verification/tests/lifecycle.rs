//! End-to-end behaviour of an index: create it, issue into it, redeem out of it, charge for it,
//! and rebalance it through an auction; and the attacks each check exists to stop.
//!
//! The handlers are driven the way the on-chain glue drives them, against an in-memory ledger of
//! accounts that stands in for the runtime and the token program: every token movement the
//! handlers ask for is applied to the ledger, and a failed instruction leaves the ledger as it
//! was.

use std::collections::HashMap;

use flock_index::builders::{self, AuctionArgs, InitArgs, Instruction};
use flock_index::error::ProgramFault;
use flock_index::guards::AccountView;
use flock_index::instruction::FlockInstruction;
use flock_index::processor::{self, AuctionParams, InitParams};
use flock_index::state::{decode_index, index_pda, vault_pda, Index, Key, INDEX_LEN, STATE_LIVE, STATE_PAUSED};
use solana_program::program_option::COption;
use solana_program::program_pack::Pack;
use solana_program::pubkey::Pubkey;
use spl_token::state::{Account as TokenAccount, AccountState, Mint};

const UNIT_SCALE: u64 = 1_000_000_000;

// ---------------------------------------------------------------------------------------------
// the ledger
// ---------------------------------------------------------------------------------------------

#[derive(Clone)]
struct Acct {
    owner: Key,
    data: Vec<u8>,
}

#[derive(Clone)]
struct Ledger {
    accounts: HashMap<[u8; 32], Acct>,
    now: i64,
}

fn token_program() -> Key {
    Key::new(spl_token::id().to_bytes())
}

fn system_program() -> Key {
    Key::new([0u8; 32])
}

fn pk(k: &Key) -> Pubkey {
    Pubkey::new_from_array(k.bytes)
}

fn fault(f: ProgramFault) -> String {
    match f {
        ProgramFault::Flock(e) => format!("Custom({}) {:?}", e.code(), e),
        other => format!("{other:?}"),
    }
}

impl Ledger {
    fn view(&self, key: &Key, is_signer: bool) -> AccountView {
        match self.accounts.get(&key.bytes) {
            Some(a) => AccountView { key: *key, owner: a.owner, is_signer, data: a.data.clone() },
            None => AccountView { key: *key, owner: system_program(), is_signer, data: Vec::new() },
        }
    }

    fn token(&self, key: &Key) -> Result<TokenAccount, String> {
        let a = self.accounts.get(&key.bytes).ok_or("no such token account")?;
        if a.owner != token_program() {
            return Err("not a token account".into());
        }
        TokenAccount::unpack(&a.data).map_err(|e| format!("{e:?}"))
    }

    fn put_token(&mut self, key: &Key, t: TokenAccount) {
        let mut data = vec![0u8; TokenAccount::LEN];
        TokenAccount::pack(t, &mut data).unwrap();
        self.accounts.insert(key.bytes, Acct { owner: token_program(), data });
    }

    fn mint(&self, key: &Key) -> Result<Mint, String> {
        let a = self.accounts.get(&key.bytes).ok_or("no such mint")?;
        Mint::unpack(&a.data).map_err(|e| format!("{e:?}"))
    }

    fn put_mint(&mut self, key: &Key, m: Mint) {
        let mut data = vec![0u8; Mint::LEN];
        Mint::pack(m, &mut data).unwrap();
        self.accounts.insert(key.bytes, Acct { owner: token_program(), data });
    }

    /// A token transfer signed by `authority`.
    fn transfer(&mut self, from: &Key, to: &Key, authority: &Key, amount: u64) -> Result<(), String> {
        if amount == 0 {
            return Ok(());
        }
        let mut src = self.token(from)?;
        let mut dst = self.token(to)?;
        if src.owner.to_bytes() != authority.bytes {
            return Err("owner does not match".into());
        }
        if src.mint != dst.mint {
            return Err("mint mismatch".into());
        }
        if src.amount < amount {
            return Err("insufficient funds".into());
        }
        src.amount -= amount;
        self.put_token(from, src);
        dst = if from == to { self.token(to)? } else { dst };
        dst.amount += amount;
        self.put_token(to, dst);
        Ok(())
    }

    fn mint_to(&mut self, mint: &Key, to: &Key, authority: &Key, amount: u64) -> Result<(), String> {
        if amount == 0 {
            return Ok(());
        }
        let mut m = self.mint(mint)?;
        let mut dst = self.token(to)?;
        if m.mint_authority != COption::Some(pk(authority)) {
            return Err("mint authority does not match".into());
        }
        if dst.mint != pk(mint) {
            return Err("mint mismatch".into());
        }
        m.supply = m.supply.checked_add(amount).ok_or("supply overflow")?;
        dst.amount += amount;
        self.put_mint(mint, m);
        self.put_token(to, dst);
        Ok(())
    }

    fn burn(&mut self, mint: &Key, from: &Key, authority: &Key, amount: u64) -> Result<(), String> {
        let mut m = self.mint(mint)?;
        let mut src = self.token(from)?;
        if src.owner.to_bytes() != authority.bytes {
            return Err("owner does not match".into());
        }
        if src.amount < amount {
            return Err("insufficient funds".into());
        }
        src.amount -= amount;
        m.supply -= amount;
        self.put_mint(mint, m);
        self.put_token(from, src);
        Ok(())
    }

    /// Write a record back into the index account it was read from.
    fn store(&mut self, pid: &Key, index: &Key, idx: &Index) -> Result<(), String> {
        let mut v = self.view(index, false);
        processor::index_mut(&mut v, pid, idx).map_err(fault)?;
        self.accounts.get_mut(&index.bytes).unwrap().data = v.data;
        Ok(())
    }
}

// ---------------------------------------------------------------------------------------------
// the environment: keys, setup, and instruction execution
// ---------------------------------------------------------------------------------------------

struct Env {
    ledger: Ledger,
    program_id: Key,
    payer: Key,
    next: u32,
}

impl Env {
    fn new() -> Self {
        let mut env = Env {
            ledger: Ledger { accounts: HashMap::new(), now: 1_700_000_000 },
            program_id: Key::new([0x46u8; 32]),
            payer: Key::new([0u8; 32]),
            next: 1,
        };
        env.payer = env.fresh();
        env
    }

    fn fresh(&mut self) -> Key {
        let n = self.next;
        self.next += 1;
        let mut b = [0xA5u8; 32];
        b[..4].copy_from_slice(&n.to_le_bytes());
        Key::new(b)
    }

    /// A new wallet. Lamports are not tracked by this ledger.
    fn fund(&mut self, _lamports: u64) -> Key {
        self.fresh()
    }

    fn create_mint(&mut self, authority: &Key, decimals: u8) -> Key {
        let mint = self.fresh();
        self.ledger.put_mint(
            &mint,
            Mint {
                mint_authority: COption::Some(pk(authority)),
                supply: 0,
                decimals,
                is_initialized: true,
                freeze_authority: COption::None,
            },
        );
        mint
    }

    /// A 9-decimal mint under the index address it will belong to.
    fn create_index_mint(&mut self) -> (Key, Key) {
        let mint = self.fresh();
        let (index, _) = index_pda(&self.program_id, &mint).unwrap();
        self.ledger.put_mint(
            &mint,
            Mint {
                mint_authority: COption::Some(pk(&index)),
                supply: 0,
                decimals: 9,
                is_initialized: true,
                freeze_authority: COption::None,
            },
        );
        (mint, index)
    }

    fn create_token_account(&mut self, mint: &Key, owner: &Key) -> Key {
        let key = self.fresh();
        self.ledger.put_token(
            &key,
            TokenAccount {
                mint: pk(mint),
                owner: pk(owner),
                amount: 0,
                delegate: COption::None,
                state: AccountState::Initialized,
                is_native: COption::None,
                delegated_amount: 0,
                close_authority: COption::None,
            },
        );
        key
    }

    fn mint_tokens(&mut self, mint: &Key, authority: &Key, to: &Key, amount: u64) {
        self.ledger.mint_to(mint, to, authority, amount).unwrap();
    }

    fn warp(&mut self, seconds: i64) {
        self.ledger.now += seconds;
    }

    fn token_balance(&self, key: &Key) -> u64 {
        self.ledger.token(key).unwrap().amount
    }

    fn mint_supply(&self, mint: &Key) -> u64 {
        self.ledger.mint(mint).unwrap().supply
    }

    fn index(&self, index: &Key) -> Index {
        decode_index(&self.ledger.accounts[&index.bytes].data).unwrap()
    }

    /// Run the instructions as one transaction signed by the payer and `signers`: all of them
    /// take effect, or none does.
    fn send(&mut self, ixs: &[Instruction], signers: &[&Key]) -> Result<(), String> {
        let mut ledger = self.ledger.clone();
        for ix in ixs {
            let mut views = Vec::new();
            for m in &ix.accounts {
                let signed = m.pubkey == self.payer || signers.iter().any(|s| **s == m.pubkey);
                if m.is_signer && !signed {
                    return Err("missing required signature".into());
                }
                views.push(ledger.view(&m.pubkey, m.is_signer));
            }
            run(&mut ledger, &ix.program_id, &ix.accounts.iter().map(|m| m.pubkey).collect::<Vec<_>>(), views, ix.data.clone())?;
        }
        self.ledger = ledger;
        Ok(())
    }
}

fn need(keys: &[Key], n: usize) -> Result<(), String> {
    if keys.len() < n {
        return Err("NotEnoughAccountKeys".into());
    }
    Ok(())
}

/// Execute one instruction against the ledger, as the on-chain glue does: the library decides,
/// the ledger moves the tokens, and the accounts are read again after every movement.
fn run(ledger: &mut Ledger, pid: &Key, keys: &[Key], v: Vec<AccountView>, ix: FlockInstruction) -> Result<(), String> {
    let signer = |i: usize| v[i].is_signer;
    let now = ledger.now;
    match ix {
        FlockInstruction::InitIndex {
            name,
            symbol,
            streaming_fee_bps,
            issue_fee_bps,
            redeem_fee_bps,
            max_premium_bps,
            rebalance_delay,
        } => {
            need(keys, 7)?;
            let p = InitParams { name, symbol, streaming_fee_bps, issue_fee_bps, redeem_fee_bps, max_premium_bps, rebalance_delay };
            let created = processor::init_index(pid, &v[0], &v[1], &v[2], &v[6], &p).map_err(fault)?;
            ledger.accounts.insert(keys[1].bytes, Acct { owner: *pid, data: vec![0u8; INDEX_LEN] });
            let idx = processor::new_index_record(&keys[2], &keys[3], &keys[4], &keys[5], created.bump, &p, now);
            let mut v = ledger.view(&keys[1], false);
            processor::index_mut_uninitialized(&mut v, &idx).map_err(fault)?;
            ledger.accounts.get_mut(&keys[1].bytes).unwrap().data = v.data;
        }
        FlockInstruction::AddComponent { units } => {
            need(keys, 8)?;
            let added = processor::add_component(pid, &v[0], &v[1], &v[2], &v[3], &v[4], &v[5], &v[6], &v[7], units)
                .map_err(fault)?;
            if ledger.accounts.contains_key(&keys[5].bytes) {
                return Err("account already in use".into());
            }
            ledger.put_token(
                &keys[5],
                TokenAccount {
                    mint: pk(&keys[4]),
                    owner: pk(&keys[2]),
                    amount: 0,
                    delegate: COption::None,
                    state: AccountState::Initialized,
                    is_native: COption::None,
                    delegated_amount: 0,
                    close_authority: COption::None,
                },
            );
            ledger.store(pid, &keys[2], &added.index)?;
        }
        FlockInstruction::SealIndex => {
            need(keys, 3)?;
            let idx = processor::seal_index(pid, &v[0], &v[1], &v[2], now).map_err(fault)?;
            ledger.store(pid, &keys[1], &idx)?;
        }
        FlockInstruction::Issue { amount, max_in } => {
            need(keys, 6)?;
            let rest = &keys[6..];
            let accrual = processor::issue_begin(pid, &v[0], &v[1], &v[2], &v[3], &v[4], &v[5], rest.len(), amount, &max_in, now)
                .map_err(fault)?;
            ledger.store(pid, &keys[1], &accrual.index)?;
            ledger.mint_to(&keys[2], &keys[4], &keys[1], accrual.owed)?;
            let issued = processor::issue_settle(
                pid,
                &ledger.view(&keys[1], signer(1)),
                &ledger.view(&keys[2], signer(2)),
                &ledger.view(&keys[4], signer(4)),
                &rest.iter().enumerate().map(|(i, k)| ledger.view(k, v[6 + i].is_signer)).collect::<Vec<_>>(),
                amount,
                &max_in,
            )
            .map_err(fault)?;
            ledger.store(pid, &keys[1], &issued.index)?;
            for (i, required) in issued.deliveries.iter().enumerate() {
                ledger.transfer(&rest[2 * i + 1], &rest[2 * i], &keys[0], *required)?;
            }
            ledger.mint_to(&keys[2], &keys[3], &keys[1], issued.minted)?;
            ledger.mint_to(&keys[2], &keys[4], &keys[1], issued.fee_tokens)?;
            let idx = processor::resync(
                pid,
                &ledger.view(&keys[1], signer(1)),
                &ledger.view(&keys[2], signer(2)),
                &rest.iter().map(|k| ledger.view(k, false)).collect::<Vec<_>>(),
                2,
            )
            .map_err(fault)?;
            ledger.store(pid, &keys[1], &idx)?;
        }
        FlockInstruction::Redeem { amount, min_out } => {
            need(keys, 6)?;
            let rest = &keys[6..];
            let accrual = processor::redeem_begin(pid, &v[0], &v[1], &v[2], &v[3], &v[4], &v[5], rest.len(), amount, &min_out, now)
                .map_err(fault)?;
            ledger.store(pid, &keys[1], &accrual.index)?;
            ledger.mint_to(&keys[2], &keys[4], &keys[1], accrual.owed)?;
            let redeemed = processor::redeem_settle(
                pid,
                &ledger.view(&keys[1], signer(1)),
                &ledger.view(&keys[2], signer(2)),
                &ledger.view(&keys[4], signer(4)),
                &rest.iter().map(|k| ledger.view(k, false)).collect::<Vec<_>>(),
                amount,
                &min_out,
            )
            .map_err(fault)?;
            ledger.store(pid, &keys[1], &redeemed.index)?;
            ledger.burn(&keys[2], &keys[3], &keys[0], redeemed.burned)?;
            ledger.mint_to(&keys[2], &keys[4], &keys[1], redeemed.fee_tokens)?;
            for (i, payout) in redeemed.payouts.iter().enumerate() {
                ledger.transfer(&rest[2 * i], &rest[2 * i + 1], &keys[1], *payout)?;
            }
            let idx = processor::resync(
                pid,
                &ledger.view(&keys[1], signer(1)),
                &ledger.view(&keys[2], signer(2)),
                &rest.iter().map(|k| ledger.view(k, false)).collect::<Vec<_>>(),
                2,
            )
            .map_err(fault)?;
            ledger.store(pid, &keys[1], &idx)?;
        }
        FlockInstruction::AccrueFees => {
            need(keys, 4)?;
            let vaults = &keys[4..];
            let accrual = processor::accrue_fees_begin(pid, &v[0], &v[1], &v[2], &v[3], now).map_err(fault)?;
            ledger.store(pid, &keys[0], &accrual.index)?;
            ledger.mint_to(&keys[1], &keys[2], &keys[0], accrual.owed)?;
            if !vaults.is_empty() {
                let idx = processor::resync(
                    pid,
                    &ledger.view(&keys[0], signer(0)),
                    &ledger.view(&keys[1], signer(1)),
                    &vaults.iter().map(|k| ledger.view(k, false)).collect::<Vec<_>>(),
                    1,
                )
                .map_err(fault)?;
                ledger.store(pid, &keys[0], &idx)?;
            }
        }
        FlockInstruction::ProposeRebalance {
            target_units,
            ref_prices_e9,
            duration,
            start_premium_bps,
            end_premium_bps,
            max_nav_loss_bps,
        } => {
            need(keys, 3)?;
            let p = AuctionParams { duration, start_premium_bps, end_premium_bps, max_nav_loss_bps };
            let idx = processor::propose_rebalance(pid, &v[0], &v[1], &v[2], &v[3..], &target_units, &ref_prices_e9, p, now)
                .map_err(fault)?;
            ledger.store(pid, &keys[1], &idx)?;
        }
        FlockInstruction::Bid { sell_component, buy_component, sell_amount, max_buy_amount } => {
            need(keys, 6)?;
            let vaults = &keys[6..];
            let fill = processor::bid_begin(
                pid,
                &v[0],
                &v[1],
                &v[2],
                &v[3],
                &v[4],
                &v[5],
                &v[6..],
                sell_component,
                buy_component,
                sell_amount,
                max_buy_amount,
                now,
            )
            .map_err(fault)?;
            ledger.transfer(&keys[4], &vaults[fill.buy_component], &keys[0], fill.buy_amount)?;
            ledger.transfer(&vaults[fill.sell_component], &keys[3], &keys[1], fill.sell_amount)?;
            let idx = processor::bid_finish(
                pid,
                &ledger.view(&keys[1], signer(1)),
                &ledger.view(&keys[2], signer(2)),
                &vaults.iter().map(|k| ledger.view(k, false)).collect::<Vec<_>>(),
                fill.supply,
            )
            .map_err(fault)?;
            ledger.store(pid, &keys[1], &idx)?;
        }
        FlockInstruction::EndRebalance => {
            need(keys, 3)?;
            let idx = processor::end_rebalance(pid, &v[0], &v[1], &v[2], &v[3..], now).map_err(fault)?;
            ledger.store(pid, &keys[1], &idx)?;
        }
        FlockInstruction::SetParams { streaming_fee_bps, issue_fee_bps, redeem_fee_bps, max_premium_bps, rebalance_delay } => {
            need(keys, 5)?;
            let change = processor::set_params(
                pid,
                &v[0],
                &v[1],
                &v[2],
                &v[3],
                &v[4],
                streaming_fee_bps,
                issue_fee_bps,
                redeem_fee_bps,
                max_premium_bps,
                rebalance_delay,
                now,
            )
            .map_err(fault)?;
            ledger.store(pid, &keys[1], &change.index)?;
            ledger.mint_to(&keys[2], &keys[3], &keys[1], change.owed)?;
        }
        FlockInstruction::SetAuthority { role, new_authority } => {
            need(keys, 3)?;
            let idx = processor::set_authority(pid, &v[0], &v[1], &v[2], role, new_authority).map_err(fault)?;
            ledger.store(pid, &keys[1], &idx)?;
        }
        FlockInstruction::SetPaused { paused } => {
            need(keys, 3)?;
            let idx = processor::set_paused(pid, &v[0], &v[1], &v[2], paused).map_err(fault)?;
            ledger.store(pid, &keys[1], &idx)?;
        }
    }
    Ok(())
}

// ---------------------------------------------------------------------------------------------
// a fund with two components
// ---------------------------------------------------------------------------------------------

/// Two components with different decimals, because a bug that treats them as the same scale hides
/// in a fixture where they are.
const A_DECIMALS: u8 = 6; // a stable-like asset, 2 whole units per index token
const B_DECIMALS: u8 = 9; // a SOL-like asset, 0.5 whole units per index token
const UNITS_A: u64 = 2_000_000;
const UNITS_B: u64 = 500_000_000;
const PRICE_A_E9: u64 = 1_000_000_000; // $1
const PRICE_B_E9: u64 = 100_000_000_000; // $100

struct Fund {
    env: Env,
    index_mint: Key,
    index: Key,
    mints: Vec<Key>,
    mint_authority: Key,
    governor: Key,
    manager: Key,
    fee_ata: Key,
}

struct Holder {
    owner: Key,
    index_ata: Key,
    component_atas: Vec<Key>,
}

impl Fund {
    fn new(streaming_fee_bps: u16, issue_fee_bps: u16, redeem_fee_bps: u16) -> Self {
        Self::named("Flock Test Index", "FTI", streaming_fee_bps, issue_fee_bps, redeem_fee_bps)
    }

    fn named(name: &str, symbol: &str, streaming_fee_bps: u16, issue_fee_bps: u16, redeem_fee_bps: u16) -> Self {
        let mut env = Env::new();
        let governor = env.fund(10_000_000_000);
        let manager = env.fund(10_000_000_000);
        let fee_recipient = env.fund(10_000_000_000);
        let mint_authority = env.fund(10_000_000_000);

        let (index_mint, index) = env.create_index_mint();
        let a = env.create_mint(&mint_authority, A_DECIMALS);
        let b = env.create_mint(&mint_authority, B_DECIMALS);
        let fee_ata = env.create_token_account(&index_mint, &fee_recipient);

        let program_id = env.program_id;
        let payer = env.payer;
        env.send(
            &[builders::init_index(
                &program_id,
                &payer,
                &index_mint,
                &governor,
                &manager,
                &fee_recipient,
                InitArgs {
                    name: builders::fixed::<32>(name),
                    symbol: builders::fixed::<12>(symbol),
                    streaming_fee_bps,
                    issue_fee_bps,
                    redeem_fee_bps,
                    max_premium_bps: 300,
                    rebalance_delay: 3_600,
                },
            )
            .unwrap()],
            &[],
        )
        .expect("init index");

        for (mint, units) in [(a, UNITS_A), (b, UNITS_B)] {
            env.send(
                &[builders::add_component(&program_id, &manager, &payer, &index_mint, &mint, units).unwrap()],
                &[&manager],
            )
            .expect("add component");
        }
        env.send(&[builders::seal_index(&program_id, &manager, &index_mint).unwrap()], &[&manager])
            .expect("seal");

        Self { env, index_mint, index, mints: vec![a, b], mint_authority, governor, manager, fee_ata }
    }

    /// A holder with token accounts for every component, funded with `whole` of each.
    fn holder(&mut self, whole_a: u64, whole_b: u64) -> Holder {
        let owner = self.env.fund(10_000_000_000);
        let index_ata = self.env.create_token_account(&self.index_mint, &owner);
        let mut component_atas = Vec::new();
        for (i, mint) in self.mints.clone().iter().enumerate() {
            let ata = self.env.create_token_account(mint, &owner);
            let decimals = if i == 0 { A_DECIMALS } else { B_DECIMALS };
            let whole = if i == 0 { whole_a } else { whole_b };
            let amount = whole * 10u64.pow(decimals as u32);
            let authority = self.mint_authority;
            self.env.mint_tokens(mint, &authority, &ata, amount);
            component_atas.push(ata);
        }
        Holder { owner, index_ata, component_atas }
    }

    fn pairs(&self, holder: &Holder) -> Vec<(Key, Key)> {
        self.mints.iter().copied().zip(holder.component_atas.iter().copied()).collect()
    }

    fn issue_ix(&self, holder: &Holder, fee_ata: &Key, amount: u64, max_in: Vec<u64>) -> Instruction {
        builders::issue(
            &self.env.program_id,
            &holder.owner,
            &self.index_mint,
            &holder.index_ata,
            fee_ata,
            &self.pairs(holder),
            amount,
            max_in,
        )
        .unwrap()
    }

    fn issue(&mut self, holder: &Holder, amount: u64) -> Result<(), String> {
        let ix = self.issue_ix(holder, &self.fee_ata.clone(), amount, vec![u64::MAX; self.mints.len()]);
        self.env.send(&[ix], &[&holder.owner])
    }

    fn redeem_ix(&self, holder: &Holder, amount: u64, min_out: Vec<u64>) -> Instruction {
        builders::redeem(
            &self.env.program_id,
            &holder.owner,
            &self.index_mint,
            &holder.index_ata,
            &self.fee_ata,
            &self.pairs(holder),
            amount,
            min_out,
        )
        .unwrap()
    }

    fn redeem(&mut self, holder: &Holder, amount: u64) -> Result<(), String> {
        let ix = self.redeem_ix(holder, amount, vec![0; self.mints.len()]);
        self.env.send(&[ix], &[&holder.owner])
    }

    fn vault(&self, i: usize) -> Key {
        vault_pda(&self.env.program_id, &self.index_mint, &self.mints[i]).unwrap().0
    }

    fn propose(&mut self, signer: &Key, targets: Vec<u64>, args: AuctionArgs) -> Result<(), String> {
        let ix = builders::propose_rebalance(
            &self.env.program_id,
            signer,
            &self.index_mint,
            &self.mints,
            targets,
            vec![PRICE_A_E9, PRICE_B_E9],
            args,
        )
        .unwrap();
        self.env.send(&[ix], &[signer])
    }

    fn bid_ix(&self, bidder: &Holder, sell_amount: u64, max_buy: u64) -> Instruction {
        builders::bid(
            &self.env.program_id,
            &bidder.owner,
            &self.index_mint,
            &self.mints,
            &bidder.component_atas[1], // receives B
            &bidder.component_atas[0], // pays A
            1,
            0,
            sell_amount,
            max_buy,
        )
        .unwrap()
    }

    /// The invariant the whole program exists to preserve.
    fn assert_backed(&self) {
        let idx = self.env.index(&self.index);
        let supply = self.env.mint_supply(&self.index_mint);
        for (i, component) in idx.components().iter().enumerate() {
            let held = self.env.token_balance(&self.vault(i));
            let owed = (component.units as u128) * (supply as u128) / (UNIT_SCALE as u128);
            assert!(held as u128 >= owed, "component {i} is unbacked: vault {held} < claims {owed}");
        }
    }
}

// ---------------------------------------------------------------------------------------------
// lifecycle
// ---------------------------------------------------------------------------------------------

#[test]
fn issuance_takes_exactly_the_recipe_and_redemption_returns_it() {
    let mut fund = Fund::new(0, 0, 0);
    let holder = fund.holder(1_000, 1_000);

    let ten = 10 * UNIT_SCALE;
    fund.issue(&holder, ten).expect("issue");

    assert_eq!(fund.env.token_balance(&holder.index_ata), ten);
    assert_eq!(fund.env.token_balance(&fund.vault(0)), 20_000_000, "20 whole A");
    assert_eq!(fund.env.token_balance(&fund.vault(1)), 5_000_000_000, "5 whole B");
    fund.assert_backed();

    fund.redeem(&holder, ten).expect("redeem");
    assert_eq!(fund.env.token_balance(&holder.index_ata), 0);
    assert_eq!(fund.env.token_balance(&fund.vault(0)), 0);
    assert_eq!(fund.env.token_balance(&fund.vault(1)), 0);
    assert_eq!(fund.env.token_balance(&holder.component_atas[0]), 1_000 * 10u64.pow(6));
}

#[test]
fn a_second_holder_cannot_dilute_the_first() {
    let mut fund = Fund::new(0, 0, 0);
    let first = fund.holder(1_000, 1_000);
    let second = fund.holder(1_000, 1_000);

    fund.issue(&first, 3 * UNIT_SCALE).expect("first issue");
    let units_before: Vec<u64> = fund.env.index(&fund.index).components().iter().map(|c| c.units).collect();

    fund.issue(&second, 7 * UNIT_SCALE + 12_345).expect("second issue");
    let units_after: Vec<u64> = fund.env.index(&fund.index).components().iter().map(|c| c.units).collect();

    for (before, after) in units_before.iter().zip(units_after.iter()) {
        assert!(after >= before, "backing per token fell from {before} to {after}");
    }
    fund.assert_backed();

    // And the first holder can still take their whole share out.
    fund.redeem(&first, 3 * UNIT_SCALE).expect("first redeems");
    fund.assert_backed();
}

#[test]
fn issue_and_redeem_fees_are_charged_in_index_tokens_and_stay_backed() {
    let mut fund = Fund::new(0, 50, 50); // 50 bps each way
    let holder = fund.holder(1_000, 1_000);

    let ten = 10 * UNIT_SCALE;
    fund.issue(&holder, ten).expect("issue");
    assert_eq!(fund.env.token_balance(&holder.index_ata), ten);
    assert_eq!(fund.env.token_balance(&fund.fee_ata), ten * 50 / 10_000, "issue fee minted");
    // The fee tokens are backed by components the issuer delivered, so the vault holds the gross.
    assert_eq!(fund.env.token_balance(&fund.vault(0)), 20_100_000);
    fund.assert_backed();

    fund.redeem(&holder, ten).expect("redeem");
    assert_eq!(fund.env.token_balance(&fund.fee_ata), (ten * 50 / 10_000) * 2);
    fund.assert_backed();
}

#[test]
fn the_streaming_fee_is_charged_for_elapsed_time_and_nothing_else() {
    let mut fund = Fund::new(100, 0, 0); // 1% per year
    let holder = fund.holder(1_000, 1_000);
    fund.issue(&holder, 100 * UNIT_SCALE).expect("issue");
    assert_eq!(fund.env.token_balance(&fund.fee_ata), 0);

    let program_id = fund.env.program_id;
    let mints = fund.mints.clone();
    let accrue = builders::accrue_fees(&program_id, &fund.index_mint, &fund.fee_ata, &mints).unwrap();

    // No time has passed: accrual is free.
    fund.env.send(&[accrue.clone()], &[]).expect("accrue at t0");
    assert_eq!(fund.env.token_balance(&fund.fee_ata), 0);

    fund.env.warp(365 * 86_400);
    fund.env.send(&[accrue], &[]).expect("accrue after a year");
    let charged = fund.env.token_balance(&fund.fee_ata);
    let supply = fund.env.mint_supply(&fund.index_mint);
    let share_bps = (charged as u128) * 10_000 / supply as u128;
    // The mint floors, so the recipient lands a hair under its 1% rather than a hair over it.
    assert!((99..=100).contains(&share_bps), "a year of 1% left the recipient {share_bps} bps");
    assert!(charged > 0);

    // Dilution is real: the same index token now claims fewer components than it did.
    let idx = fund.env.index(&fund.index);
    assert!(idx.components()[0].units < UNITS_A);
    fund.assert_backed();
}

#[test]
fn a_pause_stops_issuance_and_never_stops_redemption() {
    let mut fund = Fund::new(0, 0, 0);
    let holder = fund.holder(1_000, 1_000);
    fund.issue(&holder, 10 * UNIT_SCALE).expect("issue while live");

    let program_id = fund.env.program_id;
    let manager = fund.manager;
    let governor = fund.governor;
    fund.env
        .send(&[builders::set_paused(&program_id, &manager, &fund.index_mint, true).unwrap()], &[&manager])
        .expect("manager pauses");
    assert_eq!(fund.env.index(&fund.index).state, STATE_PAUSED);

    assert!(fund.issue(&holder, UNIT_SCALE).is_err(), "issuance must stop");
    fund.redeem(&holder, 5 * UNIT_SCALE).expect("redemption must not");

    // A manager can stop the fund but cannot restart it.
    assert!(fund
        .env
        .send(&[builders::set_paused(&program_id, &manager, &fund.index_mint, false).unwrap()], &[&manager])
        .is_err());
    fund.env
        .send(&[builders::set_paused(&program_id, &governor, &fund.index_mint, false).unwrap()], &[&governor])
        .expect("governor resumes");
    assert_eq!(fund.env.index(&fund.index).state, STATE_LIVE);
    fund.issue(&holder, UNIT_SCALE).expect("issue after resume");
}

#[test]
fn authority_boundaries_hold() {
    let mut fund = Fund::new(0, 0, 0);
    let program_id = fund.env.program_id;
    let index_mint = fund.index_mint;
    let manager = fund.manager;
    let governor = fund.governor;
    let stranger = fund.env.fund(1_000_000_000);

    // The manager cannot set fees.
    assert!(fund
        .env
        .send(&[builders::set_params(&program_id, &manager, &index_mint, &fund.fee_ata, 500, 0, 0, 300, 3_600).unwrap()], &[&manager])
        .is_err());
    // Nor can a stranger propose a rebalance.
    assert!(fund
        .propose(
            &stranger,
            vec![UNITS_A, UNITS_B],
            AuctionArgs { duration: 3_600, start_premium_bps: 0, end_premium_bps: 100, max_nav_loss_bps: 50 },
        )
        .is_err());
    // Fees above the hard cap are refused even from the governor.
    assert!(fund
        .env
        .send(&[builders::set_params(&program_id, &governor, &index_mint, &fund.fee_ata, 501, 0, 0, 300, 3_600).unwrap()], &[&governor])
        .is_err());
    fund.env
        .send(&[builders::set_params(&program_id, &governor, &index_mint, &fund.fee_ata, 200, 10, 10, 300, 3_600).unwrap()], &[&governor])
        .expect("governor sets fees inside the cap");
    assert_eq!(fund.env.index(&fund.index).streaming_fee_bps, 200);
}

#[test]
fn slippage_bounds_are_enforced_on_both_sides() {
    let mut fund = Fund::new(0, 0, 0);
    let holder = fund.holder(1_000, 1_000);

    let fee_ata = fund.fee_ata;
    // one whole unit of A short
    let ix = fund.issue_ix(&holder, &fee_ata, 10 * UNIT_SCALE, vec![19_999_999, u64::MAX]);
    assert!(fund.env.send(&[ix], &[&holder.owner]).is_err(), "max_in must bind");

    fund.issue(&holder, 10 * UNIT_SCALE).expect("issue");
    // one more base unit of A than the recipe pays
    let ix = fund.redeem_ix(&holder, UNIT_SCALE, vec![2_000_001, 0]);
    assert!(fund.env.send(&[ix], &[&holder.owner]).is_err(), "min_out must bind");
}

#[test]
fn an_auction_moves_the_fund_to_its_targets_and_only_after_the_timelock() {
    let mut fund = Fund::new(0, 0, 0);
    let holder = fund.holder(10_000, 10_000);
    fund.issue(&holder, 10 * UNIT_SCALE).expect("issue");

    let manager = fund.manager;
    // Shift $250 of value out of B and into A: B halves, A goes from 20 to 270 whole units.
    let target_a = 27_000_000u64;
    let target_b = 250_000_000u64;
    fund.propose(
        &manager,
        vec![target_a, target_b],
        AuctionArgs { duration: 7_200, start_premium_bps: -50, end_premium_bps: 100, max_nav_loss_bps: 100 },
    )
    .expect("propose");

    // A bidder holding plenty of A, wanting B.
    let bidder = fund.holder(100_000, 0);

    // The timelock is real: nothing fills before it elapses.
    let ix = fund.bid_ix(&bidder, 2_500_000_000, u64::MAX);
    assert!(fund.env.send(&[ix], &[&bidder.owner]).is_err(), "bids before the auction opens must fail");

    fund.env.warp(3_600);
    // At the open the premium is negative, so the bidder pays above reference value: 2.5 B at
    // $100 is $250 of value, marked up 50 bps to $251.25, which is 251_250_000 base units of A.
    let ix = fund.bid_ix(&bidder, 2_500_000_000, 251_249_999);
    assert!(fund.env.send(&[ix], &[&bidder.owner]).is_err(), "max_buy_amount must bind");
    let ix = fund.bid_ix(&bidder, 2_500_000_000, 251_250_000);
    fund.env.send(&[ix], &[&bidder.owner]).expect("bid fills at the opening premium");

    assert_eq!(fund.env.token_balance(&fund.vault(1)), 2_500_000_000, "B reached its target");
    assert_eq!(fund.env.token_balance(&fund.vault(0)), 271_250_000, "A took the proceeds");
    assert_eq!(fund.env.token_balance(&bidder.component_atas[1]), 2_500_000_000, "bidder got the B");

    let idx = fund.env.index(&fund.index);
    assert_eq!(idx.components()[1].units, target_b);
    assert!(idx.components()[0].units >= target_a, "A overshot in the fund's favour");
    fund.assert_backed();

    // The leg that reached its target cannot be sold any further.
    let ix = fund.bid_ix(&bidder, 1, u64::MAX);
    assert!(fund.env.send(&[ix], &[&bidder.owner]).is_err(), "a component at target has nothing left to sell");

    // The auction is live through its last second, so a permissionless close needs one past it.
    fund.env.warp(7_201);
    let ix = builders::end_rebalance(&fund.env.program_id, &bidder.owner, &fund.index_mint, &fund.mints).unwrap();
    fund.env.send(&[ix], &[&bidder.owner]).expect("anyone may close an expired auction");
    assert_eq!(fund.env.index(&fund.index).rebalance.active, 0);
}

#[test]
fn a_holder_who_never_bids_still_gets_the_rebalanced_basket() {
    let mut fund = Fund::new(0, 0, 0);
    let holder = fund.holder(10_000, 10_000);
    fund.issue(&holder, 10 * UNIT_SCALE).expect("issue");

    let manager = fund.manager;
    fund.propose(
        &manager,
        vec![27_000_000, 250_000_000],
        AuctionArgs { duration: 7_200, start_premium_bps: -50, end_premium_bps: 100, max_nav_loss_bps: 100 },
    )
    .expect("propose");
    fund.env.warp(3_600);

    let bidder = fund.holder(100_000, 0);
    let ix = fund.bid_ix(&bidder, 2_500_000_000, u64::MAX);
    fund.env.send(&[ix], &[&bidder.owner]).expect("bid");

    let before_a = fund.env.token_balance(&holder.component_atas[0]);
    let before_b = fund.env.token_balance(&holder.component_atas[1]);
    fund.redeem(&holder, 10 * UNIT_SCALE).expect("redeem the new composition");
    let got_a = fund.env.token_balance(&holder.component_atas[0]) - before_a;
    let got_b = fund.env.token_balance(&holder.component_atas[1]) - before_b;
    assert_eq!(got_a, 271_250_000, "holder receives the A the auction bought");
    assert_eq!(got_b, 2_500_000_000, "and the B that is left");
    assert_eq!(fund.env.token_balance(&fund.vault(0)), 0);
    assert_eq!(fund.env.token_balance(&fund.vault(1)), 0);
}

// ---------------------------------------------------------------------------------------------
// attacks
// ---------------------------------------------------------------------------------------------

#[test]
fn a_vault_the_attacker_controls_is_not_a_vault() {
    let mut s = Fund::named("Security", "SEC", 0, 0, 0);
    let user = s.holder(1_000, 1_000);

    // Substitute a token account the attacker owns for the real vault of component A, so that the
    // components they "deliver" land back in their own pocket while the index mints against them.
    let fake_vault = s.env.create_token_account(&s.mints[0], &user.owner);
    let fee_ata = s.fee_ata;
    let mut ix = s.issue_ix(&user, &fee_ata, UNIT_SCALE, vec![u64::MAX; 2]);
    ix.accounts[6] = builders::AccountMeta { pubkey: fake_vault, is_signer: false, is_writable: true };
    assert!(s.env.send(&[ix], &[&user.owner]).is_err(), "a substituted vault must be rejected");
}

#[test]
fn the_fee_account_must_belong_to_the_fee_recipient() {
    let mut s = Fund::named("Security", "SEC", 0, 0, 0);
    let user = s.holder(1_000, 1_000);
    let program_id = s.env.program_id;
    let index_mint = s.index_mint;
    let mints = s.mints.clone();

    // Put a real streaming fee in force, so the fee account is genuinely written to.
    let governor = s.governor;
    s.env
        .send(&[builders::set_params(&program_id, &governor, &index_mint, &s.fee_ata, 200, 0, 0, 300, 3_600).unwrap()], &[&governor])
        .expect("governor raises the streaming fee");

    s.issue(&user, 10 * UNIT_SCALE).expect("issue");
    s.env.warp(180 * 86_400);

    // Redirect the accrued fee into an account the attacker owns.
    let attacker_fee_ata = s.env.create_token_account(&index_mint, &user.owner);
    let err = s
        .env
        .send(&[builders::accrue_fees(&program_id, &index_mint, &attacker_fee_ata, &mints).unwrap()], &[])
        .expect_err("a fee account owned by somebody else must be refused");
    assert!(err.contains("Custom(11)"), "expected InvalidTokenAccount, got {err}");
    assert_eq!(s.env.token_balance(&attacker_fee_ata), 0);

    // The same substitution inside an issue is refused for the same reason.
    let ix = s.issue_ix(&user, &attacker_fee_ata, UNIT_SCALE, vec![u64::MAX; 2]);
    let err = s.env.send(&[ix], &[&user.owner]).expect_err("issue must refuse it too");
    assert!(err.contains("Custom(11)"), "expected InvalidTokenAccount, got {err}");

    // And the real recipient can still be paid.
    let fee_ata = s.fee_ata;
    s.env
        .send(&[builders::accrue_fees(&program_id, &index_mint, &fee_ata, &mints).unwrap()], &[])
        .expect("the real fee account is paid");
    assert!(s.env.token_balance(&s.fee_ata) > 0);
}

#[test]
fn components_cannot_be_delivered_in_the_wrong_token() {
    let mut s = Fund::named("Security", "SEC", 0, 0, 0);
    let user = s.holder(1_000, 1_000);

    // Pay for component A out of a component B account: same owner, wrong mint.
    let mut pairs = s.pairs(&user);
    pairs[0].1 = user.component_atas[1];
    let ix = builders::issue(
        &s.env.program_id,
        &user.owner,
        &s.index_mint,
        &user.index_ata,
        &s.fee_ata,
        &pairs,
        UNIT_SCALE,
        vec![u64::MAX; 2],
    )
    .unwrap();
    assert!(s.env.send(&[ix], &[&user.owner]).is_err(), "the wrong mint must be refused");
}

#[test]
fn the_nav_floor_stops_an_auction_that_would_lose_more_than_it_promised() {
    let mut s = Fund::named("Security", "SEC", 0, 0, 0);
    let user = s.holder(10_000, 10_000);
    s.issue(&user, 10 * UNIT_SCALE).expect("issue");

    // An auction that promises to give up nothing: the floor is the NAV at proposal.
    let manager = s.manager;
    s.propose(
        &manager,
        vec![27_000_000, 250_000_000],
        AuctionArgs { duration: 7_200, start_premium_bps: 0, end_premium_bps: 300, max_nav_loss_bps: 0 },
    )
    .expect("propose");

    let bidder = s.holder(100_000, 0);

    // At the open the premium is zero: value in equals value out, so the floor is met exactly.
    s.env.warp(3_600);
    let ix = s.bid_ix(&bidder, 1_000_000_000, u64::MAX);
    s.env.send(&[ix], &[&bidder.owner]).expect("a fair-value fill is allowed");

    // At the close the premium is 300 bps in the bidder's favour, which is a real loss of NAV, and
    // this auction promised none.
    s.env.warp(7_200);
    let ix = s.bid_ix(&bidder, 1_000_000_000, u64::MAX);
    let err = s.env.send(&[ix], &[&bidder.owner]).expect_err("must breach the floor");
    assert!(err.contains("Custom(21)"), "expected NavFloorBreached, got {err}");
}

#[test]
fn a_stranger_cannot_close_a_running_auction_or_reopen_a_finished_one() {
    let mut s = Fund::named("Security", "SEC", 0, 0, 0);
    let user = s.holder(1_000, 1_000);
    s.issue(&user, UNIT_SCALE).expect("issue");

    let manager = s.manager;
    let args = || AuctionArgs { duration: 600, start_premium_bps: 0, end_premium_bps: 100, max_nav_loss_bps: 50 };
    s.propose(&manager, vec![2_000_000, 500_000_000], args()).expect("propose");

    let ix = builders::end_rebalance(&s.env.program_id, &user.owner, &s.index_mint, &s.mints).unwrap();
    assert!(s.env.send(&[ix], &[&user.owner]).is_err(), "a stranger cannot close a live auction");
    // A second proposal on top of a running one is refused.
    assert!(s.propose(&manager, vec![2_000_000, 500_000_000], args()).is_err());
}

#[test]
fn an_index_mint_the_program_does_not_control_is_refused() {
    let mut env = Env::new();
    let governor = env.fund(1_000_000_000);
    let payer = env.payer;
    let program_id = env.program_id;
    // A mint whose authority is a key the founder kept, which would let them print index tokens
    // out of thin air against everybody else's deposits.
    let rogue_mint = env.create_mint(&governor, 9);
    let err = env
        .send(
            &[builders::init_index(
                &program_id,
                &payer,
                &rogue_mint,
                &governor,
                &governor,
                &governor,
                InitArgs {
                    name: builders::fixed::<32>("Rogue"),
                    symbol: builders::fixed::<12>("ROG"),
                    streaming_fee_bps: 0,
                    issue_fee_bps: 0,
                    redeem_fee_bps: 0,
                    max_premium_bps: 300,
                    rebalance_delay: 3_600,
                },
            )
            .unwrap()],
            &[],
        )
        .expect_err("must refuse a mint it does not control");
    assert!(err.contains("Custom(12)"), "expected InvalidIndexMint, got {err}");
}

// ---------------------------------------------------------------------------------------------
// every refusal, with the input that gives it
// ---------------------------------------------------------------------------------------------

fn code(err: Result<(), String>, n: u32) {
    let e = err.expect_err("the instruction must be refused");
    assert!(e.starts_with(&format!("Custom({n})")), "expected Custom({n}), got {e}");
}

/// An index that has been created with `count` components and not sealed.
fn unsealed(count: usize) -> (Env, Key, Key, Key, Vec<Key>) {
    let mut env = Env::new();
    let governor = env.fund(0);
    let manager = env.fund(0);
    let fee_recipient = env.fund(0);
    let authority = env.fund(0);
    let (index_mint, _) = env.create_index_mint();
    let (program_id, payer) = (env.program_id, env.payer);
    let args = InitArgs {
        name: builders::fixed::<32>("Unsealed"),
        symbol: builders::fixed::<12>("UNS"),
        streaming_fee_bps: 0,
        issue_fee_bps: 0,
        redeem_fee_bps: 0,
        max_premium_bps: 300,
        rebalance_delay: 3_600,
    };
    let ix = builders::init_index(&program_id, &payer, &index_mint, &governor, &manager, &fee_recipient, args).unwrap();
    env.send(&[ix], &[]).expect("init");
    let mut mints = Vec::new();
    for _ in 0..count {
        let mint = env.create_mint(&authority, 6);
        let ix = builders::add_component(&program_id, &manager, &payer, &index_mint, &mint, 1_000).unwrap();
        env.send(&[ix], &[&manager]).expect("add");
        mints.push(mint);
    }
    (env, index_mint, governor, manager, mints)
}

#[test]
fn bootstrapping_refusals() {
    let (mut env, index_mint, governor, manager, mints) = unsealed(1);
    let (program_id, payer) = (env.program_id, env.payer);
    // the same mint twice
    let ix = builders::add_component(&program_id, &manager, &payer, &index_mint, &mints[0], 1_000).unwrap();
    code(env.send(&[ix], &[&manager]), 9);
    // a zero recipe
    let other = env.create_mint(&governor, 6);
    let ix = builders::add_component(&program_id, &manager, &payer, &index_mint, &other, 0).unwrap();
    code(env.send(&[ix], &[&manager]), 15);
    // not the manager
    let ix = builders::add_component(&program_id, &governor, &payer, &index_mint, &other, 5).unwrap();
    code(env.send(&[ix], &[&governor]), 4);
    // an index that is not sealed cannot be paused
    let ix = builders::set_paused(&program_id, &governor, &index_mint, true).unwrap();
    code(env.send(&[ix], &[&governor]), 6);
    // creating it a second time
    let args = InitArgs {
        name: [0u8; 32],
        symbol: [0u8; 12],
        streaming_fee_bps: 0,
        issue_fee_bps: 0,
        redeem_fee_bps: 0,
        max_premium_bps: 300,
        rebalance_delay: 3_600,
    };
    let ix = builders::init_index(&program_id, &payer, &index_mint, &governor, &manager, &governor, args).unwrap();
    let e = env.send(&[ix], &[]).expect_err("an index cannot be created twice");
    assert!(e.contains("AccountAlreadyInitialized"), "got {e}");
    // sealed, it takes no more components
    let ix = builders::seal_index(&program_id, &manager, &index_mint).unwrap();
    env.send(&[ix], &[&manager]).expect("seal");
    let ix = builders::add_component(&program_id, &manager, &payer, &index_mint, &other, 5).unwrap();
    code(env.send(&[ix], &[&manager]), 5);
    let ix = builders::seal_index(&program_id, &manager, &index_mint).unwrap();
    code(env.send(&[ix], &[&manager]), 5);
}

#[test]
fn the_component_table_is_bounded_and_an_empty_index_cannot_be_sealed() {
    let (mut env, index_mint, governor, manager, _) = unsealed(16);
    let (program_id, payer) = (env.program_id, env.payer);
    let extra = env.create_mint(&governor, 6);
    let ix = builders::add_component(&program_id, &manager, &payer, &index_mint, &extra, 1).unwrap();
    code(env.send(&[ix], &[&manager]), 8);

    let (mut env, index_mint, _, manager, _) = unsealed(0);
    let ix = builders::seal_index(&env.program_id, &manager, &index_mint).unwrap();
    code(env.send(&[ix], &[&manager]), 10);
}

#[test]
fn governance_refusals() {
    let mut fund = Fund::new(0, 0, 0);
    let program_id = fund.env.program_id;
    let (index_mint, governor, manager) = (fund.index_mint, fund.governor, fund.manager);
    let ix = builders::set_params(&program_id, &manager, &index_mint, &fund.fee_ata, 100, 0, 0, 300, 3_600).unwrap();
    code(fund.env.send(&[ix], &[&manager]), 3);
    let ix = builders::set_params(&program_id, &governor, &index_mint, &fund.fee_ata, 100, 101, 0, 300, 3_600).unwrap();
    code(fund.env.send(&[ix], &[&governor]), 13);
    let ix = builders::set_params(&program_id, &governor, &index_mint, &fund.fee_ata, 100, 0, 0, 1_001, 3_600).unwrap();
    code(fund.env.send(&[ix], &[&governor]), 13);
    let ix = builders::set_params(&program_id, &governor, &index_mint, &fund.fee_ata, 100, 0, 0, 300, 299).unwrap();
    code(fund.env.send(&[ix], &[&governor]), 25);
    let ix = builders::set_authority(&program_id, &manager, &index_mint, 1, &manager).unwrap();
    code(fund.env.send(&[ix], &[&manager]), 3);
    let ix = builders::set_authority(&program_id, &governor, &index_mint, 3, &manager).unwrap();
    let e = fund.env.send(&[ix], &[&governor]).expect_err("an unknown role is refused");
    assert!(e.contains("InvalidInstructionData"), "got {e}");
    let stranger = fund.env.fund(0);
    let ix = builders::set_paused(&program_id, &stranger, &index_mint, true).unwrap();
    code(fund.env.send(&[ix], &[&stranger]), 4);

    // a signer flag the caller did not give
    let mut ix = builders::set_paused(&program_id, &governor, &index_mint, true).unwrap();
    ix.accounts[0].is_signer = false;
    code(fund.env.send(&[ix], &[]), 2);
    // an index account that is not the one the mint derives
    let mut ix = builders::set_paused(&program_id, &governor, &index_mint, true).unwrap();
    ix.accounts[1].pubkey = stranger;
    code(fund.env.send(&[ix], &[&governor]), 1);

    // handing the manager role over moves it
    let ix = builders::set_authority(&program_id, &governor, &index_mint, 1, &stranger).unwrap();
    fund.env.send(&[ix], &[&governor]).expect("governor moves the manager role");
    assert!(fund.env.index(&fund.index).manager.same(&stranger));
}

#[test]
fn an_index_account_this_program_does_not_own_is_refused() {
    let mut fund = Fund::new(0, 0, 0);
    let index = fund.index;
    fund.env.ledger.accounts.get_mut(&index.bytes).unwrap().owner = Key::new([3u8; 32]);
    let ix = builders::set_paused(&fund.env.program_id, &fund.governor, &fund.index_mint, true).unwrap();
    let governor = fund.governor;
    code(fund.env.send(&[ix], &[&governor]), 0);

    let mut fund = Fund::new(0, 0, 0);
    let index = fund.index;
    fund.env.ledger.accounts.get_mut(&index.bytes).unwrap().data.truncate(100);
    let ix = builders::set_paused(&fund.env.program_id, &fund.governor, &fund.index_mint, true).unwrap();
    let governor = fund.governor;
    let e = fund.env.send(&[ix], &[&governor]).expect_err("a short record is refused");
    assert!(e.contains("AccountDataTooSmall"), "got {e}");
}

#[test]
fn issue_and_redeem_refusals() {
    let mut fund = Fund::new(0, 0, 0);
    let holder = fund.holder(1_000, 1_000);
    code(fund.issue(&holder, 0), 15);
    let fee_ata = fund.fee_ata;
    let ix = fund.issue_ix(&holder, &fee_ata, UNIT_SCALE, vec![u64::MAX]);
    code(fund.env.send(&[ix], &[&holder.owner]), 23);
    let ix = fund.issue_ix(&holder, &fee_ata, 10 * UNIT_SCALE, vec![19_999_999, u64::MAX]);
    code(fund.env.send(&[ix], &[&holder.owner]), 16);
    fund.issue(&holder, UNIT_SCALE).expect("issue");
    code(fund.redeem(&holder, UNIT_SCALE + 1), 26);
    let ix = fund.redeem_ix(&holder, UNIT_SCALE, vec![2_000_001, 0]);
    code(fund.env.send(&[ix], &[&holder.owner]), 16);

    let manager = fund.manager;
    let program_id = fund.env.program_id;
    let ix = builders::set_paused(&program_id, &manager, &fund.index_mint, true).unwrap();
    fund.env.send(&[ix], &[&manager]).expect("pause");
    code(fund.issue(&holder, UNIT_SCALE), 7);
}

#[test]
fn proposal_refusals() {
    let mut fund = Fund::new(0, 0, 0);
    let holder = fund.holder(1_000, 1_000);
    fund.issue(&holder, UNIT_SCALE).expect("issue");
    let manager = fund.manager;
    let program_id = fund.env.program_id;
    let args = |s: i16, e: i16, loss: u16| AuctionArgs { duration: 600, start_premium_bps: s, end_premium_bps: e, max_nav_loss_bps: loss };
    // inverted, above the ceiling, below the floor, a NAV loss above the ceiling
    code(fund.propose(&manager, vec![UNITS_A, UNITS_B], args(100, 50, 0)), 22);
    code(fund.propose(&manager, vec![UNITS_A, UNITS_B], args(0, 301, 0)), 22);
    code(fund.propose(&manager, vec![UNITS_A, UNITS_B], args(-301, 0, 0)), 22);
    code(fund.propose(&manager, vec![UNITS_A, UNITS_B], args(0, 100, 301)), 22);
    code(fund.propose(&manager, vec![UNITS_A], args(0, 100, 0)), 23);
    let ix = builders::propose_rebalance(
        &program_id,
        &manager,
        &fund.index_mint,
        &fund.mints,
        vec![UNITS_A, UNITS_B],
        vec![PRICE_A_E9, 0],
        args(0, 100, 0),
    )
    .unwrap();
    code(fund.env.send(&[ix], &[&manager]), 24);
    let ix = builders::end_rebalance(&program_id, &manager, &fund.index_mint, &fund.mints).unwrap();
    code(fund.env.send(&[ix], &[&manager]), 18);
    fund.propose(&manager, vec![UNITS_A, UNITS_B], args(0, 100, 0)).expect("propose");
    code(fund.propose(&manager, vec![UNITS_A, UNITS_B], args(0, 100, 0)), 17);
    // the manager may close a running auction early
    let ix = builders::end_rebalance(&program_id, &manager, &fund.index_mint, &fund.mints).unwrap();
    fund.env.send(&[ix], &[&manager]).expect("the manager closes early");
    let idx = fund.env.index(&fund.index);
    assert_eq!(idx.rebalance.active, 0);
    assert_eq!(idx.components[0].target_units, idx.components[0].units);
}

fn bid_with(fund: &Fund, bidder: &Holder, sell: u8, buy: u8, amount: u64) -> Instruction {
    let (receive, pay) = (bidder.component_atas[sell as usize % 2], bidder.component_atas[buy as usize % 2]);
    builders::bid(&fund.env.program_id, &bidder.owner, &fund.index_mint, &fund.mints, &receive, &pay, sell, buy, amount, u64::MAX)
        .unwrap()
}

#[test]
fn bid_refusals() {
    let mut fund = Fund::new(0, 0, 0);
    let holder = fund.holder(1_000, 1_000);
    fund.issue(&holder, 10 * UNIT_SCALE).expect("issue");
    let bidder = fund.holder(100_000, 100);
    let manager = fund.manager;

    code(fund.env.send(&[bid_with(&fund, &bidder, 1, 0, 1)], &[&bidder.owner]), 18);
    code(fund.env.send(&[bid_with(&fund, &bidder, 1, 1, 1)], &[&bidder.owner]), 28);
    code(fund.env.send(&[bid_with(&fund, &bidder, 1, 0, 0)], &[&bidder.owner]), 15);

    let args = AuctionArgs { duration: 7_200, start_premium_bps: -50, end_premium_bps: 100, max_nav_loss_bps: 100 };
    fund.propose(&manager, vec![2_050_000, 250_000_000], args).expect("propose");
    code(fund.env.send(&[bid_with(&fund, &bidder, 1, 0, 1)], &[&bidder.owner]), 19);
    fund.env.warp(3_600);
    code(fund.env.send(&[bid_with(&fund, &bidder, 0, 1, 1)], &[&bidder.owner]), 20);
    code(fund.env.send(&[bid_with(&fund, &bidder, 1, 0, 2_500_000_001)], &[&bidder.owner]), 29);
    code(fund.env.send(&[bid_with(&fund, &bidder, 1, 0, 100_000_000)], &[&bidder.owner]), 31);
    code(fund.env.send(&[bid_with(&fund, &bidder, 5, 0, 1)], &[&bidder.owner]), 10);

    let mut fund = Fund::new(0, 0, 0);
    let holder = fund.holder(1_000, 1_000);
    fund.issue(&holder, 10 * UNIT_SCALE).expect("issue");
    let bidder = fund.holder(100_000, 100);
    let manager = fund.manager;
    let args = AuctionArgs { duration: 7_200, start_premium_bps: -50, end_premium_bps: 100, max_nav_loss_bps: 100 };
    fund.propose(&manager, vec![1_000_000, 250_000_000], args).expect("propose");
    fund.env.warp(3_600);
    code(fund.env.send(&[bid_with(&fund, &bidder, 1, 0, 1_000)], &[&bidder.owner]), 30);
}

#[test]
fn a_bid_with_nothing_issued_is_refused_for_supply() {
    let mut fund = Fund::new(0, 0, 0);
    let manager = fund.manager;
    let args = AuctionArgs { duration: 7_200, start_premium_bps: 0, end_premium_bps: 100, max_nav_loss_bps: 100 };
    fund.propose(&manager, vec![UNITS_A, UNITS_B], args).expect("propose with an empty fund");
    fund.env.warp(3_600);
    let bidder = fund.holder(100, 100);
    code(fund.env.send(&[bid_with(&fund, &bidder, 1, 0, 1)], &[&bidder.owner]), 26);
}

#[test]
fn backing_holds_after_every_step_of_a_busy_fund() {
    // the backing law on concrete values: several holders, fees of every kind, and an auction
    let mut fund = Fund::new(200, 30, 70);
    let a = fund.holder(10_000, 10_000);
    let b = fund.holder(10_000, 10_000);
    fund.issue(&a, 7 * UNIT_SCALE + 333).expect("a issues");
    fund.assert_backed();
    fund.env.warp(86_400);
    fund.issue(&b, 3 * UNIT_SCALE + 1).expect("b issues");
    fund.assert_backed();
    fund.env.warp(30 * 86_400);
    fund.redeem(&a, 2 * UNIT_SCALE + 7).expect("a redeems some");
    fund.assert_backed();
    let manager = fund.manager;
    let args = AuctionArgs { duration: 7_200, start_premium_bps: -50, end_premium_bps: 100, max_nav_loss_bps: 100 };
    fund.propose(&manager, vec![27_000_000, 250_000_000], args).expect("propose");
    fund.env.warp(3_600);
    let bidder = fund.holder(100_000, 0);
    let ix = fund.bid_ix(&bidder, 100_000_000, u64::MAX);
    fund.env.send(&[ix], &[&bidder.owner]).expect("bid");
    fund.assert_backed();
    let accrue = builders::accrue_fees(&fund.env.program_id, &fund.index_mint, &fund.fee_ata, &fund.mints).unwrap();
    fund.env.warp(10_000);
    fund.env.send(&[accrue], &[]).expect("accrue");
    fund.assert_backed();
    fund.env.warp(10_000);
    let ix = builders::end_rebalance(&fund.env.program_id, &bidder.owner, &fund.index_mint, &fund.mints).unwrap();
    fund.env.send(&[ix], &[&bidder.owner]).expect("close");
    fund.assert_backed();
    let left = fund.env.token_balance(&a.index_ata);
    fund.redeem(&a, left).expect("a leaves");
    fund.assert_backed();
}

#[test]
fn a_fee_raise_never_bills_the_time_before_it() {
    let mut fund = Fund::new(0, 0, 0);
    let holder = fund.holder(1_000, 1_000);
    fund.issue(&holder, 10 * UNIT_SCALE).expect("issue");
    fund.env.warp(365 * 86_400);
    let program_id = fund.env.program_id;
    let governor = fund.governor;
    let ix = builders::set_params(&program_id, &governor, &fund.index_mint, &fund.fee_ata, 500, 0, 0, 300, 3_600).unwrap();
    fund.env.send(&[ix], &[&governor]).expect("governor raises the streaming fee");
    assert_eq!(fund.env.index(&fund.index).last_fee_accrual, fund.env.ledger.now);
    let accrue = builders::accrue_fees(&program_id, &fund.index_mint, &fund.fee_ata, &fund.mints).unwrap();
    fund.env.send(&[accrue.clone()], &[]).expect("accrue right after the change");
    assert_eq!(fund.env.token_balance(&fund.fee_ata), 0, "the year at 0% is not billed at 5%");
    // a day at the new rate is billed: floor(1e10 * 500 * 86400 / (1e4 * Y - 500 * 86400))
    fund.env.warp(86_400);
    fund.env.send(&[accrue], &[]).expect("accrue a day later");
    assert_eq!(fund.env.token_balance(&fund.fee_ata), 1_370_050);
}

#[test]
fn a_fee_change_mints_what_the_old_rate_owes_first() {
    let mut fund = Fund::new(100, 0, 0); // 1% a year
    let holder = fund.holder(1_000, 1_000);
    fund.issue(&holder, 100 * UNIT_SCALE).expect("issue");
    fund.env.warp(365 * 86_400);
    let program_id = fund.env.program_id;
    let governor = fund.governor;
    let ix = builders::set_params(&program_id, &governor, &fund.index_mint, &fund.fee_ata, 500, 0, 0, 300, 3_600)
        .unwrap();
    fund.env.send(&[ix], &[&governor]).expect("governor raises the streaming fee");
    // a year at 1% on 100 tokens: floor(1e11 * 100 * Y / (1e4 * Y - 100 * Y))
    assert_eq!(fund.env.token_balance(&fund.fee_ata), 1_010_101_010);
    let idx = fund.env.index(&fund.index);
    assert_eq!(idx.last_fee_accrual, fund.env.ledger.now);
    assert_eq!(idx.streaming_fee_bps, 500);
    assert!(idx.components()[0].units < UNITS_A);
    fund.assert_backed();
    // the change itself bills nothing more
    let accrue = builders::accrue_fees(&program_id, &fund.index_mint, &fund.fee_ata, &fund.mints).unwrap();
    fund.env.send(&[accrue], &[]).expect("accrue at once");
    assert_eq!(fund.env.token_balance(&fund.fee_ata), 1_010_101_010);
}

#[test]
fn the_fee_accrues_with_only_the_four_documented_accounts() {
    let mut fund = Fund::new(100, 0, 0);
    let holder = fund.holder(1_000, 1_000);
    fund.issue(&holder, 100 * UNIT_SCALE).expect("issue");
    fund.env.warp(365 * 86_400);
    let ix = builders::accrue_fees(&fund.env.program_id, &fund.index_mint, &fund.fee_ata, &[]).unwrap();
    assert_eq!(ix.accounts.len(), 4);
    fund.env.send(&[ix], &[]).expect("accrue with no vault passed");
    assert_eq!(fund.env.token_balance(&fund.fee_ata), 1_010_101_010);
    let idx = fund.env.index(&fund.index);
    // units scaled by the supply change: floor(2e6 * 100e9 / (100e9 + 1_010_101_010))
    assert_eq!(idx.components()[0].units, 1_980_000);
    assert_eq!(idx.last_fee_accrual, fund.env.ledger.now);
    fund.assert_backed();
}

#[test]
fn a_paused_fund_redeems_exactly_as_a_live_one() {
    let mut paid = Vec::new();
    for pause in [false, true] {
        let mut fund = Fund::new(100, 30, 70);
        let holder = fund.holder(1_000, 1_000);
        fund.issue(&holder, 7 * UNIT_SCALE + 1).expect("issue");
        fund.env.warp(40 * 86_400);
        if pause {
            let manager = fund.manager;
            let ix = builders::set_paused(&fund.env.program_id, &manager, &fund.index_mint, true).unwrap();
            fund.env.send(&[ix], &[&manager]).expect("pause");
        }
        let before = [fund.env.token_balance(&holder.component_atas[0]), fund.env.token_balance(&holder.component_atas[1])];
        fund.redeem(&holder, 3 * UNIT_SCALE + 5).expect("redeem");
        paid.push((
            fund.env.token_balance(&holder.component_atas[0]) - before[0],
            fund.env.token_balance(&holder.component_atas[1]) - before[1],
            fund.env.token_balance(&fund.fee_ata),
            fund.env.mint_supply(&fund.index_mint),
        ));
        fund.assert_backed();
    }
    assert_eq!(paid[0], paid[1]);
}

#[test]
fn the_token_program_account_matters_to_a_fee_change_only_when_a_fee_is_owed() {
    let mut fund = Fund::new(100, 0, 0);
    let program_id = fund.env.program_id;
    let governor = fund.governor;
    let stranger = fund.env.fund(0);
    // nothing issued, so nothing owed: a wrong token program account is not read
    let mut ix = builders::set_params(&program_id, &governor, &fund.index_mint, &fund.fee_ata, 200, 0, 0, 300, 3_600)
        .unwrap();
    ix.accounts[4].pubkey = stranger;
    fund.env.send(&[ix.clone()], &[&governor]).expect("no fee owed");
    // the caps are checked before anything else of the kind
    let mut over = builders::set_params(&program_id, &governor, &fund.index_mint, &fund.fee_ata, 501, 0, 0, 300, 3_600)
        .unwrap();
    over.accounts[4].pubkey = stranger;
    code(fund.env.send(&[over], &[&governor]), 13);
    // with a fee owed, the fee must be minted through the real token program
    let holder = fund.holder(1_000, 1_000);
    fund.issue(&holder, 10 * UNIT_SCALE).expect("issue");
    fund.env.warp(86_400);
    code(fund.env.send(&[ix], &[&governor]), 11);
}
