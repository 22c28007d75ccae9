//! Account state: the index record, its byte layout, and the addresses derived for it.
//!
//! An index account is 1304 bytes and every instruction touches it. The record is laid out with
//! fixed little-endian fields and explicit padding, so that its bytes are exactly what the
//! fields say and nothing else.

use vstd::prelude::*;
use vstd::slice::slice_subrange;
use vstd::std_specs::cmp::PartialEqSpecImpl;

use crate::error::{FlockError, ProgramFault};
use crate::layout::{agree, bytes_match, extends, le_u16, le_u32, le_u64, lemma_le_frame, lemma_le16_frame, lemma_le32_frame, push_bytes, push_u16, push_u32, push_u64, read_array, read_u16, read_u32, read_u64};

verus! {

pub const MAX_COMPONENTS: usize = 16;

pub const INDEX_DECIMALS: u8 = 9;

pub const ACCOUNT_TAG_INDEX: u8 = 0xF1;

pub const STATE_VERSION: u8 = 1;

/// Hard caps. Governance sets values inside these; nothing can set them outside.
pub const MAX_STREAMING_FEE_BPS: u16 = 500;

pub const MAX_MINT_REDEEM_FEE_BPS: u16 = 100;

pub const MAX_PREMIUM_CEILING_BPS: u16 = 1_000;

/// The shortest notice a rebalance may give holders between proposal and first bid.
pub const MIN_REBALANCE_DELAY: u32 = 300;

pub const MAX_AUCTION_DURATION: u32 = 7 * 86_400;

pub const STATE_BOOTSTRAPPING: u8 = 0;

pub const STATE_LIVE: u8 = 1;

pub const STATE_PAUSED: u8 = 2;

/// Bytes of one component entry.
pub const COMPONENT_LEN: usize = 64;

/// Bytes of the rebalance entry.
pub const REBALANCE_LEN: usize = 72;

/// Bytes of the whole index record.
pub const INDEX_LEN: usize = 1304;

/// Where the component table starts in the record.
pub const COMPONENTS_OFFSET: usize = 208;

/// Where the rebalance entry starts in the record.
pub const REBALANCE_OFFSET: usize = 1232;

/// A 32-byte account address.
#[derive(Clone, Copy, Debug)]
pub struct Key {
    pub bytes: [u8; 32],
}

impl View for Key {
    type V = Seq<u8>;

    open spec fn view(&self) -> Seq<u8> {
        self.bytes@
    }
}

impl Key {
    pub fn new(bytes: [u8; 32]) -> (k: Key)
        ensures
            k.bytes == bytes,
    {
        Key { bytes }
    }

    /// The all-zero address, which is also the system program's.
    pub fn zero() -> (k: Key)
        ensures
            k@ == Seq::new(32, |i: int| 0u8),
    {
        let k = Key { bytes: [0u8; 32] };
        assert(k@ =~= Seq::new(32, |i: int| 0u8));
        k
    }

    /// Whether two addresses are the same bytes.
    pub fn same(&self, other: &Key) -> (r: bool)
        ensures
            r == (self@ == other@),
    {
        let mut i: usize = 0;
        while i < 32
            invariant
                i <= 32,
                self@.len() == 32,
                other@.len() == 32,
                forall|k: int| 0 <= k < i ==> self@[k] == other@[k],
            decreases 32 - i,
        {
            if self.bytes[i] != other.bytes[i] {
                return false;
            }
            i = i + 1;
        }
        assert(self@ =~= other@);
        true
    }

    /// The address as a byte vector, as it is passed as a seed.
    pub fn to_vec(&self) -> (v: Vec<u8>)
        ensures
            v@ == self@,
    {
        let mut v: Vec<u8> = Vec::new();
        let s = self.bytes.as_slice();
        assert(s@ == self@);
        push_bytes(&mut v, s);
        assert forall|k: int| 0 <= k < 32 implies v@[k] == self@[k] by {
            assert(v@[0 + k] == s@[k]);
        }
        assert(v@ =~= self@);
        v
    }
}

impl PartialEq for Key {
    fn eq(&self, other: &Key) -> (r: bool) {
        self.same(other)
    }
}

impl PartialEqSpecImpl for Key {
    open spec fn obeys_eq_spec() -> bool {
        true
    }

    open spec fn eq_spec(&self, other: &Key) -> bool {
        self@ == other@
    }
}

impl Eq for Key {}

/// Two keys with the same bytes are the same key.
pub proof fn lemma_key_ext(a: Key, b: Key)
    requires
        a@ == b@,
    ensures
        a == b,
{
    assert(a.bytes =~= b.bytes);
}

#[derive(Clone, Copy, Debug)]
pub struct Component {
    pub mint: Key,
    /// Base units of this component backing one whole index token (1e9 index base units).
    pub units: u64,
    /// Where the running auction intends `units` to land. Equal to `units` when idle.
    pub target_units: u64,
    /// USD per whole token, 1e9, as of the proposal that set `target_units`.
    pub ref_price_e9: u64,
    pub decimals: u8,
    pub vault_bump: u8,
    pub _pad: [u8; 6],
}

#[derive(Clone, Copy, Debug)]
pub struct Rebalance {
    pub proposer: Key,
    pub proposed_at: i64,
    pub start_ts: i64,
    pub end_ts: i64,
    /// Fund NAV in USD micro-dollars that no bid may take the fund below.
    pub nav_floor_e6: u64,
    /// Discount to the bidder in bps at auction open. Negative means the bidder pays a premium.
    pub start_premium_bps: i16,
    /// Discount to the bidder in bps at auction close.
    pub end_premium_bps: i16,
    pub max_nav_loss_bps: u16,
    pub active: u8,
    pub _pad: [u8; 1],
}

#[derive(Clone, Copy, Debug)]
pub struct Index {
    pub index_mint: Key,
    /// Sets fees and authorities.
    pub governor: Key,
    /// Proposes rebalances. Cannot touch fees, authorities, or user funds.
    pub manager: Key,
    pub fee_recipient: Key,
    pub last_fee_accrual: i64,
    pub created_at: i64,
    pub rebalance_delay: u32,
    pub streaming_fee_bps: u16,
    pub issue_fee_bps: u16,
    pub redeem_fee_bps: u16,
    /// Ceiling on the edge any auction may ever hand a bidder.
    pub max_premium_bps: u16,
    pub tag: u8,
    pub version: u8,
    pub bump: u8,
    pub state: u8,
    pub decimals: u8,
    pub component_count: u8,
    pub name: [u8; 32],
    pub symbol: [u8; 12],
    pub _pad: [u8; 2],
    pub components: [Component; 16],
    pub rebalance: Rebalance,
}

impl Component {
    /// An entry with every field zero.
    pub fn zeroed() -> (c: Component)
        ensures
            c.mint@ == Seq::new(32, |i: int| 0u8),
            c.units == 0,
            c.target_units == 0,
            c.ref_price_e9 == 0,
            c.decimals == 0,
            c.vault_bump == 0,
            c._pad@ == Seq::new(6, |i: int| 0u8),
    {
        let c = Component {
            mint: Key::zero(),
            units: 0,
            target_units: 0,
            ref_price_e9: 0,
            decimals: 0,
            vault_bump: 0,
            _pad: [0u8; 6],
        };
        assert(c._pad@ =~= Seq::new(6, |i: int| 0u8));
        c
    }
}

impl Rebalance {
    /// An entry with every field zero: no auction.
    pub fn zeroed() -> (r: Rebalance)
        ensures
            r.proposer@ == Seq::new(32, |i: int| 0u8),
            r.proposed_at == 0,
            r.start_ts == 0,
            r.end_ts == 0,
            r.nav_floor_e6 == 0,
            r.start_premium_bps == 0,
            r.end_premium_bps == 0,
            r.max_nav_loss_bps == 0,
            r.active == 0,
            r._pad@ == Seq::new(1, |i: int| 0u8),
    {
        let r = Rebalance {
            proposer: Key::zero(),
            proposed_at: 0,
            start_ts: 0,
            end_ts: 0,
            nav_floor_e6: 0,
            start_premium_bps: 0,
            end_premium_bps: 0,
            max_nav_loss_bps: 0,
            active: 0,
            _pad: [0u8; 1],
        };
        assert(r._pad@ =~= Seq::new(1, |i: int| 0u8));
        r
    }
}

// ---------------------------------------------------------------------------------------------
// layout
// ---------------------------------------------------------------------------------------------

/// `b[at..at + 64]` is the bytes of component `c`.
pub open spec fn component_ok(b: Seq<u8>, at: int, c: Component) -> bool {
    &&& bytes_match(b, at, c.mint@)
    &&& le_u64(b, at + 32) == c.units
    &&& le_u64(b, at + 40) == c.target_units
    &&& le_u64(b, at + 48) == c.ref_price_e9
    &&& b[at + 56] == c.decimals
    &&& b[at + 57] == c.vault_bump
    &&& bytes_match(b, at + 58, c._pad@)
}

/// `b[at..at + 72]` is the bytes of rebalance entry `r`.
pub open spec fn rebalance_ok(b: Seq<u8>, at: int, r: Rebalance) -> bool {
    &&& bytes_match(b, at, r.proposer@)
    &&& le_u64(b, at + 32) as i64 == r.proposed_at
    &&& le_u64(b, at + 40) as i64 == r.start_ts
    &&& le_u64(b, at + 48) as i64 == r.end_ts
    &&& le_u64(b, at + 56) == r.nav_floor_e6
    &&& le_u16(b, at + 64) as i16 == r.start_premium_bps
    &&& le_u16(b, at + 66) as i16 == r.end_premium_bps
    &&& le_u16(b, at + 68) == r.max_nav_loss_bps
    &&& b[at + 70] == r.active
    &&& bytes_match(b, at + 71, r._pad@)
}

/// The fields before the component table sit at `b[0..208]`.
pub open spec fn header_ok(b: Seq<u8>, idx: Index) -> bool {
    &&& bytes_match(b, 0, idx.index_mint@)
    &&& bytes_match(b, 32, idx.governor@)
    &&& bytes_match(b, 64, idx.manager@)
    &&& bytes_match(b, 96, idx.fee_recipient@)
    &&& le_u64(b, 128) as i64 == idx.last_fee_accrual
    &&& le_u64(b, 136) as i64 == idx.created_at
    &&& le_u32(b, 144) == idx.rebalance_delay
    &&& le_u16(b, 148) == idx.streaming_fee_bps
    &&& le_u16(b, 150) == idx.issue_fee_bps
    &&& le_u16(b, 152) == idx.redeem_fee_bps
    &&& le_u16(b, 154) == idx.max_premium_bps
    &&& b[156] == idx.tag
    &&& b[157] == idx.version
    &&& b[158] == idx.bump
    &&& b[159] == idx.state
    &&& b[160] == idx.decimals
    &&& b[161] == idx.component_count
    &&& bytes_match(b, 162, idx.name@)
    &&& bytes_match(b, 194, idx.symbol@)
    &&& bytes_match(b, 206, idx._pad@)
}

/// `b[0..1304]` is the byte image of the record `idx`.
pub open spec fn index_ok(b: Seq<u8>, idx: Index) -> bool {
    &&& INDEX_LEN <= b.len()
    &&& header_ok(b, idx)
    &&& forall|i: int|
        0 <= i < MAX_COMPONENTS ==> component_ok(
            b,
            COMPONENTS_OFFSET + COMPONENT_LEN * i,
            #[trigger] idx.components[i],
        )
    &&& rebalance_ok(b, REBALANCE_OFFSET as int, idx.rebalance)
}

proof fn lemma_bytes_match_unique(b: Seq<u8>, at: int, s1: Seq<u8>, s2: Seq<u8>)
    requires
        bytes_match(b, at, s1),
        bytes_match(b, at, s2),
        s1.len() == s2.len(),
    ensures
        s1 == s2,
{
    assert forall|k: int| 0 <= k < s1.len() implies s1[k] == s2[k] by {
        assert(b[at + k] == s1[k]);
    }
    assert(s1 =~= s2);
}

proof fn lemma_key_at_unique(b: Seq<u8>, at: int, k1: Key, k2: Key)
    requires
        bytes_match(b, at, k1@),
        bytes_match(b, at, k2@),
    ensures
        k1 == k2,
{
    lemma_bytes_match_unique(b, at, k1@, k2@);
    lemma_key_ext(k1, k2);
}

proof fn lemma_component_unique(b: Seq<u8>, at: int, c1: Component, c2: Component)
    requires
        component_ok(b, at, c1),
        component_ok(b, at, c2),
    ensures
        c1 == c2,
{
    lemma_key_at_unique(b, at, c1.mint, c2.mint);
    lemma_bytes_match_unique(b, at + 58, c1._pad@, c2._pad@);
    assert(c1._pad =~= c2._pad);
}

proof fn lemma_rebalance_unique(b: Seq<u8>, at: int, r1: Rebalance, r2: Rebalance)
    requires
        rebalance_ok(b, at, r1),
        rebalance_ok(b, at, r2),
    ensures
        r1 == r2,
{
    lemma_key_at_unique(b, at, r1.proposer, r2.proposer);
    lemma_bytes_match_unique(b, at + 71, r1._pad@, r2._pad@);
    assert(r1._pad =~= r2._pad);
}

/// A byte image describes at most one record. Decoding the bytes that `encode_index` wrote for
/// a record therefore gives that record back.
pub proof fn lemma_layout_determines_record(b: Seq<u8>, i1: Index, i2: Index)
    requires
        index_ok(b, i1),
        index_ok(b, i2),
    ensures
        i1 == i2,
{
    lemma_key_at_unique(b, 0, i1.index_mint, i2.index_mint);
    lemma_key_at_unique(b, 32, i1.governor, i2.governor);
    lemma_key_at_unique(b, 64, i1.manager, i2.manager);
    lemma_key_at_unique(b, 96, i1.fee_recipient, i2.fee_recipient);
    lemma_bytes_match_unique(b, 162, i1.name@, i2.name@);
    lemma_bytes_match_unique(b, 194, i1.symbol@, i2.symbol@);
    lemma_bytes_match_unique(b, 206, i1._pad@, i2._pad@);
    assert(i1.name =~= i2.name);
    assert(i1.symbol =~= i2.symbol);
    assert(i1._pad =~= i2._pad);
    assert forall|i: int| 0 <= i < MAX_COMPONENTS implies i1.components[i] == i2.components[i] by {
        lemma_component_unique(
            b,
            COMPONENTS_OFFSET + COMPONENT_LEN * i,
            i1.components[i],
            i2.components[i],
        );
    }
    assert(i1.components =~= i2.components);
    lemma_rebalance_unique(b, REBALANCE_OFFSET as int, i1.rebalance, i2.rebalance);
}

// ---------------------------------------------------------------------------------------------
// decoding
// ---------------------------------------------------------------------------------------------

fn read_key(data: &[u8], at: usize) -> (k: Key)
    requires
        at + 32 <= data@.len(),
    ensures
        bytes_match(data@, at as int, k@),
{
    Key { bytes: read_array::<32>(data, at) }
}

fn decode_component(data: &[u8], at: usize) -> (c: Component)
    requires
        at + COMPONENT_LEN <= data@.len(),
    ensures
        component_ok(data@, at as int, c),
{
    let _len = data.len();
    Component {
        mint: read_key(data, at),
        units: read_u64(data, at + 32),
        target_units: read_u64(data, at + 40),
        ref_price_e9: read_u64(data, at + 48),
        decimals: data[at + 56],
        vault_bump: data[at + 57],
        _pad: read_array::<6>(data, at + 58),
    }
}

fn decode_rebalance(data: &[u8], at: usize) -> (r: Rebalance)
    requires
        at + REBALANCE_LEN <= data@.len(),
    ensures
        rebalance_ok(data@, at as int, r),
{
    let _len = data.len();
    Rebalance {
        proposer: read_key(data, at),
        proposed_at: read_u64(data, at + 32) as i64,
        start_ts: read_u64(data, at + 40) as i64,
        end_ts: read_u64(data, at + 48) as i64,
        nav_floor_e6: read_u64(data, at + 56),
        start_premium_bps: read_u16(data, at + 64) as i16,
        end_premium_bps: read_u16(data, at + 66) as i16,
        max_nav_loss_bps: read_u16(data, at + 68),
        active: data[at + 70],
        _pad: read_array::<1>(data, at + 71),
    }
}

/// The record laid out at the start of `data`, whatever its tag.
fn decode_record(data: &[u8]) -> (idx: Index)
    requires
        INDEX_LEN <= data@.len(),
    ensures
        index_ok(data@, idx),
{
    let mut components = [Component::zeroed();16];
    let mut i: usize = 0;
    while i < MAX_COMPONENTS
        invariant
            i <= MAX_COMPONENTS,
            INDEX_LEN <= data@.len(),
            forall|j: int|
                0 <= j < i ==> component_ok(
                    data@,
                    COMPONENTS_OFFSET + COMPONENT_LEN * j,
                    #[trigger] components[j],
                ),
        decreases MAX_COMPONENTS - i,
    {
        components[i] = decode_component(data, COMPONENTS_OFFSET + COMPONENT_LEN * i);
        i = i + 1;
    }
    Index {
        index_mint: read_key(data, 0),
        governor: read_key(data, 32),
        manager: read_key(data, 64),
        fee_recipient: read_key(data, 96),
        last_fee_accrual: read_u64(data, 128) as i64,
        created_at: read_u64(data, 136) as i64,
        rebalance_delay: read_u32(data, 144),
        streaming_fee_bps: read_u16(data, 148),
        issue_fee_bps: read_u16(data, 150),
        redeem_fee_bps: read_u16(data, 152),
        max_premium_bps: read_u16(data, 154),
        tag: data[156],
        version: data[157],
        bump: data[158],
        state: data[159],
        decimals: data[160],
        component_count: data[161],
        name: read_array::<32>(data, 162),
        symbol: read_array::<12>(data, 194),
        _pad: read_array::<2>(data, 206),
        components,
        rebalance: decode_rebalance(data, REBALANCE_OFFSET),
    }
}

/// Whether the bytes carry this program's tag and layout version.
pub open spec fn tagged(b: Seq<u8>) -> bool {
    b[156] == ACCOUNT_TAG_INDEX && b[157] == STATE_VERSION
}

/// Read a decoded copy of the index record out of an account's data.
pub fn decode_index(data: &[u8]) -> (r: Result<Index, ProgramFault>)
    ensures
        r is Ok <==> (INDEX_LEN <= data@.len() && tagged(data@)),
        r matches Ok(idx) ==> index_ok(data@, idx),
        r matches Err(e) ==> (if data@.len() < INDEX_LEN {
            e == ProgramFault::AccountDataTooSmall
        } else {
            e == ProgramFault::Flock(FlockError::InvalidAccountOwner)
        }),
{
    if data.len() < INDEX_LEN {
        return Err(ProgramFault::AccountDataTooSmall);
    }
    let idx = decode_record(data);
    if idx.tag != ACCOUNT_TAG_INDEX || idx.version != STATE_VERSION {
        return Err(ProgramFault::Flock(FlockError::InvalidAccountOwner));
    }
    Ok(idx)
}

// ---------------------------------------------------------------------------------------------
// the record as a value
// ---------------------------------------------------------------------------------------------

/// The record whose byte image starts `b`, when there is one.
pub open spec fn record_of(b: Seq<u8>) -> Index {
    choose|idx: Index| index_ok(b, idx)
}

/// Whatever record satisfies the layout of `b` is `record_of(b)`.
pub proof fn lemma_record_of(b: Seq<u8>, idx: Index)
    requires
        index_ok(b, idx),
    ensures
        record_of(b) == idx,
{
    lemma_layout_determines_record(b, record_of(b), idx);
}

/// A record whose component count fits the table.
pub open spec fn count_fits(idx: Index) -> bool {
    idx.component_count as usize <= MAX_COMPONENTS
}

/// The mint of component `i` of `idx`.
pub open spec fn mint_of(idx: Index, i: int) -> Seq<u8> {
    idx.components[i].mint@
}

/// Whether some component of `idx` has mint `mint`.
pub open spec fn has_component(idx: Index, mint: Seq<u8>) -> bool {
    exists|j: int| 0 <= j < idx.component_count && #[trigger] mint_of(idx, j) == mint
}

impl Index {
    /// Bytes of the record.
    pub const LEN: usize = 1304;

    /// A record with every field zero.
    pub fn zeroed() -> (idx: Index)
        ensures
            index_ok(Seq::new(INDEX_LEN as nat, |i: int| 0u8), idx),
    {
        let mut zeros: Vec<u8> = Vec::new();
        let mut i: usize = 0;
        while i < INDEX_LEN
            invariant
                i <= INDEX_LEN,
                zeros@ == Seq::new(i as nat, |k: int| 0u8),
            decreases INDEX_LEN - i,
        {
            zeros.push(0u8);
            i = i + 1;
            assert(zeros@ =~= Seq::new(i as nat, |k: int| 0u8));
        }
        decode_record(zeros.as_slice())
    }

    /// The components in use, in table order.
    pub fn components(&self) -> (cs: &[Component])
        requires
            count_fits(*self),
        ensures
            cs@ == self.components@.subrange(0, self.component_count as int),
    {
        slice_subrange(self.components.as_slice(), 0, self.component_count as usize)
    }

    /// Component `i`, refused when `i` is not in use.
    pub fn component(&self, i: usize) -> (r: Result<Component, ProgramFault>)
        requires
            count_fits(*self),
        ensures
            r is Ok <==> i < self.component_count,
            r matches Ok(c) ==> c == self.components[i as int],
            r matches Err(e) ==> e == ProgramFault::Flock(FlockError::UnknownComponent),
    {
        if i >= self.component_count as usize {
            return Err(ProgramFault::Flock(FlockError::UnknownComponent));
        }
        Ok(self.components[i])
    }

    /// The position of the component with mint `mint`, the first one if several.
    pub fn find_component(&self, mint: &Key) -> (r: Option<usize>)
        requires
            count_fits(*self),
        ensures
            r is Some <==> has_component(*self, mint@),
            r matches Some(i) ==> i < self.component_count && mint_of(*self, i as int) == mint@
                && forall|j: int| 0 <= j < i ==> #[trigger] mint_of(*self, j) != mint@,
    {
        let n = self.component_count as usize;
        let mut i: usize = 0;
        while i < n
            invariant
                i <= n,
                n == self.component_count,
                n <= MAX_COMPONENTS,
                forall|j: int| 0 <= j < i ==> #[trigger] mint_of(*self, j) != mint@,
            decreases n - i,
        {
            if self.components[i].mint.same(mint) {
                assert(mint_of(*self, i as int) == mint@);
                return Some(i);
            }
            i = i + 1;
        }
        None
    }

    /// Ok when the index is live; a paused index and one still bootstrapping are refused.
    pub fn is_live(&self) -> (r: Result<(), ProgramFault>)
        ensures
            r is Ok <==> self.state == STATE_LIVE,
            r matches Err(e) ==> (if self.state == STATE_PAUSED {
                e == ProgramFault::Flock(FlockError::Paused)
            } else {
                e == ProgramFault::Flock(FlockError::NotSealed)
            }),
    {
        if self.state == STATE_LIVE {
            Ok(())
        } else if self.state == STATE_PAUSED {
            Err(ProgramFault::Flock(FlockError::Paused))
        } else {
            Err(ProgramFault::Flock(FlockError::NotSealed))
        }
    }
}

// ---------------------------------------------------------------------------------------------
// program addresses
// ---------------------------------------------------------------------------------------------

/// The address and bump seed that `Pubkey::try_find_program_address` derives for `seeds`
/// under `program_id`, or none when no bump seed works.
pub uninterp spec fn derived_address(seeds: Seq<Seq<u8>>, program_id: Seq<u8>) -> Option<
    (Seq<u8>, u8),
>;

/// Calls `solana_program::pubkey::Pubkey::try_find_program_address`, which tries bump seeds
/// from 255 down and returns the first address off the ed25519 curve together with its bump.
/// Claimed: the result is `derived_address` of the seeds and program id, byte for byte; nothing
/// is claimed about which address that is.
#[verifier::external_body]
fn find_program_address(seeds: &Vec<Vec<u8>>, program_id: &Key) -> (r: Option<(Key, u8)>)
    ensures
        r matches Some((k, b)) ==> derived_address(seeds.deep_view(), program_id@) == Some(
            (k@, b),
        ),
        r is None ==> derived_address(seeds.deep_view(), program_id@) is None,
{
    let refs: Vec<&[u8]> = seeds.iter().map(|s| s.as_slice()).collect();
    let id = solana_program::pubkey::Pubkey::new_from_array(program_id.bytes);
    solana_program::pubkey::Pubkey::try_find_program_address(&refs, &id).map(
        |(k, b)| (Key { bytes: k.to_bytes() }, b),
    )
}

/// The seed that prefixes an index address: the bytes of "index".
pub open spec fn seed_index() -> Seq<u8> {
    seq![105u8, 110u8, 100u8, 101u8, 120u8]
}

/// The seed that prefixes a vault address: the bytes of "vault".
pub open spec fn seed_vault() -> Seq<u8> {
    seq![118u8, 97u8, 117u8, 108u8, 116u8]
}

pub open spec fn index_seeds(index_mint: Seq<u8>) -> Seq<Seq<u8>> {
    seq![seed_index(), index_mint]
}

pub open spec fn vault_seeds(index_mint: Seq<u8>, component_mint: Seq<u8>) -> Seq<Seq<u8>> {
    seq![seed_vault(), index_mint, component_mint]
}

/// The bytes of "index".
pub fn seed_index_bytes() -> (v: Vec<u8>)
    ensures
        v@ == seed_index(),
{
    let v = vec![105u8, 110u8, 100u8, 101u8, 120u8];
    assert(v@ =~= seed_index());
    v
}

/// The bytes of "vault".
pub fn seed_vault_bytes() -> (v: Vec<u8>)
    ensures
        v@ == seed_vault(),
{
    let v = vec![118u8, 97u8, 117u8, 108u8, 116u8];
    assert(v@ =~= seed_vault());
    v
}

/// The index address for an index mint, seeds `["index", index_mint]`, and its bump.
pub fn index_pda(program_id: &Key, index_mint: &Key) -> (r: Option<(Key, u8)>)
    ensures
        r matches Some((k, b)) ==> derived_address(index_seeds(index_mint@), program_id@) == Some(
            (k@, b),
        ),
        r is None <==> derived_address(index_seeds(index_mint@), program_id@) is None,
{
    let s0 = seed_index_bytes();
    let s1 = index_mint.to_vec();
    assert(s0.deep_view() =~= s0@);
    assert(s1.deep_view() =~= s1@);
    let seeds = vec![s0, s1];
    assert(seeds.deep_view() =~= index_seeds(index_mint@));
    find_program_address(&seeds, program_id)
}

/// The vault address for one component, seeds `["vault", index_mint, component_mint]`, and its
/// bump.
pub fn vault_pda(program_id: &Key, index_mint: &Key, component_mint: &Key) -> (r: Option<
    (Key, u8),
>)
    ensures
        r matches Some((k, b)) ==> derived_address(
            vault_seeds(index_mint@, component_mint@),
            program_id@,
        ) == Some((k@, b)),
        r is None <==> derived_address(vault_seeds(index_mint@, component_mint@), program_id@) is None,
{
    let s0 = seed_vault_bytes();
    let s1 = index_mint.to_vec();
    let s2 = component_mint.to_vec();
    assert(s0.deep_view() =~= s0@);
    assert(s1.deep_view() =~= s1@);
    assert(s2.deep_view() =~= s2@);
    let seeds = vec![s0, s1, s2];
    assert(seeds.deep_view() =~= vault_seeds(index_mint@, component_mint@));
    find_program_address(&seeds, program_id)
}


// ---------------------------------------------------------------------------------------------
// encoding
// ---------------------------------------------------------------------------------------------

proof fn lemma_extends_trans(a: Seq<u8>, b: Seq<u8>, c: Seq<u8>)
    requires
        extends(b, a),
        extends(c, b),
    ensures
        extends(c, a),
{
    assert forall|k: int| 0 <= k < a.len() implies #[trigger] c[k] == a[k] by {
        assert(c[k] == b[k]);
    }
}

proof fn lemma_extends_agree(b2: Seq<u8>, b: Seq<u8>, at: int, n: int)
    requires
        extends(b2, b),
        0 <= at,
        at + n <= b.len(),
    ensures
        agree(b, b2, at, n),
{
    assert forall|k: int| at <= k < at + n implies #[trigger] b[k] == #[trigger] b2[k] by {
        assert(b2[k] == b[k]);
    }
}

proof fn lemma_bytes_match_extends(b2: Seq<u8>, b: Seq<u8>, at: int, s: Seq<u8>)
    requires
        extends(b2, b),
        bytes_match(b, at, s),
        0 <= at,
        at + s.len() <= b.len(),
    ensures
        bytes_match(b2, at, s),
{
    assert forall|k: int| 0 <= k < s.len() implies #[trigger] b2[at + k] == s[k] by {
        assert(b[at + k] == s[k]);
        assert(b2[at + k] == b[at + k]);
    }
}

proof fn lemma_le_extends(b2: Seq<u8>, b: Seq<u8>, at: int)
    requires
        extends(b2, b),
        0 <= at,
        at + 8 <= b.len(),
    ensures
        le_u64(b2, at) == le_u64(b, at),
{
    lemma_extends_agree(b2, b, at, 8);
    lemma_le_frame(b, b2, at);
}

proof fn lemma_le16_extends(b2: Seq<u8>, b: Seq<u8>, at: int)
    requires
        extends(b2, b),
        0 <= at,
        at + 2 <= b.len(),
    ensures
        le_u16(b2, at) == le_u16(b, at),
{
    lemma_extends_agree(b2, b, at, 2);
    lemma_le16_frame(b, b2, at);
}

proof fn lemma_le32_extends(b2: Seq<u8>, b: Seq<u8>, at: int)
    requires
        extends(b2, b),
        0 <= at,
        at + 4 <= b.len(),
    ensures
        le_u32(b2, at) == le_u32(b, at),
{
    lemma_extends_agree(b2, b, at, 4);
    lemma_le32_frame(b, b2, at);
}

proof fn lemma_component_ok_extends(b2: Seq<u8>, b: Seq<u8>, at: int, c: Component)
    requires
        extends(b2, b),
        component_ok(b, at, c),
        0 <= at,
        at + COMPONENT_LEN <= b.len(),
    ensures
        component_ok(b2, at, c),
{
    lemma_bytes_match_extends(b2, b, at, c.mint@);
    lemma_le_extends(b2, b, at + 32);
    lemma_le_extends(b2, b, at + 40);
    lemma_le_extends(b2, b, at + 48);
    lemma_bytes_match_extends(b2, b, at + 58, c._pad@);
}

proof fn lemma_header_ok_extends(b2: Seq<u8>, b: Seq<u8>, idx: Index)
    requires
        extends(b2, b),
        header_ok(b, idx),
        COMPONENTS_OFFSET <= b.len(),
    ensures
        header_ok(b2, idx),
{
    lemma_bytes_match_extends(b2, b, 0, idx.index_mint@);
    lemma_bytes_match_extends(b2, b, 32, idx.governor@);
    lemma_bytes_match_extends(b2, b, 64, idx.manager@);
    lemma_bytes_match_extends(b2, b, 96, idx.fee_recipient@);
    lemma_le_extends(b2, b, 128);
    lemma_le_extends(b2, b, 136);
    lemma_le32_extends(b2, b, 144);
    lemma_le16_extends(b2, b, 148);
    lemma_le16_extends(b2, b, 150);
    lemma_le16_extends(b2, b, 152);
    lemma_le16_extends(b2, b, 154);
    lemma_bytes_match_extends(b2, b, 162, idx.name@);
    lemma_bytes_match_extends(b2, b, 194, idx.symbol@);
    lemma_bytes_match_extends(b2, b, 206, idx._pad@);
}

proof fn lemma_rebalance_ok_extends(b2: Seq<u8>, b: Seq<u8>, at: int, r: Rebalance)
    requires
        extends(b2, b),
        rebalance_ok(b, at, r),
        0 <= at,
        at + REBALANCE_LEN <= b.len(),
    ensures
        rebalance_ok(b2, at, r),
{
    lemma_bytes_match_extends(b2, b, at, r.proposer@);
    lemma_le_extends(b2, b, at + 32);
    lemma_le_extends(b2, b, at + 40);
    lemma_le_extends(b2, b, at + 48);
    lemma_le_extends(b2, b, at + 56);
    lemma_le16_extends(b2, b, at + 64);
    lemma_le16_extends(b2, b, at + 66);
    lemma_le16_extends(b2, b, at + 68);
    lemma_bytes_match_extends(b2, b, at + 71, r._pad@);
}

/// Bytes that begin with the image of a record still hold that record, whatever follows it.
pub proof fn lemma_index_ok_extends(b2: Seq<u8>, b: Seq<u8>, idx: Index)
    requires
        extends(b2, b),
        index_ok(b, idx),
    ensures
        index_ok(b2, idx),
{
    lemma_header_ok_extends(b2, b, idx);
    assert forall|j: int| 0 <= j < MAX_COMPONENTS implies component_ok(
        b2,
        COMPONENTS_OFFSET + COMPONENT_LEN * j,
        #[trigger] idx.components[j],
    ) by {
        lemma_component_ok_extends(b2, b, COMPONENTS_OFFSET + COMPONENT_LEN * j, idx.components[j]);
    }
    lemma_rebalance_ok_extends(b2, b, REBALANCE_OFFSET as int, idx.rebalance);
}

proof fn lemma_i64_roundtrip(x: i64)
    ensures
        (x as u64) as i64 == x,
{
    assert((x as u64) as i64 == x) by (bit_vector);
}

proof fn lemma_i16_roundtrip(x: i16)
    ensures
        (x as u16) as i16 == x,
{
    assert((x as u16) as i16 == x) by (bit_vector);
}

fn push_key(out: &mut Vec<u8>, k: &Key)
    ensures
        final(out)@.len() == old(out)@.len() + 32,
        extends(final(out)@, old(out)@),
        bytes_match(final(out)@, old(out)@.len() as int, k@),
{
    let s = k.bytes.as_slice();
    assert(s@ == k@);
    push_bytes(out, s);
}

fn push_byte(out: &mut Vec<u8>, x: u8)
    ensures
        final(out)@.len() == old(out)@.len() + 1,
        extends(final(out)@, old(out)@),
        final(out)@[old(out)@.len() as int] == x,
{
    out.push(x);
}

fn encode_component(out: &mut Vec<u8>, c: &Component)
    ensures
        final(out)@.len() == old(out)@.len() + COMPONENT_LEN,
        extends(final(out)@, old(out)@),
        component_ok(final(out)@, old(out)@.len() as int, *c),
{
    let ghost at = out@.len() as int;
    let ghost s0 = out@;
    push_key(out, &c.mint);
    let ghost s1 = out@;
    push_u64(out, c.units);
    let ghost s2 = out@;
    push_u64(out, c.target_units);
    let ghost s3 = out@;
    push_u64(out, c.ref_price_e9);
    let ghost s4 = out@;
    push_byte(out, c.decimals);
    let ghost s5 = out@;
    push_byte(out, c.vault_bump);
    let ghost s6 = out@;
    let pad = c._pad.as_slice();
    assert(pad@ == c._pad@);
    push_bytes(out, pad);
    proof {
        let f = out@;
        lemma_extends_trans(s5, s6, f);
        lemma_extends_trans(s4, s5, f);
        lemma_extends_trans(s3, s4, f);
        lemma_extends_trans(s2, s3, f);
        lemma_extends_trans(s1, s2, f);
        lemma_extends_trans(s0, s1, f);
        lemma_bytes_match_extends(f, s1, at, c.mint@);
        lemma_le_extends(f, s2, at + 32);
        lemma_le_extends(f, s3, at + 40);
        lemma_le_extends(f, s4, at + 48);
        assert(f[at + 56] == s5[at + 56]);
        assert(f[at + 57] == s6[at + 57]);
    }
}

fn encode_rebalance(out: &mut Vec<u8>, r: &Rebalance)
    ensures
        final(out)@.len() == old(out)@.len() + REBALANCE_LEN,
        extends(final(out)@, old(out)@),
        rebalance_ok(final(out)@, old(out)@.len() as int, *r),
{
    let ghost at = out@.len() as int;
    let ghost s0 = out@;
    push_key(out, &r.proposer);
    let ghost s1 = out@;
    push_u64(out, r.proposed_at as u64);
    let ghost s2 = out@;
    push_u64(out, r.start_ts as u64);
    let ghost s3 = out@;
    push_u64(out, r.end_ts as u64);
    let ghost s4 = out@;
    push_u64(out, r.nav_floor_e6);
    let ghost s5 = out@;
    push_u16(out, r.start_premium_bps as u16);
    let ghost s6 = out@;
    push_u16(out, r.end_premium_bps as u16);
    let ghost s7 = out@;
    push_u16(out, r.max_nav_loss_bps);
    let ghost s8 = out@;
    push_byte(out, r.active);
    let ghost s9 = out@;
    let pad = r._pad.as_slice();
    assert(pad@ == r._pad@);
    push_bytes(out, pad);
    proof {
        let f = out@;
        lemma_extends_trans(s8, s9, f);
        lemma_extends_trans(s7, s8, f);
        lemma_extends_trans(s6, s7, f);
        lemma_extends_trans(s5, s6, f);
        lemma_extends_trans(s4, s5, f);
        lemma_extends_trans(s3, s4, f);
        lemma_extends_trans(s2, s3, f);
        lemma_extends_trans(s1, s2, f);
        lemma_extends_trans(s0, s1, f);
        lemma_bytes_match_extends(f, s1, at, r.proposer@);
        lemma_le_extends(f, s2, at + 32);
        lemma_le_extends(f, s3, at + 40);
        lemma_le_extends(f, s4, at + 48);
        lemma_le_extends(f, s5, at + 56);
        lemma_le16_extends(f, s6, at + 64);
        lemma_le16_extends(f, s7, at + 66);
        lemma_le16_extends(f, s8, at + 68);
        assert(f[at + 70] == s9[at + 70]);
        lemma_i64_roundtrip(r.proposed_at);
        lemma_i64_roundtrip(r.start_ts);
        lemma_i64_roundtrip(r.end_ts);
        lemma_i16_roundtrip(r.start_premium_bps);
        lemma_i16_roundtrip(r.end_premium_bps);
    }
}

fn encode_header(out: &mut Vec<u8>, idx: &Index)
    requires
        old(out)@.len() == 0,
    ensures
        final(out)@.len() == COMPONENTS_OFFSET,
        header_ok(final(out)@, *idx),
{
    let ghost s0 = out@;
    push_key(out, &idx.index_mint);
    let ghost s1 = out@;
    push_key(out, &idx.governor);
    let ghost s2 = out@;
    push_key(out, &idx.manager);
    let ghost s3 = out@;
    push_key(out, &idx.fee_recipient);
    let ghost s4 = out@;
    push_u64(out, idx.last_fee_accrual as u64);
    let ghost s5 = out@;
    push_u64(out, idx.created_at as u64);
    let ghost s6 = out@;
    push_u32(out, idx.rebalance_delay);
    let ghost s7 = out@;
    push_u16(out, idx.streaming_fee_bps);
    let ghost s8 = out@;
    push_u16(out, idx.issue_fee_bps);
    let ghost s9 = out@;
    push_u16(out, idx.redeem_fee_bps);
    let ghost s10 = out@;
    push_u16(out, idx.max_premium_bps);
    let ghost s11 = out@;
    push_byte(out, idx.tag);
    push_byte(out, idx.version);
    push_byte(out, idx.bump);
    push_byte(out, idx.state);
    push_byte(out, idx.decimals);
    push_byte(out, idx.component_count);
    let ghost s12 = out@;
    let name = idx.name.as_slice();
    assert(name@ == idx.name@);
    push_bytes(out, name);
    let ghost s13 = out@;
    let symbol = idx.symbol.as_slice();
    assert(symbol@ == idx.symbol@);
    push_bytes(out, symbol);
    let ghost s14 = out@;
    let pad = idx._pad.as_slice();
    assert(pad@ == idx._pad@);
    push_bytes(out, pad);
    proof {
        let f = out@;
        lemma_extends_trans(s13, s14, f);
        lemma_extends_trans(s12, s13, f);
        lemma_extends_trans(s11, s12, f);
        lemma_extends_trans(s10, s11, f);
        lemma_extends_trans(s9, s10, f);
        lemma_extends_trans(s8, s9, f);
        lemma_extends_trans(s7, s8, f);
        lemma_extends_trans(s6, s7, f);
        lemma_extends_trans(s5, s6, f);
        lemma_extends_trans(s4, s5, f);
        lemma_extends_trans(s3, s4, f);
        lemma_extends_trans(s2, s3, f);
        lemma_extends_trans(s1, s2, f);
        lemma_bytes_match_extends(f, s1, 0, idx.index_mint@);
        lemma_bytes_match_extends(f, s2, 32, idx.governor@);
        lemma_bytes_match_extends(f, s3, 64, idx.manager@);
        lemma_bytes_match_extends(f, s4, 96, idx.fee_recipient@);
        lemma_le_extends(f, s5, 128);
        lemma_le_extends(f, s6, 136);
        lemma_le32_extends(f, s7, 144);
        lemma_le16_extends(f, s8, 148);
        lemma_le16_extends(f, s9, 150);
        lemma_le16_extends(f, s10, 152);
        lemma_le16_extends(f, s11, 154);
        assert(f[156] == s12[156]);
        assert(f[157] == s12[157]);
        assert(f[158] == s12[158]);
        assert(f[159] == s12[159]);
        assert(f[160] == s12[160]);
        assert(f[161] == s12[161]);
        lemma_bytes_match_extends(f, s13, 162, idx.name@);
        lemma_bytes_match_extends(f, s14, 194, idx.symbol@);
        lemma_i64_roundtrip(idx.last_fee_accrual);
        lemma_i64_roundtrip(idx.created_at);
    }
}

/// The byte image of a record, exactly `INDEX_LEN` bytes.
pub fn encode_index(idx: &Index) -> (out: Vec<u8>)
    ensures
        out@.len() == INDEX_LEN,
        index_ok(out@, *idx),
{
    let mut out: Vec<u8> = Vec::new();
    encode_header(&mut out, idx);
    let mut i: usize = 0;
    while i < MAX_COMPONENTS
        invariant
            i <= MAX_COMPONENTS,
            out@.len() == COMPONENTS_OFFSET + COMPONENT_LEN * i,
            header_ok(out@, *idx),
            forall|j: int|
                0 <= j < i ==> component_ok(
                    out@,
                    COMPONENTS_OFFSET + COMPONENT_LEN * j,
                    #[trigger] idx.components[j],
                ),
        decreases MAX_COMPONENTS - i,
    {
        let ghost before = out@;
        encode_component(&mut out, &idx.components[i]);
        proof {
            lemma_header_ok_extends(out@, before, *idx);
            assert forall|j: int| 0 <= j < i + 1 implies component_ok(
                out@,
                COMPONENTS_OFFSET + COMPONENT_LEN * j,
                #[trigger] idx.components[j],
            ) by {
                if j < i {
                    lemma_component_ok_extends(
                        out@,
                        before,
                        COMPONENTS_OFFSET + COMPONENT_LEN * j,
                        idx.components[j],
                    );
                }
            }
        }
        i = i + 1;
    }
    let ghost before = out@;
    encode_rebalance(&mut out, &idx.rebalance);
    proof {
        lemma_header_ok_extends(out@, before, *idx);
        assert forall|j: int| 0 <= j < MAX_COMPONENTS implies component_ok(
            out@,
            COMPONENTS_OFFSET + COMPONENT_LEN * j,
            #[trigger] idx.components[j],
        ) by {
            lemma_component_ok_extends(
                out@,
                before,
                COMPONENTS_OFFSET + COMPONENT_LEN * j,
                idx.components[j],
            );
        }
    }
    out
}

} // verus!
