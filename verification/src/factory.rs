//! The pair registry: canonical pair identity, the two-phase creation
//! protocol, per-pair fee configuration, and paginated listing.

use vstd::prelude::*;

use crate::asset::AssetInfo;
use crate::decimal::Decimal;
use crate::lex::{bytes_eq, bytes_le, lex_le, lex_lt};
use crate::ContractError;

verus! {

/// Largest total fee a pair may charge: 5%.
pub const MAX_TOTAL_FEE_ATOMICS: u128 = 50_000_000_000_000_000;

/// Largest share of the fee the protocol may take: 80%.
pub const MAX_PROTOCOL_FEE_ATOMICS: u128 = 800_000_000_000_000_000;

/// Default total fee: 0.3%.
pub const DEFAULT_TOTAL_FEE_ATOMICS: u128 = 3_000_000_000_000_000;

/// Default protocol share of the fee: 33.4%.
pub const DEFAULT_PROTOCOL_FEE_ATOMICS: u128 = 334_000_000_000_000_000;

/// A pair's fee setting: the total rate taken from every swap's gross
/// return, and the protocol's share of that commission.
#[derive(Clone, Copy, Debug, PartialEq, Eq, Structural)]
pub struct FeeConfig {
    pub total_fee: Decimal,
    pub protocol_fee: Decimal,
}

impl FeeConfig {
    /// The bounds a fee configuration must meet to be stored.
    pub open spec fn spec_is_valid(&self) -> bool {
        &&& self.total_fee.atomics <= MAX_TOTAL_FEE_ATOMICS
        &&& self.protocol_fee.atomics <= MAX_PROTOCOL_FEE_ATOMICS
    }

    pub fn is_valid(&self) -> (r: bool)
        ensures
            r == self.spec_is_valid(),
    {
        self.total_fee.le(&Decimal { atomics: MAX_TOTAL_FEE_ATOMICS }) && self.protocol_fee.le(
            &Decimal { atomics: MAX_PROTOCOL_FEE_ATOMICS },
        )
    }
}

impl Default for FeeConfig {
    /// 0.3% total, of which the protocol takes 33.4%.
    fn default() -> (r: FeeConfig)
        ensures
            r.total_fee.atomics == DEFAULT_TOTAL_FEE_ATOMICS,
            r.protocol_fee.atomics == DEFAULT_PROTOCOL_FEE_ATOMICS,
    {
        FeeConfig {
            total_fee: Decimal { atomics: DEFAULT_TOTAL_FEE_ATOMICS },
            protocol_fee: Decimal { atomics: DEFAULT_PROTOCOL_FEE_ATOMICS },
        }
    }
}

/// The registry's own configuration: the owner who may mutate it, code
/// identifiers for instantiating pairs and their share tokens, the fee
/// collector, and the admin assigned to new pairs.
pub struct Config {
    pub owner: String,
    pub pair_code_id: u64,
    pub token_code_id: u64,
    pub collector: String,
    pub pairs_admin: String,
}

pub struct ConfigView {
    pub owner: Seq<char>,
    pub pair_code_id: u64,
    pub token_code_id: u64,
    pub collector: Seq<char>,
    pub pairs_admin: Seq<char>,
}

impl View for Config {
    type V = ConfigView;

    open spec fn view(&self) -> ConfigView {
        ConfigView {
            owner: self.owner@,
            pair_code_id: self.pair_code_id,
            token_code_id: self.token_code_id,
            collector: self.collector@,
            pairs_admin: self.pairs_admin@,
        }
    }
}

/// The configuration record laid down before the pairs admin existed.
pub struct LegacyConfig {
    pub owner: String,
    pub pair_code_id: u64,
    pub token_code_id: u64,
    pub collector: String,
}

/// Carry a legacy configuration over, adding the pairs admin.
pub fn migrate_config(legacy: LegacyConfig, pairs_admin: String) -> (r: Config)
    ensures
        r@.owner == legacy.owner@,
        r@.pair_code_id == legacy.pair_code_id,
        r@.token_code_id == legacy.token_code_id,
        r@.collector == legacy.collector@,
        r@.pairs_admin == pairs_admin@,
{
    Config {
        owner: legacy.owner,
        pair_code_id: legacy.pair_code_id,
        token_code_id: legacy.token_code_id,
        collector: legacy.collector,
        pairs_admin,
    }
}

/// What one registered pair holds: its instance address and fee setting.
#[derive(Debug, PartialEq, Eq)]
pub struct PairConfig {
    pub pair_address: String,
    pub fee_config: FeeConfig,
}

pub struct PairConfigView {
    pub pair_address: Seq<char>,
    pub fee_config: FeeConfig,
}

impl View for PairConfig {
    type V = PairConfigView;

    open spec fn view(&self) -> PairConfigView {
        PairConfigView { pair_address: self.pair_address@, fee_config: self.fee_config }
    }
}

impl Clone for PairConfig {
    fn clone(&self) -> (r: PairConfig)
        ensures
            r@ == self@,
    {
        PairConfig { pair_address: self.pair_address.clone(), fee_config: self.fee_config }
    }
}

/// The single pending-creation slot held between a creation request and
/// its confirmation.
#[derive(Debug, PartialEq, Eq)]
pub struct TmpPairInfo {
    pub pair_key: Vec<u8>,
    pub fee_config: FeeConfig,
}

pub struct TmpPairInfoView {
    pub pair_key: Seq<u8>,
    pub fee_config: FeeConfig,
}

impl View for TmpPairInfo {
    type V = TmpPairInfoView;

    open spec fn view(&self) -> TmpPairInfoView {
        TmpPairInfoView { pair_key: self.pair_key@, fee_config: self.fee_config }
    }
}

/// The canonical key of an asset pair: both identity encodings,
/// concatenated in ascending lexicographic order, so that the key does
/// not depend on the order the two assets were given in.
pub open spec fn spec_pair_key(a: crate::asset::AssetInfoView, b: crate::asset::AssetInfoView) -> Seq<
    u8,
> {
    if lex_le(a.key_bytes(), b.key_bytes()) {
        a.key_bytes() + b.key_bytes()
    } else {
        b.key_bytes() + a.key_bytes()
    }
}

pub fn pair_key(asset_infos: &[AssetInfo; 2]) -> (r: Vec<u8>)
    ensures
        r@ == spec_pair_key(asset_infos[0]@, asset_infos[1]@),
{
    let ka = vstd::slice::slice_to_vec(asset_infos[0].as_bytes());
    let mut kb = vstd::slice::slice_to_vec(asset_infos[1].as_bytes());
    if bytes_le(&ka, &kb) {
        let mut r = ka;
        r.append(&mut kb);
        r
    } else {
        let mut r = kb;
        let mut ka2 = ka;
        r.append(&mut ka2);
        r
    }
}

/// The key of a pair is the same whichever way round its assets are
/// given.
pub proof fn lemma_pair_key_symmetric(a: crate::asset::AssetInfoView, b: crate::asset::AssetInfoView)
    ensures
        spec_pair_key(a, b) == spec_pair_key(b, a),
{
    crate::lex::lemma_lex_total(a.key_bytes(), b.key_bytes());
    if lex_le(a.key_bytes(), b.key_bytes()) && lex_le(b.key_bytes(), a.key_bytes()) {
        crate::lex::lemma_lex_antisymmetric(a.key_bytes(), b.key_bytes());
    }
}

/// An exclusive range cursor: the canonical key of the pair named in
/// `start_after`, extended by one byte, so the scan resumes just past it.
pub fn calc_range_start(start_after: Option<&[AssetInfo; 2]>) -> (r: Option<Vec<u8>>)
    ensures
        match start_after {
            Some(infos) => (r matches Some(v) && v@ == spec_pair_key(infos[0]@, infos[1]@)
                + seq![1u8]),
            None => r is None,
        },
{
    match start_after {
        Some(infos) => {
            let mut v = pair_key(infos);
            v.push(1);
            proof {
                assert(v@ =~= spec_pair_key(infos[0]@, infos[1]@) + seq![1u8]);
            }
            Some(v)
        },
        None => None,
    }
}

/// The value stored under `k`: the first entry whose key is `k`.
pub open spec fn spec_get(s: Seq<(Vec<u8>, PairConfig)>, k: Seq<u8>) -> Option<PairConfigView>
    decreases s.len(),
{
    if s.len() == 0 {
        None
    } else if s[0].0@ == k {
        Some(s[0].1@)
    } else {
        spec_get(s.skip(1), k)
    }
}

/// The whole registry: configuration, the pending-creation slot, and the
/// registered pairs in ascending canonical-key order.
pub struct Registry {
    pub config: Config,
    pub tmp_pair_info: Option<TmpPairInfo>,
    pub pairs: Vec<(Vec<u8>, PairConfig)>,
}

impl Registry {
    /// Keys strictly ascend, so each key appears once and range scans are
    /// ordered.
    pub open spec fn well_formed(&self) -> bool {
        forall|i: int, j: int|
            0 <= i < j < self.pairs@.len() ==> lex_lt(self.pairs@[i].0@, self.pairs@[j].0@)
    }

    /// The two registries hold the same state.
    pub open spec fn state_eq(&self, other: &Registry) -> bool {
        &&& self.config@ == other.config@
        &&& self.spec_tmp() == other.spec_tmp()
        &&& self.pairs@ == other.pairs@
    }

    pub open spec fn spec_tmp(&self) -> Option<TmpPairInfoView> {
        match self.tmp_pair_info {
            Some(t) => Some(t@),
            None => None,
        }
    }
}

/// The basic settings a registry starts from.
pub struct InstantiateMsg {
    pub token_code_id: u64,
    pub pair_code_id: u64,
    pub collector: String,
    pub owner: String,
    pub pairs_admin: String,
}

/// A fresh registry: the given configuration, no pending creation, no
/// pairs.
pub fn instantiate(msg: InstantiateMsg) -> (r: Registry)
    ensures
        r.config@.owner == msg.owner@,
        r.config@.token_code_id == msg.token_code_id,
        r.config@.pair_code_id == msg.pair_code_id,
        r.config@.collector == msg.collector@,
        r.config@.pairs_admin == msg.pairs_admin@,
        r.tmp_pair_info is None,
        r.pairs@.len() == 0,
        r.well_formed(),
{
    Registry {
        config: Config {
            owner: msg.owner,
            token_code_id: msg.token_code_id,
            pair_code_id: msg.pair_code_id,
            collector: msg.collector,
            pairs_admin: msg.pairs_admin,
        },
        tmp_pair_info: None,
        pairs: Vec::new(),
    }
}

/// Owner-only update of any subset of the configuration fields.
pub fn execute_update_config(
    registry: &mut Registry,
    sender: &String,
    owner: Option<String>,
    token_code_id: Option<u64>,
    pair_code_id: Option<u64>,
    collector: Option<String>,
    pairs_admin: Option<String>,
) -> (r: Result<(), ContractError>)
    ensures
        sender@ != old(registry).config@.owner ==> r == Err::<(), ContractError>(
            ContractError::PermissionDenied,
        ) && final(registry).state_eq(old(registry)),
        sender@ == old(registry).config@.owner ==> r == Ok::<(), ContractError>(()) && {
            let c = final(registry).config@;
            let c0 = old(registry).config@;
            &&& c.owner == (match owner {
                Some(x) => x@,
                None => c0.owner,
            })
            &&& c.token_code_id == (match token_code_id {
                Some(x) => x,
                None => c0.token_code_id,
            })
            &&& c.pair_code_id == (match pair_code_id {
                Some(x) => x,
                None => c0.pair_code_id,
            })
            &&& c.collector == (match collector {
                Some(x) => x@,
                None => c0.collector,
            })
            &&& c.pairs_admin == (match pairs_admin {
                Some(x) => x@,
                None => c0.pairs_admin,
            })
            &&& final(registry).pairs@ == old(registry).pairs@
            &&& final(registry).spec_tmp() == old(registry).spec_tmp()
        },
{
    if !(*sender == registry.config.owner) {
        return Err(ContractError::PermissionDenied);
    }
    if let Some(x) = owner {
        registry.config.owner = x;
    }
    if let Some(x) = token_code_id {
        registry.config.token_code_id = x;
    }
    if let Some(x) = pair_code_id {
        registry.config.pair_code_id = x;
    }
    if let Some(x) = collector {
        registry.config.collector = x;
    }
    if let Some(x) = pairs_admin {
        registry.config.pairs_admin = x;
    }
    Ok(())
}

/// A lookup into concatenated entry lists is decided by the left part
/// first.
proof fn lemma_get_append(s1: Seq<(Vec<u8>, PairConfig)>, s2: Seq<(Vec<u8>, PairConfig)>, k: Seq<
    u8,
>)
    ensures
        spec_get(s1 + s2, k) == (match spec_get(s1, k) {
            Some(v) => Some(v),
            None => spec_get(s2, k),
        }),
    decreases s1.len(),
{
    if s1.len() == 0 {
        assert(s1 + s2 =~= s2);
    } else {
        assert((s1 + s2)[0] == s1[0]);
        assert((s1 + s2).len() > 0);
        if s1[0].0@ == k {
        } else {
            assert((s1 + s2).skip(1) =~= s1.skip(1) + s2);
            lemma_get_append(s1.skip(1), s2, k);
        }
    }
}

/// The first entry index holding `key`, scanning front to back.
fn find_pair_index(pairs: &Vec<(Vec<u8>, PairConfig)>, key: &Vec<u8>) -> (r: Option<usize>)
    ensures
        match r {
            Some(i) => i < pairs@.len() && pairs@[i as int].0@ == key@ && spec_get(pairs@, key@)
                == Some(pairs@[i as int].1@) && (forall|j: int|
                0 <= j < i ==> pairs@[j].0@ != key@),
            None => spec_get(pairs@, key@) is None,
        },
{
    let n: usize = pairs.len();
    let mut i: usize = 0;
    proof {
        assert(pairs@.skip(0) =~= pairs@);
    }
    loop
        invariant
            0 <= i <= n,
            n == pairs@.len(),
            spec_get(pairs@, key@) == spec_get(pairs@.skip(i as int), key@),
            forall|j: int| 0 <= j < i ==> pairs@[j].0@ != key@,
        decreases n - i,
    {
        if i == n {
            proof {
                assert(pairs@.skip(n as int) =~= Seq::<(Vec<u8>, PairConfig)>::empty());
            }
            return None;
        }
        proof {
            assert(pairs@.skip(i as int)[0] == pairs@[i as int]);
            assert(pairs@.skip(i as int).skip(1) =~= pairs@.skip(i + 1));
        }
        if bytes_eq(&pairs[i].0, key) {
            return Some(i);
        }
        i = i + 1;
    }
}

/// The first index whose key is not below `key`: the insertion point that
/// keeps the list sorted.
fn lower_bound(pairs: &Vec<(Vec<u8>, PairConfig)>, key: &Vec<u8>) -> (r: usize)
    ensures
        r <= pairs@.len(),
        forall|j: int| 0 <= j < r ==> lex_lt(pairs@[j].0@, key@),
        r < pairs@.len() ==> !lex_lt(pairs@[r as int].0@, key@),
{
    let n: usize = pairs.len();
    let mut i: usize = 0;
    loop
        invariant
            0 <= i <= n,
            n == pairs@.len(),
            forall|j: int| 0 <= j < i ==> lex_lt(pairs@[j].0@, key@),
        decreases n - i,
    {
        if i == n {
            return i;
        }
        if bytes_le(key, &pairs[i].0) {
            return i;
        }
        i = i + 1;
    }
}

/// The default fee configuration as a value, for contracts.
pub open spec fn spec_default_fee() -> FeeConfig {
    FeeConfig {
        total_fee: Decimal { atomics: DEFAULT_TOTAL_FEE_ATOMICS },
        protocol_fee: Decimal { atomics: DEFAULT_PROTOCOL_FEE_ATOMICS },
    }
}

/// Owner-only start of the two-phase pair creation: validate, refuse
/// duplicates, park the key and fee in the pending slot, and ask the host
/// to instantiate the pair. The record itself is written only on
/// confirmation.
pub fn execute_create_pair(
    registry: &mut Registry,
    sender: &String,
    asset_infos: &[AssetInfo; 2],
    fee_config: Option<FeeConfig>,
) -> (r: Result<(), ContractError>)
    ensures
        ({
            let key = spec_pair_key(asset_infos[0]@, asset_infos[1]@);
            let fee = match fee_config {
                Some(f) => f,
                None => spec_default_fee(),
            };
            &&& (sender@ != old(registry).config@.owner ==> r == Err::<(), ContractError>(
                ContractError::PermissionDenied,
            ))
            &&& (sender@ == old(registry).config@.owner && asset_infos[0]@ == asset_infos[1]@
                ==> r == Err::<(), ContractError>(ContractError::DoublingAssets))
            &&& (sender@ == old(registry).config@.owner && asset_infos[0]@ != asset_infos[1]@
                && !fee.spec_is_valid() ==> r == Err::<(), ContractError>(
                ContractError::ValidationError,
            ))
            &&& (sender@ == old(registry).config@.owner && asset_infos[0]@ != asset_infos[1]@
                && fee.spec_is_valid() && spec_get(old(registry).pairs@, key) is Some ==> r
                == Err::<(), ContractError>(ContractError::ConflictError))
            &&& (sender@ == old(registry).config@.owner && asset_infos[0]@ != asset_infos[1]@
                && fee.spec_is_valid() && spec_get(old(registry).pairs@, key) is None ==> r
                == Ok::<(), ContractError>(()) && final(registry).spec_tmp() == Some(
                TmpPairInfoView { pair_key: key, fee_config: fee },
            ))
            &&& (r is Err ==> final(registry).state_eq(old(registry)))
            &&& final(registry).config@ == old(registry).config@
            &&& final(registry).pairs@ == old(registry).pairs@
        }),
{
    if !(*sender == registry.config.owner) {
        return Err(ContractError::PermissionDenied);
    }
    if asset_infos[0].equals(&asset_infos[1]) {
        return Err(ContractError::DoublingAssets);
    }
    let fee: FeeConfig = match fee_config {
        Some(f) => f,
        None => Default::default(),
    };
    if !fee.is_valid() {
        return Err(ContractError::ValidationError);
    }
    let key = pair_key(asset_infos);
    if find_pair_index(&registry.pairs, &key).is_some() {
        return Err(ContractError::ConflictError);
    }
    registry.tmp_pair_info = Some(TmpPairInfo { pair_key: key, fee_config: fee });
    Ok(())
}

/// The system-trusted resume step of pair creation: bind the newly
/// instantiated pair's address to the pending key. The pending slot is
/// deliberately left in place, exactly as wide as the protocol it models.
pub fn reply(registry: &mut Registry, pair_address: String) -> (r: Result<(), ContractError>)
    requires
        old(registry).well_formed(),
    ensures
        old(registry).spec_tmp() is None ==> r == Err::<(), ContractError>(
            ContractError::NotFoundError,
        ) && final(registry).state_eq(old(registry)),
        old(registry).spec_tmp() matches Some(t) ==> r == Ok::<(), ContractError>(()) && {
            &&& final(registry).well_formed()
            &&& spec_get(final(registry).pairs@, t.pair_key) == Some(
                PairConfigView { pair_address: pair_address@, fee_config: t.fee_config },
            )
            &&& forall|k: Seq<u8>|
                k != t.pair_key ==> #[trigger] spec_get(final(registry).pairs@, k) == spec_get(
                    old(registry).pairs@,
                    k,
                )
            &&& final(registry).pairs@.len() == old(registry).pairs@.len() + (
            if spec_get(old(registry).pairs@, t.pair_key) is Some {
                0int
            } else {
                1int
            })
            &&& final(registry).config@ == old(registry).config@
            &&& final(registry).spec_tmp() == old(registry).spec_tmp()
        },
{
    match &registry.tmp_pair_info {
        None => Err(ContractError::NotFoundError),
        Some(tmp) => {
            let key = vstd::slice::slice_to_vec(tmp.pair_key.as_slice());
            let fee_config = tmp.fee_config;
            store_pair(&mut registry.pairs, key, PairConfig { pair_address, fee_config });
            Ok(())
        },
    }
}

/// Owner-only replacement of a registered pair's fee configuration.
pub fn execute_update_pair_config(
    registry: &mut Registry,
    sender: &String,
    asset_infos: &[AssetInfo; 2],
    fee_config: FeeConfig,
) -> (r: Result<(), ContractError>)
    requires
        old(registry).well_formed(),
    ensures
        ({
            let key = spec_pair_key(asset_infos[0]@, asset_infos[1]@);
            &&& (sender@ != old(registry).config@.owner ==> r == Err::<(), ContractError>(
                ContractError::PermissionDenied,
            ))
            &&& (sender@ == old(registry).config@.owner && !fee_config.spec_is_valid() ==> r
                == Err::<(), ContractError>(ContractError::ValidationError))
            &&& (sender@ == old(registry).config@.owner && fee_config.spec_is_valid()
                && spec_get(old(registry).pairs@, key) is None ==> r == Err::<(), ContractError>(
                ContractError::NotFoundError,
            ))
            &&& (sender@ == old(registry).config@.owner && fee_config.spec_is_valid()
                ==> (spec_get(old(registry).pairs@, key) matches Some(pc) ==> r == Ok::<
                (),
                ContractError,
            >(()) && {
                &&& final(registry).well_formed()
                &&& spec_get(final(registry).pairs@, key) == Some(
                    PairConfigView { pair_address: pc.pair_address, fee_config },
                )
                &&& forall|k: Seq<u8>|
                    k != key ==> #[trigger] spec_get(final(registry).pairs@, k) == spec_get(
                        old(registry).pairs@,
                        k,
                    )
                &&& final(registry).pairs@.len() == old(registry).pairs@.len()
            }))
            &&& (r is Err ==> final(registry).state_eq(old(registry)))
            &&& final(registry).config@ == old(registry).config@
            &&& final(registry).spec_tmp() == old(registry).spec_tmp()
        }),
{
    if !(*sender == registry.config.owner) {
        return Err(ContractError::PermissionDenied);
    }
    if !fee_config.is_valid() {
        return Err(ContractError::ValidationError);
    }
    let key = pair_key(asset_infos);
    match find_pair_index(&registry.pairs, &key) {
        None => Err(ContractError::NotFoundError),
        Some(i) => {
            let pair_address = registry.pairs[i].1.pair_address.clone();
            store_pair(&mut registry.pairs, key, PairConfig { pair_address, fee_config });
            Ok(())
        },
    }
}

/// Owner-only removal of a registered pair; the pair instance itself is
/// untouched.
pub fn execute_deregister(
    registry: &mut Registry,
    sender: &String,
    asset_infos: &[AssetInfo; 2],
) -> (r: Result<(), ContractError>)
    requires
        old(registry).well_formed(),
    ensures
        ({
            let key = spec_pair_key(asset_infos[0]@, asset_infos[1]@);
            &&& (sender@ != old(registry).config@.owner ==> r == Err::<(), ContractError>(
                ContractError::PermissionDenied,
            ))
            &&& (sender@ == old(registry).config@.owner && spec_get(old(registry).pairs@, key)
                is None ==> r == Err::<(), ContractError>(ContractError::NotFoundError))
            &&& (sender@ == old(registry).config@.owner && spec_get(old(registry).pairs@, key)
                is Some ==> r == Ok::<(), ContractError>(()) && {
                &&& final(registry).well_formed()
                &&& spec_get(final(registry).pairs@, key) is None
                &&& forall|k: Seq<u8>|
                    k != key ==> #[trigger] spec_get(final(registry).pairs@, k) == spec_get(
                        old(registry).pairs@,
                        k,
                    )
                &&& final(registry).pairs@.len() == old(registry).pairs@.len() - 1
            })
            &&& (r is Err ==> final(registry).state_eq(old(registry)))
            &&& final(registry).config@ == old(registry).config@
            &&& final(registry).spec_tmp() == old(registry).spec_tmp()
        }),
{
    if !(*sender == registry.config.owner) {
        return Err(ContractError::PermissionDenied);
    }
    let key = pair_key(asset_infos);
    let ghost s0 = registry.pairs@;
    let ghost kv = key@;
    match find_pair_index(&registry.pairs, &key) {
        None => Err(ContractError::NotFoundError),
        Some(i) => {
            registry.pairs.remove(i);
            proof {
                let s1 = registry.pairs@;
                let ii = i as int;
                assert(s1 =~= s0.take(ii) + s0.skip(ii + 1));
                assert(forall|j: int| 0 <= j < ii ==> s1[j] == s0[j]);
                assert(forall|j: int| ii <= j < s1.len() ==> s1[j] == s0[j + 1]);
                // the key is gone: every remaining key differs from it
                assert forall|j: int| 0 <= j < s1.len() implies s1[j].0@ != kv by {
                    if j < ii {
                        crate::lex::lemma_lex_lt_neq(s1[j].0@, kv);
                    } else {
                        crate::lex::lemma_lex_lt_neq(kv, s1[j].0@);
                        assert(lex_lt(s0[ii].0@, s0[j + 1].0@));
                    }
                }
                lemma_get_none_iff(s1, kv);
                // every other key is untouched
                assert forall|k: Seq<u8>| k != kv implies #[trigger] spec_get(s1, k) == spec_get(
                    s0,
                    k,
                ) by {
                    let e = s0[ii];
                    lemma_get_append(s0.take(ii), s0.skip(ii + 1), k);
                    lemma_get_append(s0.take(ii), seq![e] + s0.skip(ii + 1), k);
                    lemma_get_append(seq![e], s0.skip(ii + 1), k);
                    assert((seq![e])[0] == e);
                    assert((seq![e]).skip(1) =~= Seq::<(Vec<u8>, PairConfig)>::empty());
                    assert(spec_get((seq![e]).skip(1), k) is None);
                    assert(spec_get(seq![e], k) is None);
                    assert(s0 =~= s0.take(ii) + (seq![e] + s0.skip(ii + 1)));
                }
            }
            Ok(())
        },
    }
}

/// The registry's configuration, as the host reports it.
pub struct ConfigResponse {
    pub owner: String,
    pub token_code_id: u64,
    pub pair_code_id: u64,
    pub collector: String,
    pub pairs_admin: String,
}

pub fn query_config(registry: &Registry) -> (r: ConfigResponse)
    ensures
        r.owner@ == registry.config@.owner,
        r.token_code_id == registry.config@.token_code_id,
        r.pair_code_id == registry.config@.pair_code_id,
        r.collector@ == registry.config@.collector,
        r.pairs_admin@ == registry.config@.pairs_admin,
{
    ConfigResponse {
        owner: registry.config.owner.clone(),
        token_code_id: registry.config.token_code_id,
        pair_code_id: registry.config.pair_code_id,
        collector: registry.config.collector.clone(),
        pairs_admin: registry.config.pairs_admin.clone(),
    }
}

/// The record registered under an asset pair.
pub fn query_pair_config(registry: &Registry, asset_infos: &[AssetInfo; 2]) -> (r: Result<
    PairConfig,
    ContractError,
>)
    ensures
        match spec_get(registry.pairs@, spec_pair_key(asset_infos[0]@, asset_infos[1]@)) {
            Some(pc) => r matches Ok(found) && found@ == pc,
            None => r == Err::<PairConfig, ContractError>(ContractError::NotFoundError),
        },
{
    let key = pair_key(asset_infos);
    match find_pair_index(&registry.pairs, &key) {
        None => Err(ContractError::NotFoundError),
        Some(i) => Ok(registry.pairs[i].1.clone()),
    }
}

/// A pair's fee configuration and the collector it pays: an unregistered
/// pair falls back to the default fees.
pub struct FeeInfoResponse {
    pub fee_config: FeeConfig,
    pub collector: String,
}

pub fn query_fee_config(registry: &Registry, asset_infos: &[AssetInfo; 2]) -> (r: FeeInfoResponse)
    ensures
        r.fee_config == (match spec_get(
            registry.pairs@,
            spec_pair_key(asset_infos[0]@, asset_infos[1]@),
        ) {
            Some(pc) => pc.fee_config,
            None => spec_default_fee(),
        }),
        r.collector@ == registry.config@.collector,
{
    let key = pair_key(asset_infos);
    let fee_config: FeeConfig = match find_pair_index(&registry.pairs, &key) {
        Some(i) => registry.pairs[i].1.fee_config,
        None => Default::default(),
    };
    FeeInfoResponse { fee_config, collector: registry.config.collector.clone() }
}

/// Whether a key lies strictly past the cursor; no cursor admits every
/// key.
pub open spec fn cursor_lt(c: Option<Seq<u8>>, k: Seq<u8>) -> bool {
    match c {
        None => true,
        Some(cb) => lex_lt(cb, k),
    }
}

/// The entries strictly past the cursor, in stored order.
pub open spec fn entries_after(s: Seq<(Vec<u8>, PairConfig)>, c: Option<Seq<u8>>) -> Seq<
    (Vec<u8>, PairConfig),
>
    decreases s.len(),
{
    if s.len() == 0 {
        Seq::empty()
    } else {
        let rest = entries_after(s.skip(1), c);
        if cursor_lt(c, s[0].0@) {
            seq![s[0]] + rest
        } else {
            rest
        }
    }
}

/// At most the first `n` elements.
pub open spec fn take_upto(s: Seq<(Vec<u8>, PairConfig)>, n: int) -> Seq<(Vec<u8>, PairConfig)> {
    if n <= s.len() {
        s.take(n)
    } else {
        s
    }
}

/// The stored values of a run of entries.
pub open spec fn configs_of(s: Seq<(Vec<u8>, PairConfig)>) -> Seq<PairConfigView> {
    s.map_values(|e: (Vec<u8>, PairConfig)| e.1@)
}

/// Filtering distributes over extending the scan by one entry.
proof fn lemma_entries_after_snoc(
    s: Seq<(Vec<u8>, PairConfig)>,
    e: (Vec<u8>, PairConfig),
    c: Option<Seq<u8>>,
)
    ensures
        entries_after(s + seq![e], c) == entries_after(s, c) + (if cursor_lt(c, e.0@) {
            seq![e]
        } else {
            Seq::<(Vec<u8>, PairConfig)>::empty()
        }),
    decreases s.len(),
{
    if s.len() == 0 {
        assert(s + seq![e] =~= seq![e]);
        assert((seq![e]).skip(1) =~= Seq::<(Vec<u8>, PairConfig)>::empty());
        assert(entries_after((seq![e]).skip(1), c) == Seq::<(Vec<u8>, PairConfig)>::empty());
        assert(entries_after(s, c) == Seq::<(Vec<u8>, PairConfig)>::empty());
        if cursor_lt(c, e.0@) {
            assert(entries_after(seq![e], c) =~= entries_after(s, c) + seq![e]);
        } else {
            assert(entries_after(seq![e], c) =~= entries_after(s, c));
        }
    } else {
        assert((s + seq![e])[0] == s[0]);
        assert((s + seq![e]).skip(1) =~= s.skip(1) + seq![e]);
        lemma_entries_after_snoc(s.skip(1), e, c);
        if cursor_lt(c, s[0].0@) {
            assert(seq![s[0]] + (entries_after(s.skip(1), c) + (if cursor_lt(c, e.0@) {
                seq![e]
            } else {
                Seq::<(Vec<u8>, PairConfig)>::empty()
            })) =~= (seq![s[0]] + entries_after(s.skip(1), c)) + (if cursor_lt(c, e.0@) {
                seq![e]
            } else {
                Seq::<(Vec<u8>, PairConfig)>::empty()
            }));
        }
    }
}

/// List registered pairs in ascending canonical-key order, starting just
/// past `start_after`, up to `limit` entries (default 10, at most 30).
pub fn read_pairs(
    registry: &Registry,
    start_after: Option<&[AssetInfo; 2]>,
    limit: Option<u32>,
) -> (r: Vec<PairConfig>)
    ensures
        ({
            let c = match start_after {
                Some(infos) => Some(spec_pair_key(infos[0]@, infos[1]@) + seq![1u8]),
                None => None,
            };
            let lim = (match limit {
                Some(l) => if l <= 30 {
                    l as int
                } else {
                    30int
                },
                None => 10int,
            });
            r@.map_values(|pc: PairConfig| pc@) == configs_of(
                take_upto(entries_after(registry.pairs@, c), lim),
            )
        }),
{
    let lim_u32: u32 = match limit {
        Some(l) => if l <= 30 {
            l
        } else {
            30
        },
        None => 10,
    };
    let lim: usize = lim_u32 as usize;
    let cursor: Option<Vec<u8>> = calc_range_start(start_after);
    let ghost c = match &cursor {
        Some(v) => Some(v@),
        None => None,
    };
    let n: usize = registry.pairs.len();
    let mut result: Vec<PairConfig> = Vec::new();
    let mut i: usize = 0;
    proof {
        assert(registry.pairs@.take(0) =~= Seq::<(Vec<u8>, PairConfig)>::empty());
        assert(result@.map_values(|pc: PairConfig| pc@) =~= configs_of(
            take_upto(entries_after(registry.pairs@.take(0), c), lim as int),
        ));
    }
    while i < n
        invariant
            0 <= i <= n,
            n == registry.pairs@.len(),
            lim == lim_u32,
            c == (match &cursor {
                Some(v) => Some(v@),
                None => None,
            }),
            result@.len() <= lim,
            result@.map_values(|pc: PairConfig| pc@) == configs_of(
                take_upto(entries_after(registry.pairs@.take(i as int), c), lim as int),
            ),
            result@.len() < lim ==> result@.map_values(|pc: PairConfig| pc@) == configs_of(
                entries_after(registry.pairs@.take(i as int), c),
            ),
        decreases n - i,
    {
        let ghost s = registry.pairs@;
        let ghost prev = s.take(i as int);
        proof {
            assert(s.take(i + 1) =~= prev + seq![s[i as int]]);
            lemma_entries_after_snoc(prev, s[i as int], c);
        }
        let keep: bool = match &cursor {
            None => true,
            Some(cb) => !bytes_le(&registry.pairs[i].0, cb),
        };
        let ghost res0 = result@;
        if keep && result.len() < lim {
            result.push(registry.pairs[i].1.clone());
            proof {
                let ea0 = entries_after(prev, c);
                let ea1 = entries_after(s.take(i + 1), c);
                assert(ea1 == ea0 + seq![s[i as int]]);
                // before the push the page was not yet cut off
                assert(res0.map_values(|pc: PairConfig| pc@) == configs_of(ea0));
                assert(res0.len() == ea0.len());
                assert(ea1.len() == res0.len() + 1 <= lim);
                assert(take_upto(ea1, lim as int) =~= ea1);
                assert(result@ =~= res0.push(result@[res0.len() as int]));
                assert(result@[res0.len() as int]@ == s[i as int].1@);
                assert(result@.map_values(|pc: PairConfig| pc@).len() == configs_of(ea1).len());
                assert forall|j: int| 0 <= j < result@.len() implies result@.map_values(
                    |pc: PairConfig| pc@,
                )[j] == configs_of(ea1)[j] by {
                    if j < res0.len() {
                        assert(ea1[j] == ea0[j]);
                        assert(result@[j] == res0[j]);
                        assert(res0.map_values(|pc: PairConfig| pc@)[j] == configs_of(ea0)[j]);
                    } else {
                        assert(ea1[j] == s[i as int]);
                    }
                }
                assert(result@.map_values(|pc: PairConfig| pc@) =~= configs_of(ea1));
            }
        } else {
            proof {
                let ea0 = entries_after(prev, c);
                let ea1 = entries_after(s.take(i + 1), c);
                if keep {
                    // the page is full: the extra entry is cut off
                    assert(ea1 == ea0 + seq![s[i as int]]);
                    assert(result@.len() == lim);
                    assert(configs_of(take_upto(ea0, lim as int)).len() == lim);
                    assert(ea0.len() >= lim);
                    assert(take_upto(ea1, lim as int) =~= take_upto(ea0, lim as int));
                } else {
                    assert(ea1 == ea0);
                }
            }
        }
        i = i + 1;
    }
    proof {
        assert(registry.pairs@.take(n as int) =~= registry.pairs@);
    }
    result
}

/// The cursor derived from a listed entry skips nothing: every later key
/// lies strictly past the entry's key extended by the cursor byte. This
/// is the one assumption the exclusive-cursor scheme makes of the key
/// space: no stored key extends another by a low byte.
pub open spec fn cursor_safe(s: Seq<(Vec<u8>, PairConfig)>) -> bool {
    forall|i: int, j: int|
        0 <= i < j < s.len() ==> lex_lt(s[i].0@ + seq![1u8], s[j].0@)
}

/// Filtering by two cursors that admit the same keys gives the same run.
proof fn lemma_ea_equiv(s: Seq<(Vec<u8>, PairConfig)>, c1: Option<Seq<u8>>, c2: Option<Seq<u8>>)
    requires
        forall|j: int| 0 <= j < s.len() ==> cursor_lt(c1, s[j].0@) == cursor_lt(c2, s[j].0@),
    ensures
        entries_after(s, c1) == entries_after(s, c2),
    decreases s.len(),
{
    if s.len() != 0 {
        assert(forall|j: int| 0 <= j < s.skip(1).len() ==> s.skip(1)[j] == s[j + 1]);
        lemma_ea_equiv(s.skip(1), c1, c2);
    }
}

/// A cursor below every key filters nothing out.
proof fn lemma_ea_all(s: Seq<(Vec<u8>, PairConfig)>, c: Option<Seq<u8>>)
    requires
        forall|j: int| 0 <= j < s.len() ==> cursor_lt(c, s[j].0@),
    ensures
        entries_after(s, c) == s,
    decreases s.len(),
{
    if s.len() == 0 {
        assert(entries_after(s, c) =~= s);
    } else {
        assert(forall|j: int| 0 <= j < s.skip(1).len() ==> s.skip(1)[j] == s[j + 1]);
        lemma_ea_all(s.skip(1), c);
        assert(seq![s[0]] + s.skip(1) =~= s);
    }
}

/// Every listed entry is a stored entry.
proof fn lemma_ea_elements(s: Seq<(Vec<u8>, PairConfig)>, c: Option<Seq<u8>>)
    ensures
        forall|i: int|
            0 <= i < entries_after(s, c).len() ==> exists|j: int|
                0 <= j < s.len() && s[j] == #[trigger] entries_after(s, c)[i],
    decreases s.len(),
{
    if s.len() != 0 {
        lemma_ea_elements(s.skip(1), c);
        let ea = entries_after(s, c);
        let rest = entries_after(s.skip(1), c);
        assert forall|i: int| 0 <= i < ea.len() implies exists|j: int|
            0 <= j < s.len() && s[j] == #[trigger] ea[i] by {
            if cursor_lt(c, s[0].0@) {
                if i == 0 {
                    assert(s[0] == ea[0]);
                } else {
                    assert(ea[i] == rest[i - 1]);
                    let j = choose|j: int| 0 <= j < s.skip(1).len() && s.skip(1)[j] == rest[i - 1];
                    assert(s[j + 1] == ea[i]);
                }
            } else {
                assert(ea[i] == rest[i]);
                let j = choose|j: int| 0 <= j < s.skip(1).len() && s.skip(1)[j] == rest[i];
                assert(s[j + 1] == ea[i]);
            }
        }
    }
}

/// Moving the cursor just past the first listed entry drops exactly that
/// entry from the listing.
proof fn lemma_ea_advance(s: Seq<(Vec<u8>, PairConfig)>, c: Option<Seq<u8>>)
    requires
        forall|i: int, j: int| 0 <= i < j < s.len() ==> lex_lt(s[i].0@, s[j].0@),
        cursor_safe(s),
        entries_after(s, c).len() > 0,
    ensures
        entries_after(s, Some(entries_after(s, c)[0].0@ + seq![1u8])) == entries_after(
            s,
            c,
        ).skip(1),
    decreases s.len(),
{
    let ea = entries_after(s, c);
    let tail = s.skip(1);
    assert(forall|j: int| 0 <= j < tail.len() ==> tail[j] == s[j + 1]);
    if cursor_lt(c, s[0].0@) {
        let newc = Some(s[0].0@ + seq![1u8]);
        assert(ea == seq![s[0]] + entries_after(tail, c));
        assert(ea[0] == s[0]);
        // the new cursor does not re-admit the head
        crate::lex::lemma_lex_prefix_le(s[0].0@, seq![1u8]);
        assert(!cursor_lt(newc, s[0].0@));
        // and admits everything after it, as the old cursor did
        assert forall|j: int|
            0 <= j < tail.len() implies cursor_lt(newc, tail[j].0@) == cursor_lt(
            c,
            tail[j].0@,
        ) by {
            assert(lex_lt(s[0].0@ + seq![1u8], s[j + 1].0@));
            if c is Some {
                crate::lex::lemma_lex_lt_transitive(c.unwrap(), s[0].0@, s[j + 1].0@);
            }
        }
        lemma_ea_equiv(tail, newc, c);
        assert(entries_after(s, newc) == entries_after(tail, c));
        assert(ea.skip(1) =~= entries_after(tail, c));
    } else {
        assert(ea == entries_after(tail, c));
        assert(forall|i: int, j: int| 0 <= i < j < tail.len() ==> lex_lt(tail[i].0@, tail[j].0@));
        assert(cursor_safe(tail));
        lemma_ea_advance(tail, c);
        let e0 = ea[0];
        let newc = Some(e0.0@ + seq![1u8]);
        // the head stays excluded under the new cursor
        lemma_ea_elements(tail, c);
        let j = choose|j: int| 0 <= j < tail.len() && tail[j] == e0;
        assert(lex_lt(s[0].0@, e0.0@));
        crate::lex::lemma_lex_prefix_le(e0.0@, seq![1u8]);
        crate::lex::lemma_lex_total(s[0].0@, e0.0@);
        crate::lex::lemma_lex_transitive(s[0].0@, e0.0@, e0.0@ + seq![1u8]);
        assert(!cursor_lt(newc, s[0].0@));
        assert(entries_after(s, newc) == entries_after(tail, newc));
    }
}

/// Walking pages of one: each page is the first remaining entry, and the
/// next page starts just past it.
pub open spec fn pages_of_one(s: Seq<(Vec<u8>, PairConfig)>, c: Option<Seq<u8>>, n: nat) -> Seq<
    (Vec<u8>, PairConfig),
>
    decreases n,
{
    if n == 0 {
        Seq::empty()
    } else {
        let ea = entries_after(s, c);
        if ea.len() == 0 {
            Seq::empty()
        } else {
            seq![ea[0]] + pages_of_one(s, Some(ea[0].0@ + seq![1u8]), (n - 1) as nat)
        }
    }
}

/// Paginated listing is complete: concatenating successive pages of one —
/// each starting just past the last entry of the page before — yields
/// the full listing, in the same order.
pub proof fn lemma_pagination(s: Seq<(Vec<u8>, PairConfig)>, c: Option<Seq<u8>>, n: nat)
    requires
        forall|i: int, j: int| 0 <= i < j < s.len() ==> lex_lt(s[i].0@, s[j].0@),
        cursor_safe(s),
        n >= entries_after(s, c).len(),
    ensures
        pages_of_one(s, c, n) == entries_after(s, c),
    decreases n,
{
    let ea = entries_after(s, c);
    if n == 0 || ea.len() == 0 {
        assert(pages_of_one(s, c, n) =~= ea);
    } else {
        let newc = Some(ea[0].0@ + seq![1u8]);
        lemma_ea_advance(s, c);
        lemma_pagination(s, newc, (n - 1) as nat);
        assert(seq![ea[0]] + ea.skip(1) =~= ea);
    }
}

/// Listing with no cursor returns everything.
pub proof fn lemma_listing_complete(s: Seq<(Vec<u8>, PairConfig)>)
    ensures
        entries_after(s, None) == s,
{
    lemma_ea_all(s, None);
}

/// A lookup skips over any prefix free of its key.
proof fn lemma_get_skip(s: Seq<(Vec<u8>, PairConfig)>, k: Seq<u8>, i: int)
    requires
        0 <= i <= s.len(),
        forall|j: int| 0 <= j < i ==> s[j].0@ != k,
    ensures
        spec_get(s, k) == spec_get(s.skip(i), k),
    decreases i,
{
    if i == 0 {
        assert(s.skip(0) =~= s);
    } else {
        lemma_get_skip(s.skip(1), k, i - 1);
        assert(s.skip(1).skip(i - 1) =~= s.skip(i));
    }
}

/// A lookup misses exactly when no entry holds the key.
proof fn lemma_get_none_iff(s: Seq<(Vec<u8>, PairConfig)>, k: Seq<u8>)
    ensures
        (spec_get(s, k) is None) == (forall|j: int| 0 <= j < s.len() ==> s[j].0@ != k),
    decreases s.len(),
{
    if s.len() != 0 {
        lemma_get_none_iff(s.skip(1), k);
        assert(forall|j: int| 1 <= j < s.len() ==> s[j] == s.skip(1)[j - 1]);
    }
}

/// Rewriting the first entry that holds a key leaves every other key's
/// lookup unchanged.
proof fn lemma_get_update_other(
    s: Seq<(Vec<u8>, PairConfig)>,
    i: int,
    e: (Vec<u8>, PairConfig),
    k: Seq<u8>,
)
    requires
        0 <= i < s.len(),
        s[i].0@ == e.0@,
        k != e.0@,
    ensures
        spec_get(s.update(i, e), k) == spec_get(s, k),
    decreases i,
{
    let s1 = s.update(i, e);
    if i == 0 {
        assert(s1.skip(1) =~= s.skip(1));
    } else {
        assert(s1[0] == s[0]);
        if s[0].0@ != k {
            lemma_get_update_other(s.skip(1), i - 1, e, k);
            assert(s1.skip(1) =~= s.skip(1).update(i - 1, e));
        }
    }
}

/// Store `value` under `key`, replacing an existing entry or inserting at
/// the sorted position; every other key keeps its value.
fn store_pair(pairs: &mut Vec<(Vec<u8>, PairConfig)>, key: Vec<u8>, value: PairConfig)
    requires
        forall|i: int, j: int|
            0 <= i < j < old(pairs)@.len() ==> lex_lt(old(pairs)@[i].0@, old(pairs)@[j].0@),
    ensures
        forall|i: int, j: int|
            0 <= i < j < final(pairs)@.len() ==> lex_lt(final(pairs)@[i].0@, final(pairs)@[j].0@),
        spec_get(final(pairs)@, key@) == Some(value@),
        forall|k: Seq<u8>|
            k != key@ ==> #[trigger] spec_get(final(pairs)@, k) == spec_get(old(pairs)@, k),
        final(pairs)@.len() == old(pairs)@.len() + (if spec_get(old(pairs)@, key@) is Some {
            0int
        } else {
            1int
        }),
{
    let ghost s0 = pairs@;
    let ghost kv = key@;
    match find_pair_index(pairs, &key) {
        Some(i) => {
            pairs.remove(i);
            pairs.insert(i, (key, value));
            proof {
                let e = (key, value);
                let s1 = pairs@;
                assert(s1 =~= s0.update(i as int, e));
                // sortedness: every key view is unchanged
                assert(forall|j: int| 0 <= j < s1.len() ==> s1[j].0@ == s0[j].0@);
                // the stored key now maps to the new value
                assert(forall|j: int| 0 <= j < i ==> s1[j].0@ != kv);
                lemma_get_skip(s1, kv, i as int);
                assert(s1.skip(i as int)[0] == e);
                // all other keys are untouched
                assert forall|k: Seq<u8>| k != kv implies #[trigger] spec_get(s1, k) == spec_get(
                    s0,
                    k,
                ) by {
                    lemma_get_update_other(s0, i as int, e, k);
                }
            }
        },
        None => {
            proof {
                lemma_get_none_iff(s0, kv);
            }
            let i = lower_bound(pairs, &key);
            pairs.insert(i, (key, value));
            proof {
                let e = (key, value);
                let s1 = pairs@;
                let ii = i as int;
                assert(s1 =~= s0.take(ii) + seq![e] + s0.skip(ii));
                // sortedness around the insertion point
                assert forall|a: int, b: int| 0 <= a < b < s1.len() implies lex_lt(
                    s1[a].0@,
                    s1[b].0@,
                ) by {
                    if a < ii {
                        assert(s1[a] == s0[a]);
                    }
                    if b < ii {
                        assert(s1[b] == s0[b]);
                    }
                    if a > ii {
                        assert(s1[a] == s0[a - 1]);
                    }
                    if b > ii {
                        assert(s1[b] == s0[b - 1]);
                    }
                    if b == ii {
                        assert(lex_lt(s0[a].0@, kv));
                    } else if a == ii {
                        // kv is strictly below the key at the bound
                        let x = s0[ii].0@;
                        crate::lex::lemma_lex_total(kv, x);
                        if lex_le(x, kv) {
                            crate::lex::lemma_lex_antisymmetric(kv, x);
                        }
                        assert(lex_lt(kv, x));
                        if b - 1 > ii {
                            crate::lex::lemma_lex_lt_transitive(kv, x, s0[b - 1].0@);
                        }
                    } else if a < ii && b > ii {
                        assert(lex_lt(s0[a].0@, s0[b - 1].0@));
                    }
                }
                // the stored key maps to the new value
                assert(forall|j: int| 0 <= j < ii ==> s1[j] == s0[j]);
                assert forall|j: int| 0 <= j < ii implies s1[j].0@ != kv by {
                    crate::lex::lemma_lex_lt_neq(s1[j].0@, kv);
                }
                lemma_get_skip(s1, kv, ii);
                assert(s1.skip(ii) =~= seq![e] + s0.skip(ii));
                // all other keys are untouched
                assert forall|k: Seq<u8>| k != kv implies #[trigger] spec_get(s1, k) == spec_get(
                    s0,
                    k,
                ) by {
                    assert(s1 =~= s0.take(ii) + (seq![e] + s0.skip(ii)));
                    lemma_get_append(s0.take(ii), seq![e] + s0.skip(ii), k);
                    lemma_get_append(seq![e], s0.skip(ii), k);
                    assert((seq![e])[0] == e);
                    assert((seq![e]).skip(1) =~= Seq::<(Vec<u8>, PairConfig)>::empty());
                    assert(spec_get((seq![e]).skip(1), k) is None);
                    assert(spec_get(seq![e], k) is None);
                    assert(spec_get(seq![e] + s0.skip(ii), k) == spec_get(s0.skip(ii), k));
                    assert(spec_get(s1, k) == (match spec_get(s0.take(ii), k) {
                        Some(v) => Some(v),
                        None => spec_get(s0.skip(ii), k),
                    }));
                    lemma_get_append(s0.take(ii), s0.skip(ii), k);
                    assert(s0.take(ii) + s0.skip(ii) =~= s0);
                    assert(spec_get(s0, k) == (match spec_get(s0.take(ii), k) {
                        Some(v) => Some(v),
                        None => spec_get(s0.skip(ii), k),
                    }));
                }
            }
        },
    }
}

} // verus!
