//! The pair engine: constant-product pricing, liquidity provision and
//! withdrawal, and the swap itself.
//!
//! All pricing follows the constant product `offer_pool * ask_pool` in
//! 18-digit fixed point, with every quotient floored exactly as the engine
//! executes it; the contracts below restate those floors over the
//! mathematical integers.

use vstd::prelude::*;
use vstd::arithmetic::div_mod::{
    lemma_div_is_ordered, lemma_div_multiples_vanish, lemma_fundamental_div_mod,
};
use vstd::arithmetic::mul::lemma_mul_inequality;

use crate::asset::{Asset, AssetInfo, AssetInfoView, AssetValue, Coin};
use crate::decimal::{dec_mul, Decimal, DECIMAL_FRACTIONAL, DECIMAL_FRACTIONAL_SQUARED};
use crate::wide_uint::{p128, p256, WideUint};
use crate::ContractError;

verus! {

/// Identity of one pair instance: its two pool slots, its own address and
/// the address of its share token.
#[derive(Debug)]
pub struct PairInfo {
    pub asset_infos: [AssetInfo; 2],
    pub contract_addr: String,
    pub liquidity_token: String,
}

pub struct PairInfoView {
    pub asset_infos: (AssetInfoView, AssetInfoView),
    pub contract_addr: Seq<char>,
    pub liquidity_token: Seq<char>,
}

impl View for PairInfo {
    type V = PairInfoView;

    open spec fn view(&self) -> PairInfoView {
        PairInfoView {
            asset_infos: (self.asset_infos[0]@, self.asset_infos[1]@),
            contract_addr: self.contract_addr@,
            liquidity_token: self.liquidity_token@,
        }
    }
}

/// Per-instance configuration of the pair engine.
#[derive(Debug)]
pub struct Config {
    pub pair_info: PairInfo,
    pub factory: String,
}

pub struct ConfigView {
    pub pair_info: PairInfoView,
    pub factory: Seq<char>,
}

impl View for Config {
    type V = ConfigView;

    open spec fn view(&self) -> ConfigView {
        ConfigView { pair_info: self.pair_info@, factory: self.factory@ }
    }
}

impl Clone for PairInfo {
    fn clone(&self) -> (r: PairInfo)
        ensures
            r@ == self@,
    {
        PairInfo {
            asset_infos: [self.asset_infos[0].clone(), self.asset_infos[1].clone()],
            contract_addr: self.contract_addr.clone(),
            liquidity_token: self.liquidity_token.clone(),
        }
    }
}

/// The pair's configuration, as the host reports it.
#[derive(Debug)]
pub struct ConfigResponse {
    pub pair_info: PairInfo,
    pub factory: String,
}

pub fn query_config(config: &Config) -> (r: ConfigResponse)
    ensures
        r.pair_info@ == config@.pair_info,
        r.factory@ == config@.factory,
{
    ConfigResponse { pair_info: config.pair_info.clone(), factory: config.factory.clone() }
}

pub fn query_pair_info(config: &Config) -> (r: PairInfo)
    ensures
        r@ == config@.pair_info,
{
    config.pair_info.clone()
}

/// Both pool balances and the share supply, as one snapshot.
#[derive(Debug)]
pub struct PoolResponse {
    pub assets: Vec<Asset>,
    pub total_share: u128,
}

pub fn query_pool(pools: &[Asset; 2], total_share: u128) -> (r: PoolResponse)
    ensures
        r.assets@.len() == 2,
        r.assets@[0]@ == pools[0]@,
        r.assets@[1]@ == pools[1]@,
        r.total_share == total_share,
{
    let mut assets: Vec<Asset> = Vec::new();
    assets.push(pools[0].clone());
    assets.push(pools[1].clone());
    PoolResponse { assets, total_share }
}

/// A follow-up request the pair engine asks the host to carry out.
#[derive(Debug)]
pub enum PairAction {
    /// Pull a token deposit from its owner into the pair.
    TransferFrom { token: String, owner: String, recipient: String, amount: u128 },
    /// Send an asset out of the pair.
    Send { asset: Asset, recipient: String },
    /// Mint pool shares on the share-token ledger.
    Mint { token: String, recipient: String, amount: u128 },
    /// Burn pool shares on the share-token ledger.
    Burn { token: String, amount: u128 },
}

pub enum PairActionView {
    TransferFrom { token: Seq<char>, owner: Seq<char>, recipient: Seq<char>, amount: int },
    Send { asset: AssetValue, recipient: Seq<char> },
    Mint { token: Seq<char>, recipient: Seq<char>, amount: int },
    Burn { token: Seq<char>, amount: int },
}

impl View for PairAction {
    type V = PairActionView;

    open spec fn view(&self) -> PairActionView {
        match self {
            PairAction::TransferFrom { token, owner, recipient, amount } => {
                PairActionView::TransferFrom {
                    token: token@,
                    owner: owner@,
                    recipient: recipient@,
                    amount: *amount as int,
                }
            },
            PairAction::Send { asset, recipient } => {
                PairActionView::Send { asset: asset@, recipient: recipient@ }
            },
            PairAction::Mint { token, recipient, amount } => {
                PairActionView::Mint {
                    token: token@,
                    recipient: recipient@,
                    amount: *amount as int,
                }
            },
            PairAction::Burn { token, amount } => {
                PairActionView::Burn { token: token@, amount: *amount as int }
            },
        }
    }
}

/// The view sequence of an action list.
pub open spec fn actions_view(actions: Seq<PairAction>) -> Seq<PairActionView> {
    actions.map_values(|a: PairAction| a@)
}

/// Construction of a pair over two asset slots: identical assets are
/// refused, and the share-token address starts out unbound.
pub fn instantiate(
    asset_infos: [AssetInfo; 2],
    contract_addr: String,
    factory: String,
) -> (r: Result<Config, ContractError>)
    ensures
        asset_infos[0]@ == asset_infos[1]@ ==> r == Err::<Config, ContractError>(
            ContractError::DoublingAssets,
        ),
        asset_infos[0]@ != asset_infos[1]@ ==> (r matches Ok(c) && c@.pair_info.asset_infos.0
            == asset_infos[0]@ && c@.pair_info.asset_infos.1 == asset_infos[1]@
            && c@.pair_info.contract_addr == contract_addr@ && c@.pair_info.liquidity_token
            == Seq::<char>::empty() && c@.factory == factory@),
{
    if asset_infos[0].equals(&asset_infos[1]) {
        return Err(ContractError::DoublingAssets);
    }
    Ok(
        Config {
            pair_info: PairInfo { asset_infos, contract_addr, liquidity_token: String::new() },
            factory,
        },
    )
}

/// The deferred half of construction: bind the share token's address once
/// the host reports it, exactly once.
pub fn set_liquidity_token(config: &mut Config, token: String) -> (r: Result<(), ContractError>)
    ensures
        old(config)@.pair_info.liquidity_token.len() != 0 ==> r == Err::<(), ContractError>(
            ContractError::PermissionDenied,
        ) && final(config)@ == old(config)@,
        old(config)@.pair_info.liquidity_token.len() == 0 ==> r == Ok::<(), ContractError>(())
            && final(config)@ == (ConfigView {
            pair_info: PairInfoView {
                liquidity_token: token@,
                ..old(config)@.pair_info
            },
            ..old(config)@
        }),
{
    if !config.pair_info.liquidity_token.as_str().is_empty() {
        return Err(ContractError::PermissionDenied);
    }
    config.pair_info.liquidity_token = token;
    Ok(())
}

/// Whether `sender` is the token contract of one of the two pool slots:
/// only those contracts may start a token-funded swap.
pub fn cw20_swap_authorized(config: &Config, sender: &String) -> (r: bool)
    ensures
        r == ((config@.pair_info.asset_infos.0 matches AssetInfoView::Cw20 { contract_addr }
            && contract_addr == sender@) || (config@.pair_info.asset_infos.1
            matches AssetInfoView::Cw20 { contract_addr } && contract_addr == sender@)),
{
    let mut authorized = false;
    if let AssetInfo::Cw20(addr) = &config.pair_info.asset_infos[0] {
        if *addr == *sender {
            authorized = true;
        }
    }
    if let AssetInfo::Cw20(addr) = &config.pair_info.asset_infos[1] {
        if *addr == *sender {
            authorized = true;
        }
    }
    authorized
}

/// The ask-side amount the pool releases before the commission is taken:
/// `ask_pool - cp / (offer_pool + offer_amount)`, evaluated in 18-digit
/// fixed point with both divisions floored.
pub open spec fn swap_gross_return(op: int, ap: int, oa: int) -> int {
    (ap * 1_000_000_000_000_000_000 - (op * ap * 1_000_000_000_000_000_000) / (op + oa))
        / 1_000_000_000_000_000_000
}

/// The spot-implied output `offer_amount * (ask_pool / offer_pool)`, with
/// the price ratio floored to 18 digits first.
pub open spec fn swap_spot_return(op: int, ap: int, oa: int) -> int {
    (oa * ((ap * 1_000_000_000_000_000_000) / op)) / 1_000_000_000_000_000_000
}

/// Spot-implied output minus actual output.
pub open spec fn swap_spread_amount(op: int, ap: int, oa: int) -> int {
    swap_spot_return(op, ap, oa) - swap_gross_return(op, ap, oa)
}

/// The commission retained by the pool: the gross return times the total
/// fee rate, floored.
pub open spec fn swap_commission(op: int, ap: int, oa: int, f: int) -> int {
    dec_mul(swap_gross_return(op, ap, oa), f)
}

/// What the trader receives: gross return minus commission.
pub open spec fn swap_return_amount(op: int, ap: int, oa: int, f: int) -> int {
    swap_gross_return(op, ap, oa) - swap_commission(op, ap, oa, f)
}

/// The machine-limit side conditions under which the pricing arithmetic
/// neither divides by zero, nor overflows its 256-bit intermediates, nor
/// underflows the spread subtraction.
pub open spec fn compute_swap_ok(op: int, ap: int, oa: int, f: int) -> bool {
    &&& 0 < op
    &&& 0 <= ap
    &&& 0 <= oa
    &&& op * ap * 1_000_000_000_000_000_000 < p256()
    &&& oa * ((ap * 1_000_000_000_000_000_000) / op) < p256()
    &&& swap_gross_return(op, ap, oa) <= swap_spot_return(op, ap, oa)
    &&& swap_spread_amount(op, ap, oa) < p128()
    &&& 0 <= f <= 1_000_000_000_000_000_000
}

/// Price a swap of `offer_amount` against pools `(offer_pool, ask_pool)`
/// under total fee rate `commission_rate`, returning
/// `(return_amount, spread_amount, commission_amount)`.
pub fn compute_swap(
    offer_pool: u128,
    ask_pool: u128,
    offer_amount: u128,
    commission_rate: &Decimal,
) -> (r: (u128, u128, u128))
    requires
        compute_swap_ok(
            offer_pool as int,
            ask_pool as int,
            offer_amount as int,
            commission_rate.atomics as int,
        ),
    ensures
        r.0 == swap_return_amount(
            offer_pool as int,
            ask_pool as int,
            offer_amount as int,
            commission_rate.atomics as int,
        ),
        r.1 == swap_spread_amount(offer_pool as int, ask_pool as int, offer_amount as int),
        r.2 == swap_commission(
            offer_pool as int,
            ask_pool as int,
            offer_amount as int,
            commission_rate.atomics as int,
        ),
{
    let ghost op = offer_pool as int;
    let ghost ap = ask_pool as int;
    let ghost oa = offer_amount as int;
    let ghost m = 1_000_000_000_000_000_000int;
    let w_op = WideUint::from_u128(offer_pool);
    let w_ap = WideUint::from_u128(ask_pool);
    let w_oa = WideUint::from_u128(offer_amount);
    let w_one = WideUint::from_u128(1);
    let w_m = WideUint::from_u128(DECIMAL_FRACTIONAL);

    // cp = offer_pool * ask_pool
    proof {
        crate::wide_uint::lemma_mul_u128_fits(offer_pool, ask_pool);
        assert((op * ap) / 1 == op * ap);
    }
    let cp = w_op.mul_ratio(&w_ap, &w_one);

    // b = cp * m / (offer_pool + offer_amount)
    let s = w_op.add(&w_oa);
    let b = cp.mul_ratio(&w_m, &s);

    // gross = (ask_pool * m - b) / m
    proof {
        crate::wide_uint::lemma_mul_u128_fits(ask_pool, DECIMAL_FRACTIONAL);
        assert((ap * m) / 1 == ap * m);
        // b <= ap * m, since op <= op + oa
        lemma_mul_inequality(op, op + oa, ap * m);
        assert(op * ap * m == op * (ap * m)) by (nonlinear_arith);
        lemma_div_is_ordered(op * (ap * m), (op + oa) * (ap * m), op + oa);
        lemma_div_multiples_vanish(ap * m, op + oa);
    }
    let ap_m = w_ap.mul_ratio(&w_m, &w_one);
    let d = ap_m.sub(&b);
    proof {
        assert(d.val() * 1 == d.val());
        // gross <= ap, so it fits in 128 bits
        lemma_div_is_ordered(d.val(), ap * m, m);
        lemma_div_multiples_vanish(ap, m);
    }
    let gross_w = d.mul_ratio(&w_one, &w_m);
    let gross = gross_w.to_u128();

    // spot = offer_amount * ((ask_pool * m) / offer_pool) / m
    proof {
        assert((ap * m) * 1 == ap * m);
    }
    let q = ap_m.mul_ratio(&w_one, &w_op);
    let spot_w = w_oa.mul_ratio(&q, &w_m);
    let spread_w = spot_w.sub(&gross_w);
    let spread = spread_w.to_u128();

    // commission = gross * rate, retained by the pool
    proof {
        let f = commission_rate.atomics as int;
        lemma_mul_inequality(f, m, gross as int);
        assert(gross * f == f * gross && gross * m == m * gross) by (nonlinear_arith);
        lemma_div_is_ordered(gross * f, gross * m, m);
        lemma_div_multiples_vanish(gross as int, m);
    }
    let commission = crate::decimal::mul_amount(gross, commission_rate);
    let return_amount = gross - commission;
    (return_amount, spread, commission)
}

/// Atomics of `1 / (1 - f)`, the factor that undoes the commission.
pub open spec fn inv_rate_atomics(f: int) -> int {
    (1_000_000_000_000_000_000 * 1_000_000_000_000_000_000int) / (1_000_000_000_000_000_000 - f)
}

/// The gross ask-side amount that must leave the pool so that `aa` remains
/// after the commission: `aa / (1 - f)`, floored twice as executed.
pub open spec fn reverse_before_commission(aa: int, f: int) -> int {
    dec_mul(aa, inv_rate_atomics(f))
}

/// The offer-side amount needed to buy `aa` of the ask asset:
/// `cp / (ask_pool - aa / (1 - f)) - offer_pool`.
pub open spec fn reverse_offer_amount(op: int, ap: int, aa: int, f: int) -> int {
    (op * ap) / (ap - reverse_before_commission(aa, f)) - op
}

/// The reverse-quote spread, clamped at zero when the floored spot value
/// falls short of the gross ask amount.
pub open spec fn reverse_spread_amount(op: int, ap: int, aa: int, f: int) -> int {
    let raw = dec_mul(reverse_offer_amount(op, ap, aa, f), crate::decimal::ratio_atomics(ap, op));
    let bcd = reverse_before_commission(aa, f);
    if raw >= bcd {
        raw - bcd
    } else {
        0
    }
}

/// The commission taken out of the gross ask amount.
pub open spec fn reverse_commission(aa: int, f: int) -> int {
    dec_mul(reverse_before_commission(aa, f), f)
}

/// Machine-limit side conditions for the reverse quote.
pub open spec fn compute_offer_ok(op: int, ap: int, aa: int, f: int) -> bool {
    let bcd = reverse_before_commission(aa, f);
    &&& 0 < op
    &&& 0 <= ap
    &&& 0 <= aa
    &&& 0 <= f < 1_000_000_000_000_000_000
    &&& bcd < p128()
    &&& bcd != ap
    &&& bcd < ap ==> (op * ap) / (ap - bcd) < p128()
    &&& bcd < ap ==> crate::decimal::ratio_atomics(ap, op) < p128()
    &&& bcd < ap ==> dec_mul(
        reverse_offer_amount(op, ap, aa, f),
        crate::decimal::ratio_atomics(ap, op),
    ) < p128()
}

/// Inverse of [`compute_swap`]: how much of the offer asset buys
/// `ask_amount` of the ask asset. Fails with an arithmetic error when the
/// gross ask amount exceeds the ask pool.
pub fn compute_offer_amount(
    offer_pool: u128,
    ask_pool: u128,
    ask_amount: u128,
    commission_rate: &Decimal,
) -> (r: Result<(u128, u128, u128), crate::ContractError>)
    requires
        compute_offer_ok(
            offer_pool as int,
            ask_pool as int,
            ask_amount as int,
            commission_rate.atomics as int,
        ),
    ensures
        ({
            let op = offer_pool as int;
            let ap = ask_pool as int;
            let aa = ask_amount as int;
            let f = commission_rate.atomics as int;
            if reverse_before_commission(aa, f) > ap {
                r == Err::<(u128, u128, u128), crate::ContractError>(
                    crate::ContractError::ArithmeticError,
                )
            } else {
                &&& 0 <= reverse_offer_amount(op, ap, aa, f) < p128()
                &&& 0 <= reverse_spread_amount(op, ap, aa, f) < p128()
                &&& 0 <= reverse_commission(aa, f) < p128()
                &&& r == Ok::<(u128, u128, u128), crate::ContractError>(
                    (
                        reverse_offer_amount(op, ap, aa, f) as u128,
                        reverse_spread_amount(op, ap, aa, f) as u128,
                        reverse_commission(aa, f) as u128,
                    ),
                )
            }
        }),
{
    let ghost op = offer_pool as int;
    let ghost ap = ask_pool as int;
    let ghost aa = ask_amount as int;
    let ghost f = commission_rate.atomics as int;
    let ghost m = 1_000_000_000_000_000_000int;

    let one_minus = DECIMAL_FRACTIONAL - commission_rate.atomics;
    let inv = Decimal { atomics: DECIMAL_FRACTIONAL_SQUARED / one_minus };
    proof {
        assert(inv.atomics == inv_rate_atomics(f));
    }
    let bcd = crate::decimal::mul_amount(ask_amount, &inv);
    if bcd > ask_pool {
        return Err(crate::ContractError::ArithmeticError);
    }
    let d = ask_pool - bcd;
    let cp_over_d = crate::wide_uint::mul_div_u128(offer_pool, ask_pool, d);
    proof {
        // cp / d >= offer_pool, since d <= ask_pool
        lemma_mul_inequality(d as int, ap, op);
        assert(d * op == op * d && ap * op == op * ap) by (nonlinear_arith);
        lemma_div_is_ordered(op * (d as int), op * ap, d as int);
        lemma_div_multiples_vanish(op, d as int);
        assert((d as int) * op == op * (d as int));
    }
    let offer_amount = cp_over_d - offer_pool;
    let ratio = Decimal::from_ratio(ask_pool, offer_pool);
    let raw = crate::decimal::mul_amount(offer_amount, &ratio);
    let spread_amount = if raw >= bcd {
        raw - bcd
    } else {
        0
    };
    proof {
        // commission <= bcd, since f < one
        lemma_mul_inequality(f, m, bcd as int);
        assert(bcd * f == f * (bcd as int) && bcd * m == m * (bcd as int)) by (nonlinear_arith);
        lemma_div_is_ordered(bcd * f, bcd * m, m);
        lemma_div_multiples_vanish(bcd as int, m);
    }
    let commission_amount = crate::decimal::mul_amount(bcd, commission_rate);
    Ok((offer_amount, spread_amount, commission_amount))
}

/// `r` is the integer square root of `n`.
pub open spec fn is_isqrt(r: int, n: int) -> bool {
    &&& 0 <= r
    &&& r * r <= n
    &&& (r + 1) * (r + 1) > n
}

/// Relies on `integer_sqrt::IntegerSquareRoot` for `u128`: the floor of
/// the square root, which never panics for an unsigned argument.
#[verifier::external_body]
fn isqrt_u128(n: u128) -> (r: u128)
    ensures
        is_isqrt(r as int, n as int),
{
    integer_sqrt::IntegerSquareRoot::integer_sqrt(&n)
}

/// The deposit amount offered for a pool slot: the first of the two
/// supplied assets whose identity matches the slot.
pub open spec fn matched_deposit(a0: AssetValue, a1: AssetValue, slot: AssetInfoView) -> int {
    if a0.info == slot {
        a0.amount
    } else {
        a1.amount
    }
}

/// Both pool slots are covered by the supplied assets; a mismatch is an
/// unrecovered caller error.
pub open spec fn deposits_match(
    a0: AssetValue,
    a1: AssetValue,
    s0: AssetInfoView,
    s1: AssetInfoView,
) -> bool {
    &&& a0.info == s0 || a1.info == s0
    &&& a0.info == s1 || a1.info == s1
}

/// The pool balance a provision is priced against: native balances arrive
/// pre-credited with the deposit, so the deposit is subtracted back out.
pub open spec fn pool_before_deposit(p: AssetValue, d: int) -> int {
    if p.info.is_native() {
        p.amount - d
    } else {
        p.amount
    }
}

/// The token contract of a token slot.
pub open spec fn cw20_addr(info: AssetInfoView) -> Seq<char> {
    match info {
        AssetInfoView::Cw20 { contract_addr } => contract_addr,
        AssetInfoView::Native { denom } => denom,
    }
}

/// The pull requests a provision issues: one transfer-from per token slot,
/// in slot order.
pub open spec fn provide_pulls(
    config: ConfigView,
    p0: AssetValue,
    p1: AssetValue,
    d0: int,
    d1: int,
    sender: Seq<char>,
) -> Seq<PairActionView> {
    let pull0: Seq<PairActionView> = if p0.info.is_native() {
        seq![]
    } else {
        seq![
            PairActionView::TransferFrom {
                token: cw20_addr(p0.info),
                owner: sender,
                recipient: config.pair_info.contract_addr,
                amount: d0,
            },
        ]
    };
    let pull1: Seq<PairActionView> = if p1.info.is_native() {
        seq![]
    } else {
        seq![
            PairActionView::TransferFrom {
                token: cw20_addr(p1.info),
                owner: sender,
                recipient: config.pair_info.contract_addr,
                amount: d1,
            },
        ]
    };
    pull0 + pull1
}

/// Machine-limit side conditions for a provision, on the paths that reach
/// the share computation.
pub open spec fn provide_ok(
    p0: AssetValue,
    p1: AssetValue,
    a0: AssetValue,
    a1: AssetValue,
    ts: int,
    st: Option<Decimal>,
) -> bool {
    let d0 = matched_deposit(a0, a1, p0.info);
    let d1 = matched_deposit(a0, a1, p1.info);
    let ap0 = pool_before_deposit(p0, d0);
    let ap1 = pool_before_deposit(p1, d1);
    let reached = (p0.info.is_native() ==> d0 <= p0.amount) && (p1.info.is_native() ==> d1
        <= p1.amount);
    let slippage_passed = match st {
        None => true,
        Some(t) => t.atomics <= 1_000_000_000_000_000_000 && !slippage_violated(
            d0,
            d1,
            ap0,
            ap1,
            t.atomics as int,
        ),
    };
    &&& deposits_match(a0, a1, p0.info, p1.info)
    &&& (reached && ts == 0 ==> d0 * d1 < p128())
    &&& (reached && ts > 0 && (st matches Some(t) && t.atomics <= 1_000_000_000_000_000_000)
        ==> d0 > 0 && d1 > 0 && ap0 > 0 && ap1 > 0)
    &&& (reached && ts > 0 && slippage_passed ==> ap0 > 0 && ap1 > 0 && (d0 * ts) / ap0
        < p128() && (d1 * ts) / ap1 < p128())
}

#[derive(Debug)]
pub struct ProvideLiquidityResponse {
    pub share: u128,
    pub receiver: String,
    pub actions: Vec<PairAction>,
}

/// Add liquidity to both pools. Token deposits are pulled in, native
/// deposits arrive pre-credited; the first provision mints the square
/// root of the deposit product, later ones mint proportionally to the
/// cheaper side after the slippage guard; the shares go to `receiver`,
/// default the sender.
pub fn provide_liquidity(
    config: &Config,
    pools: &[Asset; 2],
    total_share: u128,
    assets: &[Asset; 2],
    slippage_tolerance: Option<Decimal>,
    sender: &String,
    receiver: Option<String>,
    funds: &Vec<Coin>,
) -> (r: Result<ProvideLiquidityResponse, ContractError>)
    requires
        provide_ok(
            pools[0]@,
            pools[1]@,
            assets[0]@,
            assets[1]@,
            total_share as int,
            slippage_tolerance,
        ),
    ensures
        ({
            let p0 = pools[0]@;
            let p1 = pools[1]@;
            let a0 = assets[0]@;
            let a1 = assets[1]@;
            let ts = total_share as int;
            let d0 = matched_deposit(a0, a1, p0.info);
            let d1 = matched_deposit(a0, a1, p1.info);
            let ap0 = pool_before_deposit(p0, d0);
            let ap1 = pool_before_deposit(p1, d1);
            let funded = crate::asset::funds_ok(a0, funds@) && crate::asset::funds_ok(a1, funds@);
            let credited = (p0.info.is_native() ==> d0 <= p0.amount) && (p1.info.is_native()
                ==> d1 <= p1.amount);
            let share_spec = vstd::math::min((d0 * ts) / ap0, (d1 * ts) / ap1);
            &&& (!funded ==> r == Err::<ProvideLiquidityResponse, ContractError>(
                ContractError::ValidationError,
            ))
            &&& (funded && !credited ==> r == Err::<ProvideLiquidityResponse, ContractError>(
                ContractError::ArithmeticError,
            ))
            &&& (funded && credited && ts > 0 ==> match slippage_tolerance {
                None => true,
                Some(t) => {
                    &&& (t.atomics > 1_000_000_000_000_000_000 ==> r == Err::<
                        ProvideLiquidityResponse,
                        ContractError,
                    >(ContractError::ValidationError))
                    &&& (t.atomics <= 1_000_000_000_000_000_000 && slippage_violated(
                        d0,
                        d1,
                        ap0,
                        ap1,
                        t.atomics as int,
                    ) ==> r == Err::<ProvideLiquidityResponse, ContractError>(
                        ContractError::SlippageExceeded,
                    ))
                },
            })
            &&& (funded && credited && provide_passes_slippage(
                d0,
                d1,
                ap0,
                ap1,
                ts,
                slippage_tolerance,
            ) ==> {
                let zero_share = if ts == 0 {
                    d0 * d1 == 0
                } else {
                    share_spec == 0
                };
                &&& (zero_share ==> r == Err::<ProvideLiquidityResponse, ContractError>(
                    ContractError::InvalidZeroAmount,
                ))
                &&& (!zero_share ==> (r matches Ok(resp) && {
                    &&& (ts == 0 ==> is_isqrt(resp.share as int, d0 * d1))
                    &&& (ts > 0 ==> resp.share == share_spec)
                    &&& resp.share > 0
                    &&& resp.receiver@ == (match receiver {
                        Some(x) => x@,
                        None => sender@,
                    })
                    &&& actions_view(resp.actions@) =~= provide_pulls(
                        config@,
                        p0,
                        p1,
                        d0,
                        d1,
                        sender@,
                    ) + seq![
                        PairActionView::Mint {
                            token: config@.pair_info.liquidity_token,
                            recipient: resp.receiver@,
                            amount: resp.share as int,
                        },
                    ]
                }))
            })
        }),
{
    match assets[0].assert_sent_native_token_balance(funds) {
        Err(e) => {
            return Err(e);
        },
        Ok(()) => {},
    }
    match assets[1].assert_sent_native_token_balance(funds) {
        Err(e) => {
            return Err(e);
        },
        Ok(()) => {},
    }
    let d0: u128 = if assets[0].info.equals(&pools[0].info) {
        assets[0].amount
    } else if assets[1].info.equals(&pools[0].info) {
        assets[1].amount
    } else {
        vstd::pervasive::unreached()
    };
    let d1: u128 = if assets[0].info.equals(&pools[1].info) {
        assets[0].amount
    } else if assets[1].info.equals(&pools[1].info) {
        assets[1].amount
    } else {
        vstd::pervasive::unreached()
    };
    let mut actions: Vec<PairAction> = Vec::new();
    let ap0: u128 = match &pools[0].info {
        AssetInfo::Cw20(addr) => {
            actions.push(
                PairAction::TransferFrom {
                    token: addr.clone(),
                    owner: sender.clone(),
                    recipient: config.pair_info.contract_addr.clone(),
                    amount: d0,
                },
            );
            pools[0].amount
        },
        AssetInfo::Native(..) => {
            if d0 > pools[0].amount {
                return Err(ContractError::ArithmeticError);
            }
            pools[0].amount - d0
        },
    };
    let ap1: u128 = match &pools[1].info {
        AssetInfo::Cw20(addr) => {
            actions.push(
                PairAction::TransferFrom {
                    token: addr.clone(),
                    owner: sender.clone(),
                    recipient: config.pair_info.contract_addr.clone(),
                    amount: d1,
                },
            );
            pools[1].amount
        },
        AssetInfo::Native(..) => {
            if d1 > pools[1].amount {
                return Err(ContractError::ArithmeticError);
            }
            pools[1].amount - d1
        },
    };
    let share: u128 = if total_share == 0 {
        let product = d0 * d1;
        let s = isqrt_u128(product);
        proof {
            if product == 0 {
                assert((s as int) * (s as int) <= 0);
                assert(s == 0) by (nonlinear_arith)
                    requires
                        0 <= s as int,
                        (s as int) * (s as int) <= 0,
                ;
            } else {
                assert(s != 0) by (nonlinear_arith)
                    requires
                        is_isqrt(s as int, product as int),
                        product > 0,
                ;
            }
        }
        s
    } else {
        match assert_slippage_tolerance(slippage_tolerance, &[d0, d1], &[ap0, ap1]) {
            Err(e) => {
                return Err(e);
            },
            Ok(()) => {},
        }
        let s0 = crate::wide_uint::mul_div_u128(d0, total_share, ap0);
        let s1 = crate::wide_uint::mul_div_u128(d1, total_share, ap1);
        if s0 <= s1 {
            s0
        } else {
            s1
        }
    };
    if share == 0 {
        return Err(ContractError::InvalidZeroAmount);
    }
    let recv: String = match receiver {
        Some(x) => x,
        None => sender.clone(),
    };
    actions.push(
        PairAction::Mint {
            token: config.pair_info.liquidity_token.clone(),
            recipient: recv.clone(),
            amount: share,
        },
    );
    Ok(ProvideLiquidityResponse { share, receiver: recv, actions })
}

/// The slippage guard lets a provision through.
pub open spec fn provide_passes_slippage(
    d0: int,
    d1: int,
    ap0: int,
    ap1: int,
    ts: int,
    st: Option<Decimal>,
) -> bool {
    ts == 0 || match st {
        None => true,
        Some(t) => t.atomics <= 1_000_000_000_000_000_000 && !slippage_violated(
            d0,
            d1,
            ap0,
            ap1,
            t.atomics as int,
        ),
    }
}

/// A share-holder's refund on one pool: the pool balance times the ratio
/// `amount / total_share`, with the ratio floored to 18 digits first.
pub open spec fn withdraw_refund(pool: int, amount: int, total_share: int) -> int {
    dec_mul(pool, crate::decimal::ratio_atomics(amount, total_share))
}

#[derive(Debug)]
pub struct WithdrawResponse {
    pub refund_assets: Vec<Asset>,
    pub actions: Vec<PairAction>,
}

/// Redeem `amount` shares for a proportional slice of both pools. Only
/// the share-token ledger itself may call this, vouching that the shares
/// were surrendered; both refunds are sent to `sender` and the shares are
/// burned.
pub fn withdraw_liquidity(
    config: &Config,
    pools: &[Asset; 2],
    total_share: u128,
    amount: u128,
    caller: &String,
    sender: String,
) -> (r: Result<WithdrawResponse, ContractError>)
    requires
        caller@ == config@.pair_info.liquidity_token ==> 0 < total_share && amount <= total_share,
    ensures
        caller@ != config@.pair_info.liquidity_token ==> r == Err::<
            WithdrawResponse,
            ContractError,
        >(ContractError::PermissionDenied),
        caller@ == config@.pair_info.liquidity_token ==> (r matches Ok(resp) && {
            let r0 = withdraw_refund(pools[0]@.amount, amount as int, total_share as int);
            let r1 = withdraw_refund(pools[1]@.amount, amount as int, total_share as int);
            &&& resp.refund_assets@.len() == 2
            &&& resp.refund_assets@[0]@ == (AssetValue { info: pools[0]@.info, amount: r0 })
            &&& resp.refund_assets@[1]@ == (AssetValue { info: pools[1]@.info, amount: r1 })
            &&& actions_view(resp.actions@) =~= seq![
                PairActionView::Send {
                    asset: AssetValue { info: pools[0]@.info, amount: r0 },
                    recipient: sender@,
                },
                PairActionView::Send {
                    asset: AssetValue { info: pools[1]@.info, amount: r1 },
                    recipient: sender@,
                },
                PairActionView::Burn {
                    token: config@.pair_info.liquidity_token,
                    amount: amount as int,
                },
            ]
        }),
{
    if !(*caller == config.pair_info.liquidity_token) {
        return Err(ContractError::PermissionDenied);
    }
    proof {
        crate::wide_uint::lemma_u128_fits(DECIMAL_FRACTIONAL);
        lemma_mul_inequality(amount as int, total_share as int, DECIMAL_FRACTIONAL as int);
        assert(amount * DECIMAL_FRACTIONAL == DECIMAL_FRACTIONAL * (amount as int)
            && total_share * DECIMAL_FRACTIONAL == DECIMAL_FRACTIONAL * (total_share as int)
            && amount * (DECIMAL_FRACTIONAL as int) == (amount as int) * DECIMAL_FRACTIONAL)
            by (nonlinear_arith);
        lemma_div_is_ordered(
            (amount as int) * DECIMAL_FRACTIONAL,
            (total_share as int) * DECIMAL_FRACTIONAL,
            total_share as int,
        );
        lemma_div_multiples_vanish(DECIMAL_FRACTIONAL as int, total_share as int);
        assert((total_share as int) * DECIMAL_FRACTIONAL == (total_share as int)
            * (DECIMAL_FRACTIONAL as int));
    }
    let share_ratio = Decimal::from_ratio(amount, total_share);
    proof {
        lemma_refund_fits(pools[0].amount, share_ratio.atomics);
        lemma_refund_fits(pools[1].amount, share_ratio.atomics);
    }
    let refund0 = crate::decimal::mul_amount(pools[0].amount, &share_ratio);
    let refund1 = crate::decimal::mul_amount(pools[1].amount, &share_ratio);
    let asset0 = Asset { info: pools[0].info.clone(), amount: refund0 };
    let asset1 = Asset { info: pools[1].info.clone(), amount: refund1 };
    let mut actions: Vec<PairAction> = Vec::new();
    actions.push(PairAction::Send { asset: asset0.clone(), recipient: sender.clone() });
    actions.push(PairAction::Send { asset: asset1.clone(), recipient: sender.clone() });
    actions.push(
        PairAction::Burn { token: config.pair_info.liquidity_token.clone(), amount },
    );
    let mut refund_assets: Vec<Asset> = Vec::new();
    refund_assets.push(asset0);
    refund_assets.push(asset1);
    Ok(WithdrawResponse { refund_assets, actions })
}

/// A pool scaled by a ratio of at most one stays within 128 bits.
proof fn lemma_refund_fits(pool: u128, atomics: u128)
    requires
        atomics <= DECIMAL_FRACTIONAL,
    ensures
        dec_mul(pool as int, atomics as int) < p128(),
        dec_mul(pool as int, atomics as int) >= 0,
{
    let m = 1_000_000_000_000_000_000int;
    lemma_mul_inequality(atomics as int, m, pool as int);
    assert(pool * atomics == (atomics as int) * pool && pool * m == m * (pool as int))
        by (nonlinear_arith);
    lemma_div_is_ordered((pool as int) * atomics, (pool as int) * m, m);
    lemma_div_multiples_vanish(pool as int, m);
    crate::wide_uint::lemma_u128_fits(pool);
    vstd::arithmetic::div_mod::lemma_div_pos_is_pos((pool as int) * atomics, m);
    vstd::arithmetic::mul::lemma_mul_nonnegative(pool as int, atomics as int);
}

/// After a swap the pool keeps its constant product: with the commission
/// counted out of the ask pool as the trader sees it,
/// `(offer_pool + offer_amount) * (ask_pool - return - commission)` never
/// falls below `offer_pool * ask_pool`; and the pool actually retains the
/// commission, which only widens the product. Rounding in 18-digit fixed
/// point can lose up to one unit per 10^18 of combined offer-side volume,
/// so the law is stated for pools within that scale.
pub proof fn lemma_swap_preserves_product(op: int, ap: int, oa: int, f: int)
    requires
        0 < op,
        0 <= ap,
        0 <= oa,
        op + oa <= 1_000_000_000_000_000_000,
        0 <= f <= 1_000_000_000_000_000_000,
    ensures
        (op + oa) * (ap - swap_return_amount(op, ap, oa, f) - swap_commission(op, ap, oa, f))
            >= op * ap,
        (op + oa) * (ap - swap_return_amount(op, ap, oa, f)) >= op * ap + (op + oa)
            * swap_commission(op, ap, oa, f),
{
    let m = 1_000_000_000_000_000_000int;
    let s = op + oa;
    let x = op * ap * m;
    let b = x / s;
    let q = ap * m - b;
    let g = q / m;
    let rb = x % s;
    let r = q % m;
    lemma_fundamental_div_mod(x, s);
    lemma_fundamental_div_mod(q, m);
    vstd::arithmetic::mul::lemma_mul_nonnegative(op, ap);
    vstd::arithmetic::mul::lemma_mul_nonnegative(op * ap, m);
    vstd::arithmetic::div_mod::lemma_mod_bound(x, s);
    vstd::arithmetic::div_mod::lemma_mod_bound(q, m);
    assert(s * g * m == oa * ap * m - s * r + rb) by (nonlinear_arith)
        requires
            x == s * b + rb,
            q == m * g + r,
            q == ap * m - b,
            x == op * ap * m,
            s == op + oa,
    ;
    assert(s * g <= oa * ap) by {
        if r > 0 {
            assert(s * g * m < oa * ap * m) by (nonlinear_arith)
                requires
                    s * g * m == oa * ap * m - s * r + rb,
                    r >= 1,
                    rb < s,
                    s > 0,
            ;
            assert(s * g <= oa * ap) by (nonlinear_arith)
                requires
                    s * g * m < oa * ap * m,
                    m > 0,
            ;
        } else {
            assert(rb == m * (s * g - oa * ap)) by (nonlinear_arith)
                requires
                    s * g * m == oa * ap * m - s * r + rb,
                    r == 0,
            ;
            assert(s * g <= oa * ap) by (nonlinear_arith)
                requires
                    rb == m * (s * g - oa * ap),
                    0 <= rb < s,
                    s <= m,
                    m > 0,
            ;
        }
    }
    assert(swap_gross_return(op, ap, oa) == g);
    assert(swap_return_amount(op, ap, oa, f) + swap_commission(op, ap, oa, f) == g);
    assert(s * (ap - g) >= op * ap) by (nonlinear_arith)
        requires
            s * g <= oa * ap,
            s == op + oa,
    ;
    assert((op + oa) * (ap - swap_return_amount(op, ap, oa, f)) == s * (ap - g) + s
        * swap_commission(op, ap, oa, f)) by (nonlinear_arith)
        requires
            s == op + oa,
            swap_return_amount(op, ap, oa, f) == g - swap_commission(op, ap, oa, f),
    ;
}

/// Providing liquidity and immediately withdrawing the freshly minted
/// shares never refunds more of either asset than was deposited: with
/// `s = min(d0*ts/p0, d1*ts/p1)` shares minted against pools `(p0, p1)`
/// and supply `ts`, the refunds computed on the grown pools and supply
/// stay within the deposits.
pub proof fn lemma_round_trip_refund_bounded(p0: int, p1: int, ts: int, d0: int, d1: int)
    requires
        0 < p0,
        0 < p1,
        0 < ts,
        0 <= d0,
        0 <= d1,
    ensures
        ({
            let s = vstd::math::min((d0 * ts) / p0, (d1 * ts) / p1);
            &&& withdraw_refund(p0 + d0, s, ts + s) <= d0
            &&& withdraw_refund(p1 + d1, s, ts + s) <= d1
        }),
{
    let s = vstd::math::min((d0 * ts) / p0, (d1 * ts) / p1);
    vstd::arithmetic::div_mod::lemma_div_pos_is_pos(d0 * ts, p0);
    vstd::arithmetic::div_mod::lemma_div_pos_is_pos(d1 * ts, p1);
    vstd::arithmetic::mul::lemma_mul_nonnegative(d0, ts);
    vstd::arithmetic::mul::lemma_mul_nonnegative(d1, ts);
    lemma_one_side_refund(p0, ts, d0, s);
    lemma_one_side_refund(p1, ts, d1, s);
}

/// One pool's side of the round-trip bound.
proof fn lemma_one_side_refund(p: int, ts: int, d: int, s: int)
    requires
        0 < p,
        0 < ts,
        0 <= d,
        0 <= s <= (d * ts) / p,
    ensures
        withdraw_refund(p + d, s, ts + s) <= d,
{
    let m = 1_000_000_000_000_000_000int;
    let f = (d * ts) / p;
    lemma_fundamental_div_mod(d * ts, p);
    vstd::arithmetic::div_mod::lemma_mod_bound(d * ts, p);
    // s * p <= d * ts
    assert(s * p <= d * ts) by (nonlinear_arith)
        requires
            s <= f,
            d * ts == p * f + (d * ts) % p,
            0 <= (d * ts) % p,
            p > 0,
    ;
    let ratio = (s * m) / (ts + s);
    let refund = ((p + d) * ratio) / m;
    lemma_fundamental_div_mod(s * m, ts + s);
    vstd::arithmetic::div_mod::lemma_mod_bound(s * m, ts + s);
    vstd::arithmetic::mul::lemma_mul_nonnegative(s, m);
    vstd::arithmetic::div_mod::lemma_div_pos_is_pos(s * m, ts + s);
    vstd::arithmetic::mul::lemma_mul_nonnegative(p + d, ratio);
    lemma_fundamental_div_mod((p + d) * ratio, m);
    vstd::arithmetic::div_mod::lemma_mod_bound((p + d) * ratio, m);
    // refund * m * (ts + s) <= (p + d) * s * m <= d * (ts + s) * m
    assert(refund <= d) by (nonlinear_arith)
        requires
            (p + d) * ratio == m * refund + ((p + d) * ratio) % m,
            0 <= ((p + d) * ratio) % m,
            s * m == (ts + s) * ratio + (s * m) % (ts + s),
            0 <= (s * m) % (ts + s),
            s * p <= d * ts,
            0 <= ratio,
            0 <= d,
            0 < ts,
            0 <= s,
            0 < p,
            m > 0,
    ;
    assert(withdraw_refund(p + d, s, ts + s) == refund);
}

/// For exactly proportional deposits the round trip is also tight: each
/// refund reaches its deposit up to one pool unit per outstanding share
/// and the 18-digit granularity. (An unbalanced provision forfeits the
/// excess side by design, so the bound is stated for proportional
/// deposits; scaled by `(ts + s) * 10^18`, it reads
/// `refund + 1 >= d - p/(ts+s) - (p+d)/10^18`.)
pub proof fn lemma_round_trip_refund_near_deposit(p0: int, p1: int, ts: int, d0: int, d1: int)
    requires
        0 < p0,
        0 < p1,
        0 < ts,
        0 <= d0,
        0 <= d1,
        d0 * p1 == d1 * p0,
    ensures
        ({
            let s = vstd::math::min((d0 * ts) / p0, (d1 * ts) / p1);
            let m = 1_000_000_000_000_000_000int;
            &&& (withdraw_refund(p0 + d0, s, ts + s) + 1) * ((ts + s) * m) + p0 * m + (p0 + d0)
                * (ts + s) >= d0 * ((ts + s) * m)
            &&& (withdraw_refund(p1 + d1, s, ts + s) + 1) * ((ts + s) * m) + p1 * m + (p1 + d1)
                * (ts + s) >= d1 * ((ts + s) * m)
        }),
{
    let f0 = (d0 * ts) / p0;
    let f1 = (d1 * ts) / p1;
    vstd::arithmetic::mul::lemma_mul_nonnegative(d0, ts);
    vstd::arithmetic::mul::lemma_mul_nonnegative(d1, ts);
    lemma_fundamental_div_mod(d0 * ts, p0);
    vstd::arithmetic::div_mod::lemma_mod_bound(d0 * ts, p0);
    let rs0 = (d0 * ts) % p0;
    // proportionality carries the division across: both sides floor to
    // the same share count
    let r1 = d1 * ts - f0 * p1;
    assert(p0 * r1 == rs0 * p1) by (nonlinear_arith)
        requires
            d0 * ts == p0 * f0 + rs0,
            d0 * p1 == d1 * p0,
            r1 == d1 * ts - f0 * p1,
    ;
    assert(0 <= r1 < p1) by (nonlinear_arith)
        requires
            p0 * r1 == rs0 * p1,
            0 <= rs0 < p0,
            0 < p0,
            0 < p1,
    ;
    vstd::arithmetic::div_mod::lemma_fundamental_div_mod_converse_div(d1 * ts, p1, f0, r1);
    assert(f1 == f0);
    let s = vstd::math::min(f0, f1);
    assert(s == f0);
    lemma_one_side_refund_lower(p0, ts, d0, s);
    lemma_one_side_refund_lower(p1, ts, d1, s);
}

/// One pool's side of the tight round-trip bound.
proof fn lemma_one_side_refund_lower(p: int, ts: int, d: int, s: int)
    requires
        0 < p,
        0 < ts,
        0 <= d,
        s == (d * ts) / p,
    ensures
        ({
            let m = 1_000_000_000_000_000_000int;
            (withdraw_refund(p + d, s, ts + s) + 1) * ((ts + s) * m) + p * m + (p + d) * (ts + s)
                >= d * ((ts + s) * m)
        }),
{
    let m = 1_000_000_000_000_000_000int;
    vstd::arithmetic::mul::lemma_mul_nonnegative(d, ts);
    lemma_fundamental_div_mod(d * ts, p);
    vstd::arithmetic::div_mod::lemma_mod_bound(d * ts, p);
    vstd::arithmetic::div_mod::lemma_div_pos_is_pos(d * ts, p);
    let ratio = (s * m) / (ts + s);
    let refund = ((p + d) * ratio) / m;
    vstd::arithmetic::mul::lemma_mul_nonnegative(s, m);
    lemma_fundamental_div_mod(s * m, ts + s);
    vstd::arithmetic::div_mod::lemma_mod_bound(s * m, ts + s);
    vstd::arithmetic::div_mod::lemma_div_pos_is_pos(s * m, ts + s);
    vstd::arithmetic::mul::lemma_mul_nonnegative(p + d, ratio);
    lemma_fundamental_div_mod((p + d) * ratio, m);
    vstd::arithmetic::div_mod::lemma_mod_bound((p + d) * ratio, m);
    let t = ts + s;
    // the shares bought cover the deposit up to one pool unit
    assert((p + d) * s >= d * t - p + 1) by (nonlinear_arith)
        requires
            d * ts == p * s + (d * ts) % p,
            (d * ts) % p < p,
            t == ts + s,
    ;
    // the withdrawal ratio loses at most one part in t
    assert(t * ratio >= s * m - t + 1);
    lemma_mul_inequality(s * m - t + 1, t * ratio, p + d);
    assert((s * m - t + 1) * (p + d) == ((p + d) * s) * m - (p + d) * t + (p + d))
        by (nonlinear_arith);
    lemma_mul_inequality(d * t - p + 1, (p + d) * s, m);
    assert((t * ratio) * (p + d) == t * ((p + d) * ratio) && (d * t - p + 1) * m == (d * t) * m
        - p * m + m) by (nonlinear_arith);
    // the refund loses at most one part in m
    assert(m * refund >= (p + d) * ratio - m + 1);
    lemma_mul_inequality((p + d) * ratio - m + 1, m * refund, t);
    assert(((p + d) * ratio - m + 1) * t == t * ((p + d) * ratio) - t * m + t
        && (m * refund) * t == t * (m * refund)) by (nonlinear_arith);
    // regroup to the stated bound
    assert((refund + 1) * (t * m) == t * (m * refund) + t * m && d * (t * m) == (d * t) * m)
        by (nonlinear_arith);
    assert((refund + 1) * (t * m) + p * m + (p + d) * t >= d * (t * m));
    assert(withdraw_refund(p + d, s, ts + s) == refund);
}

/// The very first provision is exact: minting `isqrt(d0*d1)` shares
/// against empty pools and withdrawing them all returns each deposit to
/// the unit.
pub proof fn lemma_initial_round_trip_exact(d0: int, d1: int, s: int)
    requires
        0 < s,
        is_isqrt(s, d0 * d1),
    ensures
        withdraw_refund(d0, s, s) == d0,
        withdraw_refund(d1, s, s) == d1,
{
    let m = 1_000_000_000_000_000_000int;
    lemma_div_multiples_vanish(m, s);
    assert(s * m == m * s) by (nonlinear_arith);
    assert((s * m) / s == m);
    lemma_div_multiples_vanish(d0, m);
    lemma_div_multiples_vanish(d1, m);
    assert(d0 * m == m * d0 && d1 * m == m * d1) by (nonlinear_arith);
}

/// The return the trader expected at their belief price: `oa / bp`.
pub open spec fn expected_return(oa: int, bp: int) -> int {
    (oa * 1_000_000_000_000_000_000) / bp
}

/// With a belief price: the trade is rejected when the realized return
/// falls short of the expected one by more than `ms`.
pub open spec fn belief_spread_violated(oa: int, bp: int, ret: int, ms: int) -> bool {
    &&& ret < expected_return(oa, bp)
    &&& ((expected_return(oa, bp) - ret) * 1_000_000_000_000_000_000) / expected_return(oa, bp)
        > ms
}

/// Without a belief price: the trade is rejected when the pool's own
/// spread exceeds `ms` of the spot-implied output.
pub open spec fn pool_spread_violated(ret: int, spread: int, ms: int) -> bool {
    (spread * 1_000_000_000_000_000_000) / (ret + spread) > ms
}

/// Enforce the caller's spread limit. With both a belief price and a
/// limit the spread is measured against the belief price; with only a
/// limit it is measured against the spot-implied output; with no limit
/// nothing is checked.
pub fn assert_max_spread(
    belief_price: Option<Decimal>,
    max_spread: Option<Decimal>,
    offer_amount: u128,
    return_amount: u128,
    spread_amount: u128,
) -> (r: Result<(), crate::ContractError>)
    requires
        belief_price.is_some() && max_spread.is_some() ==> belief_price.unwrap().atomics > 0,
        belief_price.is_none() && max_spread.is_some() ==> return_amount + spread_amount > 0,
    ensures
        match (belief_price, max_spread) {
            (Some(bp), Some(ms)) => r.is_ok() == !belief_spread_violated(
                offer_amount as int,
                bp.atomics as int,
                return_amount as int,
                ms.atomics as int,
            ),
            (None, Some(ms)) => r.is_ok() == !pool_spread_violated(
                return_amount as int,
                spread_amount as int,
                ms.atomics as int,
            ),
            (_, None) => r.is_ok(),
        },
        r.is_err() ==> r == Err::<(), crate::ContractError>(crate::ContractError::SlippageExceeded),
{
    let ghost m = 1_000_000_000_000_000_000int;
    let w_m = WideUint::from_u128(DECIMAL_FRACTIONAL);
    match (max_spread, belief_price) {
        (Some(ms), Some(bp)) => {
            let w_oa = WideUint::from_u128(offer_amount);
            let w_bp = WideUint::from_u128(bp.atomics);
            let w_ret = WideUint::from_u128(return_amount);
            let w_ms = WideUint::from_u128(ms.atomics);
            proof {
                crate::wide_uint::lemma_mul_u128_fits(offer_amount, DECIMAL_FRACTIONAL);
            }
            let expected = w_oa.mul_ratio(&w_m, &w_bp);
            if w_ret.lt(&expected) {
                let diff = expected.sub(&w_ret);
                proof {
                    vstd::arithmetic::div_mod::lemma_div_nonincreasing(
                        (offer_amount as int) * m,
                        bp.atomics as int,
                    );
                    crate::wide_uint::lemma_rescale_fits(diff.val(), offer_amount);
                }
                let ratio = diff.mul_ratio(&w_m, &expected);
                if w_ms.lt(&ratio) {
                    return Err(crate::ContractError::SlippageExceeded);
                }
            }
            Ok(())
        },
        (Some(ms), None) => {
            let w_spread = WideUint::from_u128(spread_amount);
            let w_total = WideUint::from_u128(return_amount).add(
                &WideUint::from_u128(spread_amount),
            );
            let w_ms = WideUint::from_u128(ms.atomics);
            proof {
                crate::wide_uint::lemma_mul_u128_fits(spread_amount, DECIMAL_FRACTIONAL);
            }
            let ratio = w_spread.mul_ratio(&w_m, &w_total);
            if w_ms.lt(&ratio) {
                return Err(crate::ContractError::SlippageExceeded);
            }
            Ok(())
        },
        (None, _) => Ok(()),
    }
}

/// Whether the offered asset is pool slot 0, checked first, as the engine
/// matches it.
pub open spec fn offer_is_slot0(p0: AssetValue, offer: AssetInfoView) -> bool {
    offer == p0.info
}

/// The spread limit that [`swap`] enforces, over the gross return.
pub open spec fn swap_spread_violated(
    belief_price: Option<Decimal>,
    max_spread: Option<Decimal>,
    oa: int,
    gross: int,
    spread: int,
) -> bool {
    match (belief_price, max_spread) {
        (Some(bp), Some(ms)) => belief_spread_violated(
            oa,
            bp.atomics as int,
            gross,
            ms.atomics as int,
        ),
        (None, Some(ms)) => pool_spread_violated(gross, spread, ms.atomics as int),
        (_, None) => false,
    }
}

#[derive(Debug)]
pub struct SwapResponse {
    pub return_amount: u128,
    pub spread_amount: u128,
    pub commission_amount: u128,
    pub protocol_fee_amount: u128,
    pub receiver: String,
    pub actions: Vec<PairAction>,
}

/// Swap `offer_asset` against the pair. The offered amount is already
/// credited to the pair's balance, so it is subtracted back out before
/// pricing; the commission stays in the pool except for the protocol's
/// share, which is forwarded to the fee collector.
pub fn swap(
    config: &Config,
    pools: &[Asset; 2],
    fee_config: &crate::factory::FeeConfig,
    collector: &String,
    sender: String,
    offer_asset: &Asset,
    belief_price: Option<Decimal>,
    max_spread: Option<Decimal>,
    to: Option<String>,
    funds: &Vec<Coin>,
) -> (r: Result<SwapResponse, ContractError>)
    requires
        ({
            let p0 = pools[0]@;
            let p1 = pools[1]@;
            let offer = offer_asset@;
            let matched = offer.info == p0.info || offer.info == p1.info;
            let opr = if offer_is_slot0(p0, offer.info) {
                p0.amount
            } else {
                p1.amount
            };
            let ask = if offer_is_slot0(p0, offer.info) {
                p1.amount
            } else {
                p0.amount
            };
            let reached = matched && offer.amount <= opr;
            &&& fee_config.protocol_fee.atomics <= 1_000_000_000_000_000_000
            &&& (reached ==> compute_swap_ok(
                opr - offer.amount,
                ask,
                offer.amount,
                fee_config.total_fee.atomics as int,
            ))
            &&& (belief_price.is_some() && max_spread.is_some()
                ==> belief_price.unwrap().atomics > 0)
            &&& (reached && belief_price.is_none() && max_spread.is_some() ==> swap_spot_return(
                opr - offer.amount,
                ask,
                offer.amount,
            ) > 0)
        }),
    ensures
        ({
            let p0 = pools[0]@;
            let p1 = pools[1]@;
            let offer = offer_asset@;
            let oa = offer.amount;
            let f = fee_config.total_fee.atomics as int;
            let matched = offer.info == p0.info || offer.info == p1.info;
            let slot0 = offer_is_slot0(p0, offer.info);
            let opr = if slot0 {
                p0.amount
            } else {
                p1.amount
            };
            let ask = if slot0 {
                p1.amount
            } else {
                p0.amount
            };
            let ask_info = if slot0 {
                p1.info
            } else {
                p0.info
            };
            let op = opr - oa;
            let gross = swap_gross_return(op, ask, oa);
            let spread = swap_spread_amount(op, ask, oa);
            let ret = swap_return_amount(op, ask, oa, f);
            let commission = swap_commission(op, ask, oa, f);
            let protocol_fee = dec_mul(commission, fee_config.protocol_fee.atomics as int);
            let funded = crate::asset::funds_ok(offer, funds@);
            &&& (!funded ==> r == Err::<SwapResponse, ContractError>(
                ContractError::ValidationError,
            ))
            &&& (funded && !matched ==> r == Err::<SwapResponse, ContractError>(
                ContractError::AssetMismatch,
            ))
            &&& (funded && matched && oa > opr ==> r == Err::<SwapResponse, ContractError>(
                ContractError::ArithmeticError,
            ))
            &&& (funded && matched && oa <= opr ==> {
                &&& (swap_spread_violated(belief_price, max_spread, oa, gross, spread) ==> r
                    == Err::<SwapResponse, ContractError>(ContractError::SlippageExceeded))
                &&& (!swap_spread_violated(belief_price, max_spread, oa, gross, spread) ==> (
                r matches Ok(resp) && {
                    &&& resp.return_amount == ret
                    &&& resp.spread_amount == spread
                    &&& resp.commission_amount == commission
                    &&& resp.protocol_fee_amount == protocol_fee
                    &&& resp.receiver@ == (match to {
                        Some(x) => x@,
                        None => sender@,
                    })
                    &&& actions_view(resp.actions@) =~= (if ret != 0 {
                        seq![
                            PairActionView::Send {
                                asset: AssetValue { info: ask_info, amount: ret },
                                recipient: resp.receiver@,
                            },
                        ]
                    } else {
                        seq![]
                    }) + (if protocol_fee != 0 {
                        seq![
                            PairActionView::Send {
                                asset: AssetValue { info: ask_info, amount: protocol_fee },
                                recipient: collector@,
                            },
                        ]
                    } else {
                        seq![]
                    })
                }))
            })
        }),
{
    match offer_asset.assert_sent_native_token_balance(funds) {
        Err(e) => {
            return Err(e);
        },
        Ok(()) => {},
    }
    let slot0 = offer_asset.info.equals(&pools[0].info);
    let slot1 = !slot0 && offer_asset.info.equals(&pools[1].info);
    if !slot0 && !slot1 {
        return Err(ContractError::AssetMismatch);
    }
    let offer_pool_raw: u128 = if slot0 {
        pools[0].amount
    } else {
        pools[1].amount
    };
    let ask_pool: u128 = if slot0 {
        pools[1].amount
    } else {
        pools[0].amount
    };
    let ask_info: &AssetInfo = if slot0 {
        &pools[1].info
    } else {
        &pools[0].info
    };
    if offer_asset.amount > offer_pool_raw {
        return Err(ContractError::ArithmeticError);
    }
    let offer_pool = offer_pool_raw - offer_asset.amount;
    let (return_amount, spread_amount, commission_amount) = compute_swap(
        offer_pool,
        ask_pool,
        offer_asset.amount,
        &fee_config.total_fee,
    );
    match assert_max_spread(
        belief_price,
        max_spread,
        offer_asset.amount,
        return_amount + commission_amount,
        spread_amount,
    ) {
        Err(e) => {
            return Err(e);
        },
        Ok(()) => {},
    }
    proof {
        lemma_refund_fits(commission_amount, fee_config.protocol_fee.atomics);
    }
    let protocol_fee_amount = crate::decimal::mul_amount(
        commission_amount,
        &fee_config.protocol_fee,
    );
    let receiver: String = match to {
        Some(x) => x,
        None => sender,
    };
    let mut actions: Vec<PairAction> = Vec::new();
    if return_amount != 0 {
        actions.push(
            PairAction::Send {
                asset: Asset { info: ask_info.clone(), amount: return_amount },
                recipient: receiver.clone(),
            },
        );
    }
    if protocol_fee_amount != 0 {
        actions.push(
            PairAction::Send {
                asset: Asset { info: ask_info.clone(), amount: protocol_fee_amount },
                recipient: collector.clone(),
            },
        );
    }
    Ok(
        SwapResponse {
            return_amount,
            spread_amount,
            commission_amount,
            protocol_fee_amount,
            receiver,
            actions,
        },
    )
}

#[derive(Debug)]
pub struct SimulationResponse {
    pub return_amount: u128,
    pub spread_amount: u128,
    pub commission_amount: u128,
}

/// Price a prospective swap against the current pools, without touching
/// them: the offered amount is not yet credited here, so nothing is
/// subtracted.
pub fn query_simulation(
    pools: &[Asset; 2],
    offer_asset: &Asset,
    total_fee: &Decimal,
) -> (r: Result<SimulationResponse, ContractError>)
    requires
        ({
            let p0 = pools[0]@;
            let p1 = pools[1]@;
            let offer = offer_asset@;
            let matched = offer.info == p0.info || offer.info == p1.info;
            let op = if offer_is_slot0(p0, offer.info) {
                p0.amount
            } else {
                p1.amount
            };
            let ap = if offer_is_slot0(p0, offer.info) {
                p1.amount
            } else {
                p0.amount
            };
            matched ==> compute_swap_ok(op, ap, offer.amount, total_fee.atomics as int)
        }),
    ensures
        ({
            let p0 = pools[0]@;
            let p1 = pools[1]@;
            let offer = offer_asset@;
            let matched = offer.info == p0.info || offer.info == p1.info;
            let op = if offer_is_slot0(p0, offer.info) {
                p0.amount
            } else {
                p1.amount
            };
            let ap = if offer_is_slot0(p0, offer.info) {
                p1.amount
            } else {
                p0.amount
            };
            let f = total_fee.atomics as int;
            &&& (!matched ==> r == Err::<SimulationResponse, ContractError>(
                ContractError::AssetMismatch,
            ))
            &&& (matched ==> (r matches Ok(resp) && resp.return_amount == swap_return_amount(
                op,
                ap,
                offer.amount,
                f,
            ) && resp.spread_amount == swap_spread_amount(op, ap, offer.amount)
                && resp.commission_amount == swap_commission(op, ap, offer.amount, f)))
        }),
{
    let slot0 = offer_asset.info.equals(&pools[0].info);
    let slot1 = !slot0 && offer_asset.info.equals(&pools[1].info);
    if !slot0 && !slot1 {
        return Err(ContractError::AssetMismatch);
    }
    let op: u128 = if slot0 {
        pools[0].amount
    } else {
        pools[1].amount
    };
    let ap: u128 = if slot0 {
        pools[1].amount
    } else {
        pools[0].amount
    };
    let (return_amount, spread_amount, commission_amount) = compute_swap(
        op,
        ap,
        offer_asset.amount,
        total_fee,
    );
    Ok(SimulationResponse { return_amount, spread_amount, commission_amount })
}

#[derive(Debug)]
pub struct ReverseSimulationResponse {
    pub offer_amount: u128,
    pub spread_amount: u128,
    pub commission_amount: u128,
}

/// Quote the offer needed to receive a given ask amount, against the
/// current pools.
pub fn query_reverse_simulation(
    pools: &[Asset; 2],
    ask_asset: &Asset,
    total_fee: &Decimal,
) -> (r: Result<ReverseSimulationResponse, ContractError>)
    requires
        ({
            let p0 = pools[0]@;
            let p1 = pools[1]@;
            let ask = ask_asset@;
            let matched = ask.info == p0.info || ask.info == p1.info;
            let ap = if offer_is_slot0(p0, ask.info) {
                p0.amount
            } else {
                p1.amount
            };
            let op = if offer_is_slot0(p0, ask.info) {
                p1.amount
            } else {
                p0.amount
            };
            matched ==> compute_offer_ok(op, ap, ask.amount, total_fee.atomics as int)
        }),
    ensures
        ({
            let p0 = pools[0]@;
            let p1 = pools[1]@;
            let ask = ask_asset@;
            let matched = ask.info == p0.info || ask.info == p1.info;
            let ap = if offer_is_slot0(p0, ask.info) {
                p0.amount
            } else {
                p1.amount
            };
            let op = if offer_is_slot0(p0, ask.info) {
                p1.amount
            } else {
                p0.amount
            };
            let f = total_fee.atomics as int;
            &&& (!matched ==> r == Err::<ReverseSimulationResponse, ContractError>(
                ContractError::AssetMismatch,
            ))
            &&& (matched && reverse_before_commission(ask.amount, f) > ap ==> r == Err::<
                ReverseSimulationResponse,
                ContractError,
            >(ContractError::ArithmeticError))
            &&& (matched && reverse_before_commission(ask.amount, f) <= ap ==> (r matches Ok(
                resp,
            ) && resp.offer_amount == reverse_offer_amount(op, ap, ask.amount, f)
                && resp.spread_amount == reverse_spread_amount(op, ap, ask.amount, f)
                && resp.commission_amount == reverse_commission(ask.amount, f)))
        }),
{
    let slot0 = ask_asset.info.equals(&pools[0].info);
    let slot1 = !slot0 && ask_asset.info.equals(&pools[1].info);
    if !slot0 && !slot1 {
        return Err(ContractError::AssetMismatch);
    }
    let ap: u128 = if slot0 {
        pools[0].amount
    } else {
        pools[1].amount
    };
    let op: u128 = if slot0 {
        pools[1].amount
    } else {
        pools[0].amount
    };
    match compute_offer_amount(op, ap, ask_asset.amount, total_fee) {
        Err(e) => Err(e),
        Ok((offer_amount, spread_amount, commission_amount)) => Ok(
            ReverseSimulationResponse { offer_amount, spread_amount, commission_amount },
        ),
    }
}

/// A provision is rejected when either cross-ratio of the deposits,
/// discounted by `1 - st`, still exceeds the corresponding pool ratio.
pub open spec fn slippage_violated(d0: int, d1: int, p0: int, p1: int, st: int) -> bool {
    let w = 1_000_000_000_000_000_000 - st;
    ||| dec_mul(crate::decimal::ratio_atomics(d0, d1), w) > crate::decimal::ratio_atomics(p0, p1)
    ||| dec_mul(crate::decimal::ratio_atomics(d1, d0), w) > crate::decimal::ratio_atomics(p1, p0)
}

/// One direction of the slippage comparison:
/// `(deposit ratio) * (1 - st) > pool ratio`, in 18-digit fixed point.
fn slippage_side(dn: u128, dd: u128, pn: u128, pd: u128, w: u128) -> (r: bool)
    requires
        dd > 0,
        pd > 0,
        w <= 1_000_000_000_000_000_000,
    ensures
        r == (dec_mul(crate::decimal::ratio_atomics(dn as int, dd as int), w as int)
            > crate::decimal::ratio_atomics(pn as int, pd as int)),
{
    let w_m = WideUint::from_u128(DECIMAL_FRACTIONAL);
    proof {
        crate::wide_uint::lemma_mul_u128_fits(dn, DECIMAL_FRACTIONAL);
        crate::wide_uint::lemma_mul_u128_fits(pn, DECIMAL_FRACTIONAL);
    }
    let ra = WideUint::from_u128(dn).mul_ratio(&w_m, &WideUint::from_u128(dd));
    proof {
        vstd::arithmetic::div_mod::lemma_div_nonincreasing(
            (dn as int) * 1_000_000_000_000_000_000,
            dd as int,
        );
        crate::wide_uint::lemma_rescale_fits(ra.val(), dn);
        lemma_mul_inequality(w as int, 1_000_000_000_000_000_000int, ra.val());
        vstd::arithmetic::mul::lemma_mul_is_commutative(w as int, ra.val());
        vstd::arithmetic::mul::lemma_mul_is_commutative(
            1_000_000_000_000_000_000int,
            ra.val(),
        );
    }
    let lhs = ra.mul_ratio(&WideUint::from_u128(w), &w_m);
    let rb = WideUint::from_u128(pn).mul_ratio(&w_m, &WideUint::from_u128(pd));
    rb.lt(&lhs)
}

/// Reject a provision whose deposit ratio moves either pool price by more
/// than the tolerance; a tolerance above one is itself rejected.
pub fn assert_slippage_tolerance(
    slippage_tolerance: Option<Decimal>,
    deposits: &[u128; 2],
    pools: &[u128; 2],
) -> (r: Result<(), crate::ContractError>)
    requires
        (slippage_tolerance matches Some(st) && st.atomics <= 1_000_000_000_000_000_000)
            ==> deposits[0] > 0 && deposits[1] > 0 && pools[0] > 0 && pools[1] > 0,
    ensures
        match slippage_tolerance {
            None => r.is_ok(),
            Some(st) => {
                if st.atomics > 1_000_000_000_000_000_000 {
                    r == Err::<(), crate::ContractError>(crate::ContractError::ValidationError)
                } else if slippage_violated(
                    deposits[0] as int,
                    deposits[1] as int,
                    pools[0] as int,
                    pools[1] as int,
                    st.atomics as int,
                ) {
                    r == Err::<(), crate::ContractError>(crate::ContractError::SlippageExceeded)
                } else {
                    r.is_ok()
                }
            },
        },
{
    match slippage_tolerance {
        None => Ok(()),
        Some(st) => {
            if st.atomics > DECIMAL_FRACTIONAL {
                return Err(crate::ContractError::ValidationError);
            }
            let w = DECIMAL_FRACTIONAL - st.atomics;
            let d0 = deposits[0];
            let d1 = deposits[1];
            let p0 = pools[0];
            let p1 = pools[1];
            if slippage_side(d0, d1, p0, p1, w) || slippage_side(d1, d0, p1, p0, w) {
                return Err(crate::ContractError::SlippageExceeded);
            }
            Ok(())
        },
    }
}

} // verus!
