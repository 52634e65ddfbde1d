//! Assets: a closed union of native denominations and token contracts,
//! each with an amount, plus the transfer requests the engine emits.
//!
//! An asset's identity has a stable canonical byte encoding — the UTF-8
//! bytes of its denomination or contract address — on which registry keys
//! and pool matching rely.

use vstd::prelude::*;
use vstd::utf8::encode_utf8;

verus! {

/// Identity of an asset: a native coin denomination or a token contract.
#[derive(Debug, PartialEq, Eq)]
pub enum AssetInfo {
    Native(String),
    Cw20(String),
}

/// Mathematical image of an [`AssetInfo`].
pub enum AssetInfoView {
    Native { denom: Seq<char> },
    Cw20 { contract_addr: Seq<char> },
}

impl View for AssetInfo {
    type V = AssetInfoView;

    open spec fn view(&self) -> AssetInfoView {
        match self {
            AssetInfo::Native(denom) => AssetInfoView::Native { denom: denom@ },
            AssetInfo::Cw20(contract_addr) => AssetInfoView::Cw20 { contract_addr: contract_addr@ },
        }
    }
}

impl AssetInfoView {
    pub open spec fn is_native(&self) -> bool {
        match self {
            AssetInfoView::Native { .. } => true,
            AssetInfoView::Cw20 { .. } => false,
        }
    }

    /// The canonical byte encoding of the identity: the UTF-8 bytes of the
    /// denomination or of the contract address, with no tag.
    pub open spec fn key_bytes(&self) -> Seq<u8> {
        match self {
            AssetInfoView::Native { denom } => encode_utf8(*denom),
            AssetInfoView::Cw20 { contract_addr } => encode_utf8(*contract_addr),
        }
    }
}

impl AssetInfo {
    pub fn is_native_token(&self) -> (r: bool)
        ensures
            r == self@.is_native(),
    {
        match self {
            AssetInfo::Native(..) => true,
            AssetInfo::Cw20(..) => false,
        }
    }

    /// The canonical byte encoding of this identity.
    pub fn as_bytes(&self) -> (r: &[u8])
        ensures
            r@ == self@.key_bytes(),
    {
        match self {
            AssetInfo::Native(denom) => denom.as_str().as_bytes(),
            AssetInfo::Cw20(contract_addr) => contract_addr.as_str().as_bytes(),
        }
    }

    /// The bare denomination or contract address.
    pub fn to_string_legacy(&self) -> (r: String)
        ensures
            match self@ {
                AssetInfoView::Native { denom } => r@ == denom,
                AssetInfoView::Cw20 { contract_addr } => r@ == contract_addr,
            },
    {
        match self {
            AssetInfo::Native(denom) => denom.clone(),
            AssetInfo::Cw20(contract_addr) => contract_addr.clone(),
        }
    }

    /// Identity comparison: same kind and same characters.
    pub fn equals(&self, other: &AssetInfo) -> (r: bool)
        ensures
            r == (self@ == other@),
    {
        match (self, other) {
            (AssetInfo::Native(a), AssetInfo::Native(b)) => *a == *b,
            (AssetInfo::Cw20(a), AssetInfo::Cw20(b)) => *a == *b,
            _ => false,
        }
    }
}

impl Clone for AssetInfo {
    fn clone(&self) -> (r: AssetInfo)
        ensures
            r@ == self@,
    {
        match self {
            AssetInfo::Native(denom) => AssetInfo::Native(denom.clone()),
            AssetInfo::Cw20(contract_addr) => AssetInfo::Cw20(contract_addr.clone()),
        }
    }
}

/// An asset identity together with a non-negative amount below 2^128.
#[derive(Debug, PartialEq, Eq)]
pub struct Asset {
    pub info: AssetInfo,
    pub amount: u128,
}

pub struct AssetValue {
    pub info: AssetInfoView,
    pub amount: int,
}

impl View for Asset {
    type V = AssetValue;

    open spec fn view(&self) -> AssetValue {
        AssetValue { info: self.info@, amount: self.amount as int }
    }
}

impl Clone for Asset {
    fn clone(&self) -> (r: Asset)
        ensures
            r@ == self@,
    {
        Asset { info: self.info.clone(), amount: self.amount }
    }
}

/// A native coin attached to a call: what the host hands over as funds.
#[derive(Debug, PartialEq, Eq)]
pub struct Coin {
    pub denom: String,
    pub amount: u128,
}

pub struct CoinValue {
    pub denom: Seq<char>,
    pub amount: int,
}

impl View for Coin {
    type V = CoinValue;

    open spec fn view(&self) -> CoinValue {
        CoinValue { denom: self.denom@, amount: self.amount as int }
    }
}

/// A request to move `asset` to `recipient`: a bank send for a native
/// asset, a token-contract transfer for a token asset.
#[derive(Debug, PartialEq, Eq)]
pub struct TransferAction {
    pub asset: Asset,
    pub recipient: String,
}

pub struct TransferActionView {
    pub asset: AssetValue,
    pub recipient: Seq<char>,
}

impl View for TransferAction {
    type V = TransferActionView;

    open spec fn view(&self) -> TransferActionView {
        TransferActionView { asset: self.asset@, recipient: self.recipient@ }
    }
}

/// The amount of the first coin in `funds` whose denomination is `denom`,
/// or zero when none matches: what the caller handed over in that coin.
pub open spec fn sent_amount(funds: Seq<Coin>, denom: Seq<char>) -> int
    decreases funds.len(),
{
    if funds.len() == 0 {
        0
    } else if funds[0]@.denom == denom {
        funds[0]@.amount
    } else {
        sent_amount(funds.skip(1), denom)
    }
}

/// What [`Asset::assert_sent_native_token_balance`] accepts: a native
/// asset's amount equals what the funds credit; a token asset passes.
pub open spec fn funds_ok(a: AssetValue, funds: Seq<Coin>) -> bool {
    match a.info {
        AssetInfoView::Native { denom } => sent_amount(funds, denom) == a.amount,
        AssetInfoView::Cw20 { .. } => true,
    }
}

impl Asset {
    /// A native asset must have been handed over in full with the call;
    /// a token asset carries no funds, so it always passes. Mirrors the
    /// pre-credited native balance model of the host.
    pub fn assert_sent_native_token_balance(&self, funds: &Vec<Coin>) -> (r: Result<
        (),
        crate::ContractError,
    >)
        ensures
            match self@.info {
                AssetInfoView::Native { denom } => r.is_ok() == (sent_amount(funds@, denom)
                    == self.amount as int),
                AssetInfoView::Cw20 { .. } => r.is_ok(),
            },
            r.is_err() ==> r == Err::<(), crate::ContractError>(
                crate::ContractError::ValidationError,
            ),
    {
        match &self.info {
            AssetInfo::Native(denom) => {
                proof {
                    assert(self@.info == AssetInfoView::Native { denom: denom@ });
                }
                let mut i: usize = 0;
                let n: usize = funds.len();
                proof {
                    assert(funds@.skip(0) =~= funds@);
                }
                while i < n
                    invariant
                        0 <= i <= n,
                        n == funds.len(),
                        self@.info == (AssetInfoView::Native { denom: denom@ }),
                        sent_amount(funds@, denom@) == sent_amount(funds@.skip(i as int), denom@),
                    decreases n - i,
                {
                    proof {
                        assert(funds@.skip(i as int)[0] == funds@[i as int]);
                        assert(funds@.skip(i as int).skip(1) =~= funds@.skip(i + 1));
                    }
                    if funds[i].denom == *denom {
                        proof {
                            assert(sent_amount(funds@.skip(i as int), denom@) == funds@[
                                i as int
                            ]@.amount);
                        }
                        if funds[i].amount == self.amount {
                            return Ok(());
                        } else {
                            return Err(crate::ContractError::ValidationError);
                        }
                    }
                    i = i + 1;
                }
                proof {
                    assert(funds@.skip(n as int) =~= Seq::<Coin>::empty());
                }
                if self.amount == 0 {
                    Ok(())
                } else {
                    Err(crate::ContractError::ValidationError)
                }
            },
            AssetInfo::Cw20(..) => Ok(()),
        }
    }
}

} // verus!
