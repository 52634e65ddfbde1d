//! The router: multi-hop route validation and atomic step chaining with a
//! minimum-receive guarantee.
//!
//! A route is an ordered list of swap legs. It is validated up front — at
//! least one leg, at most fifty, and a single coherent output asset — and
//! then unrolled into self-addressed step messages that the host executes
//! in order within one atomic transaction.

use vstd::prelude::*;
use vstd::utf8::encode_utf8;

use crate::asset::{Asset, AssetInfo, AssetInfoView, AssetValue, Coin, CoinValue};
use crate::lex::bytes_eq;
use crate::ContractError;

verus! {

/// The most legs one route may chain.
pub const MAX_SWAP_OPERATIONS: usize = 50;

/// One leg of a route: a native currency exchange, or a swap against a
/// registered pair.
#[derive(Debug, PartialEq, Eq)]
pub enum SwapOperation {
    NativeSwap { offer_denom: String, ask_denom: String },
    PrismSwap { offer_asset_info: AssetInfo, ask_asset_info: AssetInfo },
}

pub enum SwapOperationView {
    NativeSwap { offer_denom: Seq<char>, ask_denom: Seq<char> },
    PrismSwap { offer_asset_info: AssetInfoView, ask_asset_info: AssetInfoView },
}

impl View for SwapOperation {
    type V = SwapOperationView;

    open spec fn view(&self) -> SwapOperationView {
        match self {
            SwapOperation::NativeSwap { offer_denom, ask_denom } => {
                SwapOperationView::NativeSwap {
                    offer_denom: offer_denom@,
                    ask_denom: ask_denom@,
                }
            },
            SwapOperation::PrismSwap { offer_asset_info, ask_asset_info } => {
                SwapOperationView::PrismSwap {
                    offer_asset_info: offer_asset_info@,
                    ask_asset_info: ask_asset_info@,
                }
            },
        }
    }
}

impl Clone for SwapOperation {
    fn clone(&self) -> (r: SwapOperation)
        ensures
            r@ == self@,
    {
        match self {
            SwapOperation::NativeSwap { offer_denom, ask_denom } => {
                SwapOperation::NativeSwap {
                    offer_denom: offer_denom.clone(),
                    ask_denom: ask_denom.clone(),
                }
            },
            SwapOperation::PrismSwap { offer_asset_info, ask_asset_info } => {
                SwapOperation::PrismSwap {
                    offer_asset_info: offer_asset_info.clone(),
                    ask_asset_info: ask_asset_info.clone(),
                }
            },
        }
    }
}

impl SwapOperationView {
    /// The asset a leg produces.
    pub open spec fn target(&self) -> AssetInfoView {
        match self {
            SwapOperationView::NativeSwap { ask_denom, .. } => {
                AssetInfoView::Native { denom: *ask_denom }
            },
            SwapOperationView::PrismSwap { ask_asset_info, .. } => *ask_asset_info,
        }
    }

    /// The asset a leg consumes.
    pub open spec fn source(&self) -> AssetInfoView {
        match self {
            SwapOperationView::NativeSwap { offer_denom, .. } => {
                AssetInfoView::Native { denom: *offer_denom }
            },
            SwapOperationView::PrismSwap { offer_asset_info, .. } => *offer_asset_info,
        }
    }
}

impl SwapOperation {
    pub fn get_target_asset_info(&self) -> (r: AssetInfo)
        ensures
            r@ == self@.target(),
    {
        match self {
            SwapOperation::NativeSwap { ask_denom, .. } => AssetInfo::Native(ask_denom.clone()),
            SwapOperation::PrismSwap { ask_asset_info, .. } => ask_asset_info.clone(),
        }
    }
}

/// An asset identity as a set key: a kind tag followed by the canonical
/// byte encoding, so a native coin and a token never collide.
pub open spec fn tagged_key(info: AssetInfoView) -> Seq<u8> {
    match info {
        AssetInfoView::Native { denom } => seq![0u8] + encode_utf8(denom),
        AssetInfoView::Cw20 { contract_addr } => seq![1u8] + encode_utf8(contract_addr),
    }
}

fn tagged_key_bytes(info: &AssetInfo) -> (r: Vec<u8>)
    ensures
        r@ == tagged_key(info@),
{
    let tag: u8 = match info {
        AssetInfo::Native(..) => 0,
        AssetInfo::Cw20(..) => 1,
    };
    let mut v = vstd::slice::slice_to_vec(info.as_bytes());
    v.insert(0, tag);
    proof {
        assert(v@ =~= tagged_key(info@));
    }
    v
}

/// The provisional output-asset set after processing a route: each leg
/// removes the asset it consumes and adds the asset it produces.
pub open spec fn output_assets(ops: Seq<SwapOperation>) -> Set<Seq<u8>>
    decreases ops.len(),
{
    if ops.len() == 0 {
        Set::empty()
    } else {
        let prev = output_assets(ops.drop_last());
        let last = ops.last()@;
        prev.remove(tagged_key(last.source())).insert(tagged_key(last.target()))
    }
}

/// A route is coherent when exactly one output asset remains after all
/// legs are processed.
pub open spec fn single_output(ops: Seq<SwapOperation>) -> bool {
    exists|k: Seq<u8>|
        output_assets(ops).contains(k) && (forall|k2: Seq<u8>|
            output_assets(ops).contains(k2) ==> k2 == k)
}

/// Whether some element of `keys` views as `k`.
spec fn keys_contain(keys: Seq<Vec<u8>>, k: Seq<u8>) -> bool {
    exists|i: int| 0 <= i < keys.len() && keys[i]@ == k
}

/// Validate the single-output-token coherence of a route.
pub fn assert_operations(operations: &Vec<SwapOperation>) -> (r: Result<(), ContractError>)
    ensures
        r.is_ok() == single_output(operations@),
        r.is_err() ==> r == Err::<(), ContractError>(ContractError::ValidationError),
{
    let mut keys: Vec<Vec<u8>> = Vec::new();
    let n: usize = operations.len();
    let mut i: usize = 0;
    proof {
        assert(operations@.take(0) =~= Seq::<SwapOperation>::empty());
    }
    while i < n
        invariant
            0 <= i <= n,
            n == operations@.len(),
            forall|a: int, b: int| 0 <= a < b < keys@.len() ==> keys@[a]@ != keys@[b]@,
            forall|k: Seq<u8>|
                #[trigger] output_assets(operations@.take(i as int)).contains(k)
                    == keys_contain(keys@, k),
        decreases n - i,
    {
        let ghost ops_prev = operations@.take(i as int);
        proof {
            assert(operations@.take(i + 1).drop_last() =~= ops_prev);
            assert(operations@.take(i + 1).last() == operations@[i as int]);
        }
        let (src, dst) = match &operations[i] {
            SwapOperation::NativeSwap { offer_denom, ask_denom } => {
                (
                    tagged_key_bytes(&AssetInfo::Native(offer_denom.clone())),
                    tagged_key_bytes(&AssetInfo::Native(ask_denom.clone())),
                )
            },
            SwapOperation::PrismSwap { offer_asset_info, ask_asset_info } => {
                (tagged_key_bytes(offer_asset_info), tagged_key_bytes(ask_asset_info))
            },
        };
        // remove the consumed asset, if present
        let mut j: usize = 0;
        let klen: usize = keys.len();
        let mut removed: bool = false;
        while j < klen && !removed
            invariant
                0 <= j <= klen,
                !removed ==> klen == keys@.len(),
                removed ==> klen == keys@.len() + 1,
                forall|a: int, b: int| 0 <= a < b < keys@.len() ==> keys@[a]@ != keys@[b]@,
                !removed ==> forall|a: int| 0 <= a < j ==> keys@[a]@ != src@,
                !removed ==> forall|k: Seq<u8>|
                    #[trigger] output_assets(ops_prev).contains(k) == keys_contain(keys@, k),
                removed ==> forall|k: Seq<u8>|
                    #[trigger] output_assets(ops_prev).remove(src@).contains(k) == keys_contain(
                        keys@,
                        k,
                    ),
            decreases (if removed { 0int } else { 1int }), klen - j,
        {
            if bytes_eq(&keys[j], &src) {
                let ghost keys0 = keys@;
                keys.remove(j);
                removed = true;
                proof {
                    assert(keys@ =~= keys0.take(j as int) + keys0.skip(j + 1));
                    assert forall|k: Seq<u8>|
                        #[trigger] output_assets(ops_prev).remove(src@).contains(k)
                            == keys_contain(keys@, k) by {
                        if k == src@ {
                            assert forall|a: int| 0 <= a < keys@.len() implies keys@[a]@ != src@
                            by {
                                if a < j {
                                    assert(keys@[a] == keys0[a]);
                                } else {
                                    assert(keys@[a] == keys0[a + 1]);
                                }
                            }
                        } else {
                            if keys_contain(keys0, k) {
                                let a = choose|a: int|
                                    0 <= a < keys0.len() && keys0[a]@ == k;
                                if a < j {
                                    assert(keys@[a]@ == k);
                                } else if a > j {
                                    assert(keys@[a - 1]@ == k);
                                }
                            }
                            if keys_contain(keys@, k) {
                                let a = choose|a: int|
                                    0 <= a < keys@.len() && keys@[a]@ == k;
                                if a < j {
                                    assert(keys0[a]@ == k);
                                } else {
                                    assert(keys0[a + 1]@ == k);
                                }
                            }
                        }
                    }
                }
            } else {
                j = j + 1;
            }
        }
        proof {
            if !removed {
                assert(!keys_contain(keys@, src@)) by {
                    if keys_contain(keys@, src@) {
                        let a = choose|a: int| 0 <= a < keys@.len() && keys@[a]@ == src@;
                    }
                }
                assert forall|k: Seq<u8>|
                    #[trigger] output_assets(ops_prev).remove(src@).contains(k) == keys_contain(
                        keys@,
                        k,
                    ) by {
                    if k == src@ {
                        assert(!output_assets(ops_prev).contains(src@));
                    }
                }
            }
        }
        // add the produced asset, if absent
        let mut present: bool = false;
        let mut j2: usize = 0;
        let klen2: usize = keys.len();
        while j2 < klen2 && !present
            invariant
                0 <= j2 <= klen2,
                klen2 == keys@.len(),
                present ==> keys_contain(keys@, dst@),
                !present ==> forall|a: int| 0 <= a < j2 ==> keys@[a]@ != dst@,
            decreases (if present { 0int } else { 1int }), klen2 - j2,
        {
            if bytes_eq(&keys[j2], &dst) {
                present = true;
            } else {
                j2 = j2 + 1;
            }
        }
        let ghost keys1 = keys@;
        let ghost mid = output_assets(ops_prev).remove(src@);
        if !present {
            keys.push(dst);
            proof {
                assert(keys@ =~= keys1.push(keys@[keys1.len() as int]));
            }
        }
        proof {
            assert forall|a: int, b: int| 0 <= a < b < keys@.len() implies keys@[a]@ != keys@[b]@
            by {
                if !present && b == keys1.len() {
                    assert(keys@[a] == keys1[a]);
                    assert(keys@[b]@ == dst@);
                    assert(keys1[a]@ != dst@);
                } else if !present && b < keys1.len() {
                    assert(keys@[a] == keys1[a]);
                    assert(keys@[b] == keys1[b]);
                }
            }
            assert forall|k: Seq<u8>|
                #[trigger] output_assets(operations@.take(i + 1)).contains(k) == keys_contain(
                    keys@,
                    k,
                ) by {
                assert(output_assets(operations@.take(i + 1)) == mid.insert(dst@));
                if k == dst@ {
                    if present {
                        assert(keys_contain(keys1, dst@));
                    } else {
                        assert(keys@[keys1.len() as int]@ == dst@);
                    }
                } else {
                    if keys_contain(keys1, k) {
                        let a = choose|a: int| 0 <= a < keys1.len() && keys1[a]@ == k;
                        assert(keys@[a]@ == k);
                    }
                    if keys_contain(keys@, k) {
                        let a = choose|a: int| 0 <= a < keys@.len() && keys@[a]@ == k;
                        if a < keys1.len() {
                            assert(keys1[a]@ == k);
                        }
                    }
                }
            }
        }
        i = i + 1;
    }
    proof {
        assert(operations@.take(n as int) =~= operations@);
    }
    if keys.len() == 1 {
        proof {
            let k0 = keys@[0]@;
            assert(keys_contain(keys@, k0));
            assert forall|k2: Seq<u8>|
                output_assets(operations@).contains(k2) implies k2 == k0 by {
                let a = choose|a: int| 0 <= a < keys@.len() && keys@[a]@ == k2;
            }
            assert(output_assets(operations@).contains(k0));
            assert(single_output(operations@));
        }
        Ok(())
    } else {
        proof {
            if keys.len() == 0 {
                assert(!single_output(operations@)) by {
                    if single_output(operations@) {
                        let k = choose|k: Seq<u8>|
                            output_assets(operations@).contains(k) && (forall|k2: Seq<u8>|
                                output_assets(operations@).contains(k2) ==> k2 == k);
                        assert(keys_contain(keys@, k));
                    }
                }
            } else {
                assert(keys@[0]@ != keys@[1]@);
                assert(keys_contain(keys@, keys@[0]@));
                assert(keys_contain(keys@, keys@[1]@));
                assert(!single_output(operations@)) by {
                    if single_output(operations@) {
                        let k = choose|k: Seq<u8>|
                            output_assets(operations@).contains(k) && (forall|k2: Seq<u8>|
                                output_assets(operations@).contains(k2) ==> k2 == k);
                        assert(output_assets(operations@).contains(keys@[0]@));
                        assert(output_assets(operations@).contains(keys@[1]@));
                    }
                }
            }
        }
        Err(ContractError::ValidationError)
    }
}

/// The router's configuration: the registry it resolves pairs through.
pub struct Config {
    pub factory: String,
}

pub fn instantiate(factory: String) -> (r: Config)
    ensures
        r.factory@ == factory@,
{
    Config { factory }
}

pub struct ConfigResponse {
    pub factory: String,
}

pub fn query_config(config: &Config) -> (r: ConfigResponse)
    ensures
        r.factory@ == config.factory@,
{
    ConfigResponse { factory: config.factory.clone() }
}

/// A follow-up message the router sends to itself while unrolling a
/// route.
pub enum RouterMsg {
    /// Execute one leg; only the final leg names the ultimate recipient.
    ExecuteSwapOperation { operation: SwapOperation, to: Option<String> },
    /// After all legs, check what the recipient actually gained.
    AssertMinimumReceive {
        asset_info: AssetInfo,
        prev_balance: u128,
        minimum_receive: u128,
        receiver: String,
    },
}

pub enum RouterMsgView {
    ExecuteSwapOperation { operation: SwapOperationView, to: Option<Seq<char>> },
    AssertMinimumReceive {
        asset_info: AssetInfoView,
        prev_balance: int,
        minimum_receive: int,
        receiver: Seq<char>,
    },
}

impl View for RouterMsg {
    type V = RouterMsgView;

    open spec fn view(&self) -> RouterMsgView {
        match self {
            RouterMsg::ExecuteSwapOperation { operation, to } => {
                RouterMsgView::ExecuteSwapOperation {
                    operation: operation@,
                    to: match to {
                        Some(x) => Some(x@),
                        None => None,
                    },
                }
            },
            RouterMsg::AssertMinimumReceive {
                asset_info,
                prev_balance,
                minimum_receive,
                receiver,
            } => {
                RouterMsgView::AssertMinimumReceive {
                    asset_info: asset_info@,
                    prev_balance: *prev_balance as int,
                    minimum_receive: *minimum_receive as int,
                    receiver: receiver@,
                }
            },
        }
    }
}

/// Unroll a route into self-addressed step messages: one per leg, the
/// final leg addressed to the recipient, plus a minimum-receive check
/// when one was asked for. `receiver_balance` is the recipient's balance
/// of the route's target asset, snapshot before any step runs.
pub fn execute_swap_operations(
    sender: String,
    operations: &Vec<SwapOperation>,
    minimum_receive: Option<u128>,
    to: Option<String>,
    receiver_balance: u128,
) -> (r: Result<Vec<RouterMsg>, ContractError>)
    ensures
        operations@.len() == 0 ==> r == Err::<Vec<RouterMsg>, ContractError>(
            ContractError::ValidationError,
        ),
        operations@.len() > MAX_SWAP_OPERATIONS ==> r == Err::<Vec<RouterMsg>, ContractError>(
            ContractError::ValidationError,
        ),
        0 < operations@.len() <= MAX_SWAP_OPERATIONS && !single_output(operations@) ==> r
            == Err::<Vec<RouterMsg>, ContractError>(ContractError::ValidationError),
        0 < operations@.len() <= MAX_SWAP_OPERATIONS && single_output(operations@) ==> (
        r matches Ok(msgs) && {
            let n = operations@.len() as int;
            let recipient = match to {
                Some(x) => x@,
                None => sender@,
            };
            &&& msgs@.len() == n + (if minimum_receive is Some {
                1int
            } else {
                0int
            })
            &&& forall|i: int|
                0 <= i < n ==> #[trigger] msgs@[i]@ == (RouterMsgView::ExecuteSwapOperation {
                    operation: operations@[i]@,
                    to: if i == n - 1 {
                        Some(recipient)
                    } else {
                        None
                    },
                })
            &&& (minimum_receive matches Some(m) ==> msgs@[n]@ == (
            RouterMsgView::AssertMinimumReceive {
                asset_info: operations@[n - 1]@.target(),
                prev_balance: receiver_balance as int,
                minimum_receive: m as int,
                receiver: recipient,
            }))
        }),
{
    let n: usize = operations.len();
    if n == 0 {
        return Err(ContractError::ValidationError);
    }
    if n > MAX_SWAP_OPERATIONS {
        return Err(ContractError::ValidationError);
    }
    match assert_operations(operations) {
        Err(e) => {
            return Err(e);
        },
        Ok(()) => {},
    }
    let recipient: String = match to {
        Some(x) => x,
        None => sender,
    };
    let mut msgs: Vec<RouterMsg> = Vec::new();
    let mut i: usize = 0;
    while i < n
        invariant
            0 <= i <= n,
            n == operations@.len(),
            msgs@.len() == i,
            forall|j: int|
                0 <= j < i ==> #[trigger] msgs@[j]@ == (RouterMsgView::ExecuteSwapOperation {
                    operation: operations@[j]@,
                    to: if j == n - 1 {
                        Some(recipient@)
                    } else {
                        None
                    },
                }),
        decreases n - i,
    {
        let step_to: Option<String> = if i + 1 == n {
            Some(recipient.clone())
        } else {
            None
        };
        msgs.push(RouterMsg::ExecuteSwapOperation { operation: operations[i].clone(), to: step_to });
        i = i + 1;
    }
    if let Some(m) = minimum_receive {
        let target = operations[n - 1].get_target_asset_info();
        msgs.push(
            RouterMsg::AssertMinimumReceive {
                asset_info: target,
                prev_balance: receiver_balance,
                minimum_receive: m,
                receiver: recipient,
            },
        );
    }
    Ok(msgs)
}

/// The action one route step asks the host to perform.
pub enum StepAction {
    /// Exchange the router's whole balance of the offered denomination
    /// through the native market, optionally delivering to a recipient.
    NativeSwap { offer: Coin, ask_denom: String, recipient: Option<String> },
    /// Swap the router's whole balance of the offered asset against the
    /// resolved pair.
    PairSwap { pair: String, offer_asset: Asset, to: Option<String> },
}

pub enum StepActionView {
    NativeSwap { offer: CoinValue, ask_denom: Seq<char>, recipient: Option<Seq<char>> },
    PairSwap { pair: Seq<char>, offer_asset: AssetValue, to: Option<Seq<char>> },
}

impl View for StepAction {
    type V = StepActionView;

    open spec fn view(&self) -> StepActionView {
        match self {
            StepAction::NativeSwap { offer, ask_denom, recipient } => {
                StepActionView::NativeSwap {
                    offer: offer@,
                    ask_denom: ask_denom@,
                    recipient: match recipient {
                        Some(x) => Some(x@),
                        None => None,
                    },
                }
            },
            StepAction::PairSwap { pair, offer_asset, to } => {
                StepActionView::PairSwap {
                    pair: pair@,
                    offer_asset: offer_asset@,
                    to: match to {
                        Some(x) => Some(x@),
                        None => None,
                    },
                }
            },
        }
    }
}

/// Execute one leg of a route. Only the router itself may call this; the
/// leg forwards the router's entire current balance of the offered asset
/// — `balance` — either through the native exchange or to the pair
/// resolved for the two assets, `pair_addr`.
pub fn execute_swap_operation(
    self_addr: &String,
    caller: &String,
    operation: &SwapOperation,
    to: Option<String>,
    balance: u128,
    pair_addr: &String,
) -> (r: Result<StepAction, ContractError>)
    ensures
        caller@ != self_addr@ ==> r == Err::<StepAction, ContractError>(
            ContractError::PermissionDenied,
        ),
        caller@ == self_addr@ ==> (r matches Ok(action) && action@ == (match operation@ {
            SwapOperationView::NativeSwap { offer_denom, ask_denom } => {
                StepActionView::NativeSwap {
                    offer: CoinValue { denom: offer_denom, amount: balance as int },
                    ask_denom,
                    recipient: match to {
                        Some(x) => Some(x@),
                        None => None,
                    },
                }
            },
            SwapOperationView::PrismSwap { offer_asset_info, .. } => {
                StepActionView::PairSwap {
                    pair: pair_addr@,
                    offer_asset: AssetValue { info: offer_asset_info, amount: balance as int },
                    to: match to {
                        Some(x) => Some(x@),
                        None => None,
                    },
                }
            },
        })),
{
    if !(*caller == *self_addr) {
        return Err(ContractError::PermissionDenied);
    }
    match operation {
        SwapOperation::NativeSwap { offer_denom, ask_denom } => Ok(
            StepAction::NativeSwap {
                offer: Coin { denom: offer_denom.clone(), amount: balance },
                ask_denom: ask_denom.clone(),
                recipient: to,
            },
        ),
        SwapOperation::PrismSwap { offer_asset_info, .. } => Ok(
            StepAction::PairSwap {
                pair: pair_addr.clone(),
                offer_asset: Asset { info: offer_asset_info.clone(), amount: balance },
                to,
            },
        ),
    }
}

/// The final route step: the recipient must have gained at least the
/// declared minimum since the pre-route snapshot.
pub fn assert_minimum_receive(
    prev_balance: u128,
    minimum_receive: u128,
    receiver_balance: u128,
) -> (r: Result<(), ContractError>)
    ensures
        receiver_balance < prev_balance ==> r == Err::<(), ContractError>(
            ContractError::ArithmeticError,
        ),
        receiver_balance >= prev_balance && receiver_balance - prev_balance < minimum_receive
            ==> r == Err::<(), ContractError>(
            ContractError::MinimumReceiveNotMet {
                minimum_receive,
                swap_amount: (receiver_balance - prev_balance) as u128,
            },
        ),
        receiver_balance >= prev_balance && receiver_balance - prev_balance >= minimum_receive
            ==> r == Ok::<(), ContractError>(()),
{
    if receiver_balance < prev_balance {
        return Err(ContractError::ArithmeticError);
    }
    let swap_amount = receiver_balance - prev_balance;
    if swap_amount < minimum_receive {
        return Err(
            ContractError::MinimumReceiveNotMet { minimum_receive, swap_amount },
        );
    }
    Ok(())
}

/// Thread a simulated amount through a route: each leg's output — as the
/// queried exchange or pair reported it in `step_returns` — feeds the
/// next leg, and the last one is the route's answer.
pub fn simulate_swap_operations(
    offer_amount: u128,
    operations: &Vec<SwapOperation>,
    step_returns: &Vec<u128>,
) -> (r: Result<u128, ContractError>)
    requires
        step_returns@.len() == operations@.len(),
    ensures
        operations@.len() == 0 ==> r == Err::<u128, ContractError>(
            ContractError::ValidationError,
        ),
        operations@.len() > MAX_SWAP_OPERATIONS ==> r == Err::<u128, ContractError>(
            ContractError::ValidationError,
        ),
        0 < operations@.len() <= MAX_SWAP_OPERATIONS ==> r == Ok::<u128, ContractError>(
            step_returns@[operations@.len() - 1],
        ),
{
    let n: usize = operations.len();
    if n == 0 {
        return Err(ContractError::ValidationError);
    }
    if n > MAX_SWAP_OPERATIONS {
        return Err(ContractError::ValidationError);
    }
    let mut amount: u128 = offer_amount;
    let mut i: usize = 0;
    while i < n
        invariant
            0 < n == step_returns@.len(),
            0 <= i <= n,
            i > 0 ==> amount == step_returns@[i - 1],
        decreases n - i,
    {
        amount = step_returns[i];
        i = i + 1;
    }
    Ok(amount)
}

} // verus!
