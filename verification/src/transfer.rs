//! Composing a transfer: ordering the spendable outputs, picking inputs to
//! cover the payment, and working out the bitcoin and asset change.

use vstd::prelude::*;

use crate::cache::{CacheError, FileDriver};
use crate::ids::{AssetId, ContractId, Hash32, OutPoint};
use crate::unspent::{bitcoin_only, unspent_of};
use crate::utxo::{utxos_view, Utxo, UtxoV};

verus! {

broadcast use vstd::seq_lib::group_to_multiset_ensures;

/// Sum of the amounts of a list of outputs.
pub open spec fn total_value(s: Seq<UtxoV>) -> int
    decreases s.len(),
{
    if s.len() == 0 {
        0
    } else {
        total_value(s.drop_last()) + s.last().value
    }
}

/// Amounts do not increase along the list.
pub open spec fn sorted_desc(s: Seq<UtxoV>) -> bool {
    forall|i: int, j: int| 0 <= i < j < s.len() ==> #[trigger] s[i].value >= #[trigger] s[j].value
}

/// Picking inputs from `coins`, in their order, until their amounts reach
/// `target`: outputs with a zero amount are skipped, and the first output met
/// once the target is reached is where the change goes. Gives the picked
/// outputs, their total amount and the change outpoint.
pub open spec fn select_spec(coins: Seq<UtxoV>, target: int) -> (Seq<UtxoV>, int, Option<OutPoint>)
    decreases coins.len(),
{
    if coins.len() == 0 {
        (Seq::empty(), 0, None)
    } else {
        let (sel, amount, change) = select_spec(coins.drop_last(), target);
        let c = coins.last();
        if amount >= target {
            (sel, amount, if change is None { Some(c.outpoint()) } else { change })
        } else if c.value == 0 {
            (sel, amount, change)
        } else {
            (sel.push(c), amount + c.value, change)
        }
    }
}

/// Total amount of the outputs of `pool` whose outpoint is among those of
/// `picked`.
pub open spec fn amount_spent(pool: Seq<UtxoV>, picked: Seq<UtxoV>) -> int
    decreases pool.len(),
{
    if pool.len() == 0 {
        0
    } else {
        amount_spent(pool.drop_last(), picked) + if exists|k: int|
            0 <= k < picked.len() && #[trigger] picked[k].outpoint() == pool.last().outpoint() {
            pool.last().value as int
        } else {
            0
        }
    }
}

proof fn lemma_total_prefix(s: Seq<UtxoV>, n: int)
    requires
        0 <= n <= s.len(),
    ensures
        0 <= total_value(s.take(n)) <= total_value(s),
    decreases s.len(),
{
    if n == s.len() {
        assert(s.take(n) =~= s);
        lemma_total_nonneg(s);
    } else {
        lemma_total_prefix(s.drop_last(), n);
        assert(s.drop_last().take(n) =~= s.take(n));
    }
}

proof fn lemma_total_nonneg(s: Seq<UtxoV>)
    ensures
        total_value(s) >= 0,
    decreases s.len(),
{
    if s.len() > 0 {
        lemma_total_nonneg(s.drop_last());
    }
}

proof fn lemma_select_bounded(coins: Seq<UtxoV>, target: int)
    ensures
        0 <= select_spec(coins, target).1 <= total_value(coins),
        select_spec(coins, target).0.len() <= coins.len(),
    decreases coins.len(),
{
    if coins.len() > 0 {
        lemma_select_bounded(coins.drop_last(), target);
    }
}

proof fn lemma_amount_spent_prefix(pool: Seq<UtxoV>, picked: Seq<UtxoV>, n: int)
    requires
        0 <= n <= pool.len(),
    ensures
        0 <= amount_spent(pool.take(n), picked) <= amount_spent(pool, picked),
    decreases pool.len(),
{
    if n == pool.len() {
        assert(pool.take(n) =~= pool);
        lemma_amount_spent_nonneg(pool, picked);
    } else {
        lemma_amount_spent_prefix(pool.drop_last(), picked, n);
        assert(pool.drop_last().take(n) =~= pool.take(n));
    }
}

proof fn lemma_amount_spent_nonneg(pool: Seq<UtxoV>, picked: Seq<UtxoV>)
    ensures
        amount_spent(pool, picked) >= 0,
    decreases pool.len(),
{
    if pool.len() > 0 {
        lemma_amount_spent_nonneg(pool.drop_last(), picked);
    }
}

/// Orders outputs by decreasing amount; among outputs of equal amount, a
/// later one comes first.
pub fn sort_by_value_desc(coins: Vec<Utxo>) -> (r: Vec<Utxo>)
    ensures
        sorted_desc(utxos_view(r@)),
        utxos_view(r@).to_multiset() == utxos_view(coins@).to_multiset(),
{
    let mut r: Vec<Utxo> = Vec::new();
    let mut i: usize = 0;
    while i < coins.len()
        invariant
            i <= coins@.len(),
            sorted_desc(utxos_view(r@)),
            utxos_view(r@).to_multiset() == utxos_view(coins@).take(i as int).to_multiset(),
        decreases coins@.len() - i,
    {
        let c = coins[i].clone();
        let mut k: usize = 0;
        while k < r.len() && r[k].value > c.value
            invariant
                k <= r@.len(),
                forall|m: int| 0 <= m < k ==> r@[m].value > c.value,
            decreases r@.len() - k,
        {
            k = k + 1;
        }
        let ghost before = r@;
        r.insert(k, c);
        proof {
            assert(utxos_view(coins@).take(i + 1) =~= utxos_view(coins@).take(i as int).push(c@));
            assert(utxos_view(r@) =~= utxos_view(before).insert(k as int, c@));
            vstd::seq_lib::to_multiset_insert(utxos_view(before), k as int, c@);
            vstd::seq_lib::to_multiset_build(utxos_view(coins@).take(i as int), c@);
            assert forall|a: int, b: int| 0 <= a < b < r@.len() implies #[trigger] utxos_view(r@)[a].value
                >= #[trigger] utxos_view(r@)[b].value by {
                assert(utxos_view(r@)[a] == r@[a]@);
                assert(utxos_view(r@)[b] == r@[b]@);
                if a < k && b > k {
                    assert(r@[a] == before[a]);
                    assert(r@[b] == before[b - 1]);
                } else if a < k && b == k {
                } else if a == k && b > k {
                    assert(r@[b] == before[b - 1]);
                    assert(utxos_view(before)[k as int].value >= utxos_view(before)[b - 1].value);
                } else if a > k {
                    assert(r@[a] == before[a - 1]);
                    assert(r@[b] == before[b - 1]);
                    assert(utxos_view(before)[a - 1].value >= utxos_view(before)[b - 1].value);
                } else {
                    assert(utxos_view(before)[a].value >= utxos_view(before)[b].value);
                }
            }
        }
        i = i + 1;
    }
    assert(utxos_view(coins@).take(i as int) =~= utxos_view(coins@));
    r
}

/// The inputs picked to pay an amount.
pub struct CoinSelection {
    /// The picked outputs, in the order they were met.
    pub selected: Vec<Utxo>,
    /// Their total amount.
    pub input_amount: u64,
    /// The first output met once the amount was covered: where the asset
    /// change is sent.
    pub change_outpoint: Option<OutPoint>,
}

/// Picks inputs from `coins`, in their order, until their amounts reach
/// `asset_value + asset_fee` (see `select_spec`).
pub fn select_coins(coins: &Vec<Utxo>, asset_value: u64, asset_fee: u64) -> (r: CoinSelection)
    requires
        asset_value + asset_fee <= u64::MAX,
        total_value(utxos_view(coins@)) <= u64::MAX,
    ensures
        ({
            let (sel, amount, change) = select_spec(utxos_view(coins@), asset_value + asset_fee);
            &&& utxos_view(r.selected@) == sel
            &&& r.input_amount == amount
            &&& r.change_outpoint == change
        }),
{
    let target = asset_value + asset_fee;
    let ghost s = utxos_view(coins@);
    let mut selected: Vec<Utxo> = Vec::new();
    let mut amount: u64 = 0;
    let mut change: Option<OutPoint> = None;
    let mut i: usize = 0;
    while i < coins.len()
        invariant
            i <= coins@.len(),
            s == utxos_view(coins@),
            target == asset_value + asset_fee,
            total_value(s) <= u64::MAX,
            select_spec(s.take(i as int), target as int) == (utxos_view(selected@), amount as int, change),
        decreases coins@.len() - i,
    {
        let c = &coins[i];
        proof {
            assert(s.take(i + 1).drop_last() =~= s.take(i as int));
            assert(s.take(i + 1).last() == c@);
            lemma_select_bounded(s.take(i + 1), target as int);
            lemma_total_prefix(s, i + 1);
        }
        if amount >= target {
            if change.is_none() {
                change = Some(c.outpoint());
            }
        } else if c.value != 0 {
            amount = amount + c.value;
            selected.push(c.clone());
            assert(utxos_view(selected@) =~= utxos_view(selected@).drop_last().push(c@));
        }
        proof {
            assert(utxos_view(selected@) =~= select_spec(s.take(i + 1), target as int).0);
        }
        i = i + 1;
    }
    assert(s.take(i as int) =~= s);
    CoinSelection { selected, input_amount: amount, change_outpoint: change }
}

/// Sum of the amounts of a list of outputs.
pub fn total_amount(coins: &Vec<Utxo>) -> (r: u64)
    requires
        total_value(utxos_view(coins@)) <= u64::MAX,
    ensures
        r == total_value(utxos_view(coins@)),
{
    let ghost s = utxos_view(coins@);
    let mut sum: u64 = 0;
    let mut i: usize = 0;
    while i < coins.len()
        invariant
            i <= coins@.len(),
            s == utxos_view(coins@),
            total_value(s) <= u64::MAX,
            sum == total_value(s.take(i as int)),
        decreases coins@.len() - i,
    {
        proof {
            assert(s.take(i + 1).drop_last() =~= s.take(i as int));
            lemma_total_prefix(s, i + 1);
        }
        sum = sum + coins[i].value;
        i = i + 1;
    }
    assert(s.take(i as int) =~= s);
    sum
}

/// Whether an output of `picked` is at `o`.
fn picks_outpoint(picked: &Vec<Utxo>, o: OutPoint) -> (r: bool)
    ensures
        r == exists|k: int| 0 <= k < picked@.len() && #[trigger] utxos_view(picked@)[k].outpoint() == o,
{
    let mut k: usize = 0;
    while k < picked.len()
        invariant
            k <= picked@.len(),
            forall|m: int| 0 <= m < k ==> #[trigger] utxos_view(picked@)[m].outpoint() != o,
        decreases picked@.len() - k,
    {
        if picked[k].outpoint() == o {
            assert(utxos_view(picked@)[k as int].outpoint() == o);
            return true;
        }
        k = k + 1;
    }
    false
}

/// Total bitcoin amount of the outputs of `pool` spent by `picked`.
pub fn spent_amount(pool: &Vec<Utxo>, picked: &Vec<Utxo>) -> (r: u64)
    requires
        amount_spent(utxos_view(pool@), utxos_view(picked@)) <= u64::MAX,
    ensures
        r == amount_spent(utxos_view(pool@), utxos_view(picked@)),
{
    let ghost s = utxos_view(pool@);
    let ghost p = utxos_view(picked@);
    let mut sum: u64 = 0;
    let mut i: usize = 0;
    while i < pool.len()
        invariant
            i <= pool@.len(),
            s == utxos_view(pool@),
            p == utxos_view(picked@),
            amount_spent(s, p) <= u64::MAX,
            sum == amount_spent(s.take(i as int), p),
        decreases pool@.len() - i,
    {
        proof {
            assert(s.take(i + 1).drop_last() =~= s.take(i as int));
            assert(s.take(i + 1).last() == pool@[i as int]@);
            lemma_amount_spent_prefix(s, p, i + 1);
        }
        if picks_outpoint(picked, pool[i].outpoint()) {
            sum = sum + pool[i].value;
        }
        i = i + 1;
    }
    assert(s.take(i as int) =~= s);
    sum
}

/// The outputs a transfer may spend: those of the asset for an asset
/// transfer; for a bitcoin payment, the bitcoin outputs that hold no asset.
pub fn spendable_coins(driver: &FileDriver, pay_from: ContractId, asset: Option<AssetId>) -> (r:
    Result<Vec<Utxo>, CacheError>)
    requires
        driver.wf(),
    ensures
        match r {
            Ok(v) => utxos_view(v@) == match asset {
                Some(a) => if unspent_of(*driver, pay_from).contains_key(a) {
                    unspent_of(*driver, pay_from)[a]
                } else {
                    Seq::empty()
                },
                None => bitcoin_only(unspent_of(*driver, pay_from)),
            },
            Err(_) => false,
        },
{
    match asset {
        Some(a) => {
            let m = match driver.unspent(pay_from) {
                Ok(m) => m,
                Err(e) => return Err(e),
            };
            match m.get(&a) {
                Some(v) => Ok(crate::utxo::clone_utxos(v)),
                None => {
                    let v: Vec<Utxo> = Vec::new();
                    assert(utxos_view(v@) =~= Seq::<UtxoV>::empty());
                    Ok(v)
                },
            }
        },
        None => driver.unspent_bitcoin_only(pay_from),
    }
}

/// Who receives a payment.
#[derive(Clone, Copy, PartialEq, Eq, Structural, Debug)]
pub enum PaymentReceiver {
    /// A bitcoin payment to an output descriptor.
    Bitcoin,
    /// An asset payment to a new output described by a descriptor, carrying
    /// the given bitcoin amount along.
    AssetToDescriptor { giveaway: u64 },
    /// An asset payment to an existing blinded output of the receiver.
    AssetToBlindUtxo,
}

/// The receiver of an asset transfer.
pub enum RgbReceiver {
    /// An existing blinded outpoint of the receiver.
    BlindUtxo(Hash32),
    /// A new output described by a descriptor, carrying `giveaway` bitcoin.
    Descriptor { descriptor: String, giveaway: u64 },
}

/// What a transfer pays: bitcoin to a descriptor, or an asset.
pub enum TransferInfo {
    Bitcoin(String),
    Rgb { contract_id: AssetId, receiver: RgbReceiver },
}

/// Who receives a payment, as the payment plan needs it.
pub open spec fn receiver_of(t: TransferInfo) -> PaymentReceiver {
    match t {
        TransferInfo::Bitcoin(_) => PaymentReceiver::Bitcoin,
        TransferInfo::Rgb { receiver: RgbReceiver::BlindUtxo(_), .. } => PaymentReceiver::AssetToBlindUtxo,
        TransferInfo::Rgb { receiver: RgbReceiver::Descriptor { giveaway, .. }, .. } => PaymentReceiver::AssetToDescriptor { giveaway },
    }
}

impl TransferInfo {
    /// The asset paid (the zero id for bitcoin).
    pub fn contract_id(&self) -> (r: AssetId)
        ensures
            r == match *self {
                TransferInfo::Bitcoin(_) => Hash32::spec_zero(),
                TransferInfo::Rgb { contract_id, .. } => contract_id,
            },
    {
        match self {
            TransferInfo::Bitcoin(_) => Hash32::zero(),
            TransferInfo::Rgb { contract_id, .. } => *contract_id,
        }
    }

    /// The descriptor a bitcoin payment goes to.
    pub fn bitcoin_descriptor(&self) -> (r: Option<String>)
        ensures
            match *self {
                TransferInfo::Bitcoin(d) => r matches Some(x) && x@ == d@,
                TransferInfo::Rgb { .. } => r is None,
            },
    {
        match self {
            TransferInfo::Bitcoin(d) => Some(d.clone()),
            TransferInfo::Rgb { .. } => None,
        }
    }

    /// The descriptor an asset payment to a new output goes to.
    pub fn rgb_descriptor(&self) -> (r: Option<String>)
        ensures
            match *self {
                TransferInfo::Rgb { receiver: RgbReceiver::Descriptor { descriptor, .. }, .. } => r matches Some(x) && x@ == descriptor@,
                _ => r is None,
            },
    {
        match self {
            TransferInfo::Rgb { receiver: RgbReceiver::Descriptor { descriptor, .. }, .. } => Some(descriptor.clone()),
            _ => None,
        }
    }

    pub fn is_rgb(&self) -> (r: bool)
        ensures
            r == (*self is Rgb),
    {
        match self {
            TransferInfo::Bitcoin(_) => false,
            TransferInfo::Rgb { .. } => true,
        }
    }

    /// Who receives the payment, as the payment plan needs it.
    pub fn receiver(&self) -> (r: PaymentReceiver)
        ensures
            r == receiver_of(*self),
    {
        match self {
            TransferInfo::Bitcoin(_) => PaymentReceiver::Bitcoin,
            TransferInfo::Rgb { receiver: RgbReceiver::BlindUtxo(_), .. } => PaymentReceiver::AssetToBlindUtxo,
            TransferInfo::Rgb { receiver: RgbReceiver::Descriptor { giveaway, .. }, .. } => PaymentReceiver::AssetToDescriptor { giveaway: *giveaway },
        }
    }
}

/// Where the asset change is assigned.
#[derive(Clone, Copy, PartialEq, Eq, Structural, Debug)]
pub enum ChangeSeal {
    /// An existing output of the payer.
    Outpoint(OutPoint),
    /// An output of the transfer transaction itself.
    WitnessVout(u32),
}

/// Why a transfer cannot be composed.
#[derive(Clone, Copy, PartialEq, Eq, Structural, Debug)]
pub enum TransferError {
    /// The spendable outputs do not cover the amount; `asset` tells whether
    /// an asset was paid.
    InsufficientFunds { asset: bool },
    /// No output can take the asset change.
    CantAllocateRgbChange,
}

/// The message the node replies with when a transfer cannot be composed.
pub open spec fn transfer_error_text(e: TransferError) -> Seq<char> {
    match e {
        TransferError::InsufficientFunds { asset } => if asset {
            "Insufficient funds"@
        } else {
            "Insufficient funds on bitcoin outputs which do not have RGB assets on them"@
        },
        TransferError::CantAllocateRgbChange => "Can't allocate RGB change"@,
    }
}

impl TransferError {
    /// The message the node replies with.
    pub fn message(&self) -> (r: String)
        ensures
            r@ == transfer_error_text(*self),
    {
        match self {
            TransferError::InsufficientFunds { asset } => {
                if *asset {
                    let s = String::from_str("Insufficient funds");
                    proof {
                        reveal_strlit("Insufficient funds");
                    }
                    s
                } else {
                    let s = String::from_str(
                        "Insufficient funds on bitcoin outputs which do not have RGB assets on them",
                    );
                    proof {
                        reveal_strlit(
                            "Insufficient funds on bitcoin outputs which do not have RGB assets on them",
                        );
                    }
                    s
                }
            },
            TransferError::CantAllocateRgbChange => {
                let s = String::from_str("Can't allocate RGB change");
                proof {
                    reveal_strlit("Can't allocate RGB change");
                }
                s
            },
        }
    }
}

/// The amounts and outputs of a transfer, before its transaction is built.
pub struct TransferPlan {
    /// The inputs.
    pub selected: Vec<Utxo>,
    /// Total amount of the spendable outputs before the transfer.
    pub balance_before: u64,
    /// Total amount of the paid asset (bitcoin for a bitcoin payment) in
    /// the inputs.
    pub asset_input_amount: u64,
    /// Bitcoin sent to the receiver's output (the payment itself, or the
    /// giveaway of an asset payment to a descriptor).
    pub bitcoin_value: u64,
    /// The giveaway of an asset payment to a descriptor.
    pub bitcoin_giveaway: Option<u64>,
    /// Number of outputs paying the receiver (0 or 1); the change output, if
    /// any, follows them.
    pub payment_outputs: u32,
    /// Total bitcoin amount of the inputs.
    pub bitcoin_input_amount: u64,
    /// Bitcoin change, when a change output is needed.
    pub bitcoin_change: Option<u64>,
    /// Asset change and where it goes, for an asset payment leaving change.
    pub asset_change: Option<(ChangeSeal, u64)>,
}

/// A transfer plan as the tuple `plan_spec` describes: inputs, balance
/// before, asset input amount, bitcoin sent, giveaway, payment outputs,
/// bitcoin input amount, bitcoin change and asset change.
pub open spec fn plan_view(p: TransferPlan) -> (Seq<UtxoV>, int, int, int, Option<u64>, int, int, Option<int>, Option<(ChangeSeal, int)>) {
    (
        utxos_view(p.selected@),
        p.balance_before as int,
        p.asset_input_amount as int,
        p.bitcoin_value as int,
        p.bitcoin_giveaway,
        p.payment_outputs as int,
        p.bitcoin_input_amount as int,
        match p.bitcoin_change {
            Some(c) => Some(c as int),
            None => None,
        },
        match p.asset_change {
            Some((s, c)) => Some((s, c as int)),
            None => None,
        },
    )
}

/// The plan `compose_plan` gives for coins `coins` (already ordered),
/// bitcoin outputs `btc`, and the request.
pub open spec fn plan_spec(
    receiver: PaymentReceiver,
    coins: Seq<UtxoV>,
    btc: Seq<UtxoV>,
    asset_value: u64,
    bitcoin_fee: u64,
) -> Result<
    (Seq<UtxoV>, int, int, int, Option<u64>, int, int, Option<int>, Option<(ChangeSeal, int)>),
    TransferError,
> {
    let is_asset = !(receiver is Bitcoin);
    let asset_fee: int = if is_asset { 0 } else { bitcoin_fee as int };
    let (sel, amount, change_outpoint) = select_spec(coins, asset_value + asset_fee);
    let (bitcoin_value, giveaway, outs): (int, Option<u64>, int) = match receiver {
        PaymentReceiver::Bitcoin => (asset_value as int, None, 1),
        PaymentReceiver::AssetToDescriptor { giveaway } => (giveaway as int, Some(giveaway), 1),
        PaymentReceiver::AssetToBlindUtxo => (0, None, 0),
    };
    let btc_in = amount_spent(btc, sel);
    let btc_change: Option<int> = if btc_in > bitcoin_value + bitcoin_fee {
        Some(btc_in - bitcoin_value - bitcoin_fee)
    } else {
        None
    };
    if amount < asset_value + asset_fee {
        Err(TransferError::InsufficientFunds { asset: is_asset })
    } else if amount > asset_value && is_asset && change_outpoint is None && btc_change is None {
        Err(TransferError::CantAllocateRgbChange)
    } else {
        let asset_change: Option<(ChangeSeal, int)> = if amount > asset_value && is_asset {
            Some(
                (
                    match change_outpoint {
                        Some(o) => ChangeSeal::Outpoint(o),
                        None => ChangeSeal::WitnessVout(outs as u32),
                    },
                    amount - asset_value,
                ),
            )
        } else {
            None
        };
        Ok((sel, total_value(coins), amount, bitcoin_value, giveaway, outs, btc_in, btc_change, asset_change))
    }
}

/// Works out the inputs and the change of a transfer paying `asset_value`
/// (of the asset, or of bitcoin for a bitcoin payment) plus `bitcoin_fee`,
/// from the spendable outputs `coins` (see `spendable_coins`), `btc` being
/// all the bitcoin outputs of the payer.
pub fn compose_plan(
    receiver: PaymentReceiver,
    coins: Vec<Utxo>,
    btc: &Vec<Utxo>,
    asset_value: u64,
    bitcoin_fee: u64,
) -> (r: Result<TransferPlan, TransferError>)
    requires
        asset_value + bitcoin_fee <= u64::MAX,
        total_value(utxos_view(coins@)) <= u64::MAX,
        total_value(utxos_view(btc@)) <= u64::MAX,
        receiver matches PaymentReceiver::AssetToDescriptor { giveaway } ==> giveaway + bitcoin_fee
            <= u64::MAX,
    ensures
        ({
            let sorted = utxos_view(coins@);
            match r {
                Ok(p) => exists|ordered: Seq<UtxoV>| {
                    &&& sorted_desc(ordered)
                    &&& ordered.to_multiset() == sorted.to_multiset()
                    &&& plan_spec(receiver, ordered, utxos_view(btc@), asset_value, bitcoin_fee) == Ok::<
                        (Seq<UtxoV>, int, int, int, Option<u64>, int, int, Option<int>, Option<(ChangeSeal, int)>),
                        TransferError,
                    >(plan_view(p))
                },
                Err(e) => exists|ordered: Seq<UtxoV>| {
                    &&& sorted_desc(ordered)
                    &&& ordered.to_multiset() == sorted.to_multiset()
                    &&& plan_spec(receiver, ordered, utxos_view(btc@), asset_value, bitcoin_fee) == Err::<
                        (Seq<UtxoV>, int, int, int, Option<u64>, int, int, Option<int>, Option<(ChangeSeal, int)>),
                        TransferError,
                    >(e)
                },
            }
        }),
        r matches Ok(p) ==> (p.asset_change matches Some((ChangeSeal::WitnessVout(v), _)) ==> {
            &&& v == (if receiver is AssetToBlindUtxo {
                0u32
            } else {
                1u32
            })
            &&& v == p.payment_outputs
            &&& p.bitcoin_change is Some
        }),
{
    let ghost orig = utxos_view(coins@);
    let ordered = sort_by_value_desc(coins);
    let ghost o = utxos_view(ordered@);
    proof {
        lemma_total_multiset(o, orig);
    }
    let is_asset = match receiver {
        PaymentReceiver::Bitcoin => false,
        _ => true,
    };
    let asset_fee: u64 = if is_asset { 0 } else { bitcoin_fee };
    let balance_before = total_amount(&ordered);
    let sel = select_coins(&ordered, asset_value, asset_fee);
    let (bitcoin_value, giveaway, outs): (u64, Option<u64>, u32) = match receiver {
        PaymentReceiver::Bitcoin => (asset_value, None, 1),
        PaymentReceiver::AssetToDescriptor { giveaway } => (giveaway, Some(giveaway), 1),
        PaymentReceiver::AssetToBlindUtxo => (0, None, 0),
    };
    proof {
        lemma_amount_spent_bounded(utxos_view(btc@), utxos_view(sel.selected@));
    }
    let btc_in = spent_amount(btc, &sel.selected);
    let btc_change: Option<u64> = if btc_in > bitcoin_value + bitcoin_fee {
        Some(btc_in - bitcoin_value - bitcoin_fee)
    } else {
        None
    };
    if sel.input_amount < asset_value + asset_fee {
        return Err(TransferError::InsufficientFunds { asset: is_asset });
    }
    let asset_change: Option<(ChangeSeal, u64)> = if sel.input_amount > asset_value && is_asset {
        match sel.change_outpoint {
            Some(op) => Some((ChangeSeal::Outpoint(op), sel.input_amount - asset_value)),
            None => match btc_change {
                Some(_) => Some((ChangeSeal::WitnessVout(outs), sel.input_amount - asset_value)),
                None => {
                    return Err(TransferError::CantAllocateRgbChange);
                },
            },
        }
    } else {
        None
    };
    Ok(
        TransferPlan {
            selected: sel.selected,
            balance_before,
            asset_input_amount: sel.input_amount,
            bitcoin_value,
            bitcoin_giveaway: giveaway,
            payment_outputs: outs,
            bitcoin_input_amount: btc_in,
            bitcoin_change: btc_change,
            asset_change,
        },
    )
}

proof fn lemma_total_multiset(a: Seq<UtxoV>, b: Seq<UtxoV>)
    requires
        a.to_multiset() == b.to_multiset(),
    ensures
        total_value(a) == total_value(b),
    decreases a.len(),
{
    broadcast use vstd::seq_lib::group_seq_properties;
    broadcast use vstd::multiset::group_multiset_axioms;

    if a.len() == 0 {
        assert(b.len() == 0) by {
            vstd::seq_lib::to_multiset_len(a);
            vstd::seq_lib::to_multiset_len(b);
        }
    } else {
        let x = a.last();
        assert(a.to_multiset().count(x) > 0) by {
            vstd::seq_lib::to_multiset_contains(a, x);
            assert(a[a.len() - 1] == x);
        }
        vstd::seq_lib::to_multiset_contains(b, x);
        let j = choose|j: int| 0 <= j < b.len() && b[j] == x;
        vstd::seq_lib::to_multiset_remove(b, j);
        vstd::seq_lib::to_multiset_remove(a, a.len() - 1);
        assert(a.remove(a.len() - 1) =~= a.drop_last());
        lemma_total_multiset(a.drop_last(), b.remove(j));
        lemma_total_remove(b, j);
    }
}

proof fn lemma_total_remove(s: Seq<UtxoV>, j: int)
    requires
        0 <= j < s.len(),
    ensures
        total_value(s) == total_value(s.remove(j)) + s[j].value,
    decreases s.len(),
{
    if j == s.len() - 1 {
        assert(s.remove(j) =~= s.drop_last());
    } else {
        lemma_total_remove(s.drop_last(), j);
        assert(s.remove(j).drop_last() =~= s.drop_last().remove(j));
        assert(s.remove(j).last() == s.last());
    }
}

proof fn lemma_amount_spent_bounded(pool: Seq<UtxoV>, picked: Seq<UtxoV>)
    ensures
        0 <= amount_spent(pool, picked) <= total_value(pool),
    decreases pool.len(),
{
    if pool.len() > 0 {
        lemma_amount_spent_bounded(pool.drop_last(), picked);
    }
}

} // verus!
