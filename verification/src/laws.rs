//! Properties that hold across the operations of the wallet: what a read
//! gives back after a write, what a removal leaves, how a payment's inputs
//! cover it, and how a sync walks the derivation indexes.

use vstd::prelude::*;

use crate::addrmap::UNHARDENED_MAX;
use crate::bip21::{lemma_pieces_nonempty, pieces};
use crate::parse::is_digit;
use crate::roundtrip::{lemma_decimal, lemma_decimal_parses};
use crate::signer::{bip32_path, child_number_spec, child_text, path_text, HARDENED_BIT};
use crate::text::decimal;
use crate::cache::{is_next_unused, used_of, FileDriver as CacheDriver};
use crate::cli::{formatting_name, Formatting};
use crate::ids::{AssetId, ContractId, Hash32};
use crate::sync::{amounts_sum, asset_outputs, outputs_at};
use crate::model::Contract;
use crate::storage::only_changed;
use crate::transfer::{plan_spec, select_spec, total_value, ChangeSeal, PaymentReceiver};
use crate::utxo::UtxoV;

verus! {

/// After an address is registered at a derivation index, looking it up
/// gives that index, and the other addresses keep theirs.
pub proof fn law_registered_address_reads_back(
    before: CacheDriver,
    after: CacheDriver,
    c: ContractId,
    address: Seq<char>,
    index: u32,
    other: Seq<char>,
)
    requires
        used_of(after, c) == used_of(before, c).insert(address, index),
    ensures
        used_of(after, c).contains_key(address),
        used_of(after, c)[address] == index,
        other != address ==> (used_of(after, c).contains_key(other) == used_of(before, c).contains_key(other)
            && (used_of(before, c).contains_key(other) ==> used_of(after, c)[other] == used_of(before, c)[other])),
{
}

/// Registering an address again at the index it has changes nothing and
/// reports it as known.
pub proof fn law_registration_idempotent(before: CacheDriver, c: ContractId, address: Seq<char>, index: u32)
    requires
        used_of(before, c).contains_key(address),
        used_of(before, c)[address] == index,
    ensures
        used_of(before, c).insert(address, index) == used_of(before, c),
{
    assert(used_of(before, c).insert(address, index) =~= used_of(before, c));
}

/// After an address is forgotten, looking it up finds nothing.
pub proof fn law_forgotten_address_is_gone(before: CacheDriver, after: CacheDriver, c: ContractId, address: Seq<char>)
    requires
        used_of(after, c) == used_of(before, c).remove(address),
    ensures
        !used_of(after, c).contains_key(address),
        used_of(after, c).dom() == used_of(before, c).dom().remove(address),
{
}

/// A renamed contract is found under its id with the new name; every
/// other contract is as it was.
pub proof fn law_rename_reads_back(
    before: Map<ContractId, Contract>,
    after: Map<ContractId, Contract>,
    id: ContractId,
    name: Seq<char>,
    other: ContractId,
)
    requires
        before.contains_key(id),
        only_changed(before, after, id),
        after[id].name@ == name,
    ensures
        after.contains_key(id),
        after[id].name@ == name,
        other != id && before.contains_key(other) ==> after.contains_key(other) && after[other] == before[other],
{
}

/// A deleted contract is not found any more; the others stay.
pub proof fn law_deleted_contract_is_gone(
    before: Map<ContractId, Contract>,
    after: Map<ContractId, Contract>,
    id: ContractId,
    other: ContractId,
)
    requires
        after == before.remove(id),
    ensures
        !after.contains_key(id),
        other != id ==> after.contains_key(other) == before.contains_key(other),
{
}

proof fn lemma_select_total(coins: Seq<UtxoV>, target: int)
    ensures
        select_spec(coins, target).1 == total_value(select_spec(coins, target).0),
    decreases coins.len(),
{
    if coins.len() > 0 {
        lemma_select_total(coins.drop_last(), target);
        let (sel, amount, change) = select_spec(coins.drop_last(), target);
        let c = coins.last();
        if !(amount >= target) && c.value != 0 {
            assert(sel.push(c).drop_last() =~= sel);
        }
    }
}

/// The inputs of a composed payment hold together what they are said to,
/// and that covers the amount paid and, for a bitcoin payment, the fee.
pub proof fn law_inputs_cover_payment(
    receiver: PaymentReceiver,
    coins: Seq<UtxoV>,
    btc: Seq<UtxoV>,
    asset_value: u64,
    bitcoin_fee: u64,
)
    ensures
        plan_spec(receiver, coins, btc, asset_value, bitcoin_fee) matches Ok(p) ==> {
            &&& p.2 == total_value(p.0)
            &&& p.2 >= asset_value + if receiver is Bitcoin {
                bitcoin_fee as int
            } else {
                0
            }
        },
{
    let asset_fee: int = if receiver is Bitcoin { bitcoin_fee as int } else { 0 };
    lemma_select_total(coins, asset_value + asset_fee);
}

/// Each formatting is read back from its name.
pub proof fn law_formatting_name_reads_back(f: Formatting, g: Formatting)
    ensures
        formatting_name(f) == formatting_name(g) ==> f == g,
{
    reveal_strlit("id");
    reveal_strlit("compact");
    reveal_strlit("tab");
    reveal_strlit("csv");
    reveal_strlit("yaml");
    reveal_strlit("json");
    if formatting_name(f) == formatting_name(g) && f != g {
        assert(formatting_name(f).len() == formatting_name(g).len());
        assert(formatting_name(f)[0] == formatting_name(g)[0]);
    }
}

/// Coin selection takes no more than it needs: every picked output holds
/// some amount, and without the last (smallest, for coins in decreasing
/// order) one the picked outputs fall short of the target.
pub proof fn law_selection_is_minimal(coins: Seq<UtxoV>, target: int)
    ensures
        ({
            let (sel, amount, change) = select_spec(coins, target);
            &&& amount == total_value(sel)
            &&& forall|i: int| 0 <= i < sel.len() ==> (#[trigger] sel[i]).value > 0
            &&& sel.len() > 0 ==> amount - sel.last().value < target
        }),
    decreases coins.len(),
{
    lemma_select_total(coins, target);
    if coins.len() > 0 {
        law_selection_is_minimal(coins.drop_last(), target);
        let (sel, amount, change) = select_spec(coins.drop_last(), target);
        let c = coins.last();
        if !(amount >= target) && c.value != 0 {
            assert forall|i: int| 0 <= i < sel.push(c).len() implies (#[trigger] sel.push(c)[i]).value > 0 by {
                if i < sel.len() {
                    assert(sel.push(c)[i] == sel[i]);
                }
            }
        }
    }
}

/// The bitcoin of a composed payment's inputs pays the receiver, the fee
/// and the change exactly; with no change output, the inputs hold no more
/// than the payment and the fee.
pub proof fn law_inputs_pay_outputs_and_fee(
    receiver: PaymentReceiver,
    coins: Seq<UtxoV>,
    btc: Seq<UtxoV>,
    asset_value: u64,
    bitcoin_fee: u64,
)
    ensures
        plan_spec(receiver, coins, btc, asset_value, bitcoin_fee) matches Ok(p) ==> {
            &&& (p.7 matches Some(change) ==> p.6 == p.3 + bitcoin_fee + change && change > 0)
            &&& (p.7 is None ==> p.6 <= p.3 + bitcoin_fee)
        },
{
}

/// Once the next unused derivation index is registered as used, the next
/// unused index is the one after it: addresses handed out for payments and
/// change do not repeat, as long as no used index is the largest
/// unhardened one.
pub proof fn law_next_index_advances(used: Map<Seq<char>, u32>, address: Seq<char>, i: u32, j: u32)
    requires
        forall|a: Seq<char>| #[trigger] used.contains_key(a) ==> used[a] < UNHARDENED_MAX,
        is_next_unused(used, i),
        i < UNHARDENED_MAX,
        is_next_unused(used.insert(address, i), j),
    ensures
        j == i + 1,
{
    let after = used.insert(address, i);
    assert forall|a: Seq<char>| #[trigger] after.contains_key(a) implies after[a] < UNHARDENED_MAX && after[a] <= i by {
        if a != address {
            assert(used.contains_key(a));
        }
    }
    assert(after.contains_key(address));
    assert(after[address] < j);
    let k = choose|a: Seq<char>| #[trigger] after.contains_key(a) && after[a] == (j - 1) as u32;
    assert(after.contains_key(k) && after[k] <= i);
}

/// When a composed payment puts the asset change on an output of its own
/// transaction, that output is the bitcoin change output, which follows the
/// payment outputs: output 0 for a payment to a blinded outpoint (which
/// adds no output), output 1 otherwise; and the plan has that bitcoin
/// change output.
pub proof fn law_asset_change_on_change_output(
    receiver: PaymentReceiver,
    coins: Seq<UtxoV>,
    btc: Seq<UtxoV>,
    asset_value: u64,
    bitcoin_fee: u64,
)
    ensures
        plan_spec(receiver, coins, btc, asset_value, bitcoin_fee) matches Ok(p) ==> (p.8 matches Some(
            (ChangeSeal::WitnessVout(v), _),
        ) ==> {
            &&& v == (if receiver is AssetToBlindUtxo {
                0u32
            } else {
                1u32
            })
            &&& p.5 == v
            &&& p.7 is Some
        }),
{
}

/// Splitting at a separator splits the two texts around one apart.
proof fn lemma_pieces_join(a: Seq<char>, b: Seq<char>, sep: char)
    ensures
        pieces(a + seq![sep] + b, sep) == pieces(a, sep) + pieces(b, sep),
    decreases b.len(),
{
    let s = a + seq![sep] + b;
    if b.len() == 0 {
        assert(s.drop_last() =~= a);
        assert(pieces(b, sep) == seq![Seq::<char>::empty()]);
        assert(pieces(s, sep) =~= pieces(a, sep) + pieces(b, sep));
    } else {
        lemma_pieces_join(a, b.drop_last(), sep);
        assert(s.drop_last() =~= a + seq![sep] + b.drop_last());
        lemma_pieces_nonempty(b.drop_last(), sep);
        let f = pieces(b.drop_last(), sep);
        if b.last() == sep {
            assert(pieces(s, sep) =~= pieces(a, sep) + pieces(b, sep));
        } else {
            assert(pieces(s, sep) =~= pieces(a, sep) + pieces(b, sep));
        }
    }
}

/// A text without the separator is one piece.
proof fn lemma_pieces_single(t: Seq<char>, sep: char)
    requires
        forall|i: int| 0 <= i < t.len() ==> t[i] != sep,
    ensures
        pieces(t, sep) == seq![t],
    decreases t.len(),
{
    if t.len() > 0 {
        lemma_pieces_single(t.drop_last(), sep);
        assert(t.drop_last().push(t.last()) =~= t);
    } else {
        assert(t =~= Seq::<char>::empty());
    }
}

/// The text of a child number holds no `/` and reads back as the number.
proof fn lemma_child_text(c: u32)
    ensures
        forall|i: int| 0 <= i < child_text(c).len() ==> child_text(c)[i] != '/',
        child_number_spec(child_text(c)) == Some(c),
{
    if c >= HARDENED_BIT {
        let n = (c - HARDENED_BIT) as nat;
        lemma_decimal(n);
        lemma_decimal_parses(n, 0x7fff_ffff);
        let t = child_text(c);
        assert(t.drop_last() =~= decimal(n));
        assert forall|i: int| 0 <= i < t.len() implies t[i] != '/' by {
            if i < t.len() - 1 {
                assert(is_digit(decimal(n)[i]));
            }
        }
    } else {
        let n = c as nat;
        lemma_decimal(n);
        lemma_decimal_parses(n, 0x7fff_ffff);
        let t = child_text(c);
        assert(is_digit(t[t.len() - 1]));
        assert forall|i: int| 0 <= i < t.len() implies t[i] != '/' by {
            assert(is_digit(t[i]));
        }
    }
}

/// The pieces of a path text are the texts of its child numbers.
proof fn lemma_path_pieces(p: Seq<u32>)
    requires
        p.len() > 0,
    ensures
        pieces(path_text(p), '/') == p.map_values(|c: u32| child_text(c)),
    decreases p.len(),
{
    lemma_child_text(p.last());
    lemma_pieces_single(child_text(p.last()), '/');
    if p.len() == 1 {
        assert(pieces(path_text(p), '/') =~= p.map_values(|c: u32| child_text(c)));
    } else {
        lemma_path_pieces(p.drop_last());
        lemma_pieces_join(path_text(p.drop_last()), child_text(p.last()), '/');
        assert(pieces(path_text(p), '/') =~= p.map_values(|c: u32| child_text(c)));
    }
}

/// A derivation path printed as key chains print it (`m`, then `/` and
/// each step, hardened steps marked) reads back, by the derivation path
/// reader, as the same child numbers: the printed source and terminal
/// paths of a key chain name the steps they were made of.
pub proof fn law_printed_path_reads_back(p: Seq<u32>)
    requires
        p.len() > 0,
    ensures
        bip32_path(seq!['m'] + seq!['/'] + path_text(p)) == Some(p),
{
    let text = seq!['m'] + seq!['/'] + path_text(p);
    assert(text =~= seq!['m'] + seq!['/'] + path_text(p));
    lemma_pieces_join(seq!['m'], path_text(p), '/');
    lemma_pieces_single(seq!['m'], '/');
    lemma_path_pieces(p);
    let ps = pieces(text, '/');
    assert(ps =~= seq![seq!['m']] + p.map_values(|c: u32| child_text(c)));
    assert forall|i: int| 1 <= i < ps.len() implies #[trigger] child_number_spec(ps[i]) is Some by {
        assert(ps[i] == child_text(p[i - 1]));
        lemma_child_text(p[i - 1]);
    }
    assert forall|i: int| 0 <= i < p.len() implies child_number_spec(ps[i + 1])->0 == p[i] by {
        assert(ps[i + 1] == child_text(p[i]));
        lemma_child_text(p[i]);
    }
    assert(Seq::new((ps.len() - 1) as nat, |i: int| child_number_spec(ps[i + 1])->0) =~= p);
}

/// The copies of an output for an asset in one row of reported amounts:
/// each is the output holding the total of an entry of that asset in the
/// row, and every such entry with a positive total has its copy.
proof fn lemma_outputs_at(u: UtxoV, row: Seq<(AssetId, Seq<u64>)>, a: AssetId)
    ensures
        forall|k: int| 0 <= k < outputs_at(u, row, a).len() ==> exists|e: int| {
            &&& 0 <= e < row.len()
            &&& row[e].0 == a
            &&& amounts_sum(row[e].1) > 0
            &&& #[trigger] outputs_at(u, row, a)[k] == UtxoV { value: amounts_sum(row[e].1) as u64, ..u }
        },
        forall|e: int| 0 <= e < row.len() && #[trigger] row[e].0 == a && amounts_sum(row[e].1) > 0
            ==> outputs_at(u, row, a).contains(UtxoV { value: amounts_sum(row[e].1) as u64, ..u }),
    decreases row.len(),
{
    if row.len() > 0 {
        lemma_outputs_at(u, row.drop_last(), a);
        let prev = outputs_at(u, row.drop_last(), a);
        let all = outputs_at(u, row, a);
        assert forall|k: int| 0 <= k < all.len() implies exists|e: int| {
            &&& 0 <= e < row.len()
            &&& row[e].0 == a
            &&& amounts_sum(row[e].1) > 0
            &&& #[trigger] all[k] == UtxoV { value: amounts_sum(row[e].1) as u64, ..u }
        } by {
            if k < prev.len() {
                assert(all[k] == prev[k]);
                let e = choose|e: int| {
                    &&& 0 <= e < row.drop_last().len()
                    &&& row.drop_last()[e].0 == a
                    &&& amounts_sum(row.drop_last()[e].1) > 0
                    &&& #[trigger] prev[k] == UtxoV { value: amounts_sum(row.drop_last()[e].1) as u64, ..u }
                };
                assert(row.drop_last()[e] == row[e]);
            } else {
                assert(row[row.len() - 1] == row.last());
            }
        }
        assert forall|e: int| 0 <= e < row.len() && #[trigger] row[e].0 == a && amounts_sum(row[e].1) > 0
            implies all.contains(UtxoV { value: amounts_sum(row[e].1) as u64, ..u }) by {
            let x = UtxoV { value: amounts_sum(row[e].1) as u64, ..u };
            if e < row.len() - 1 {
                assert(row.drop_last()[e] == row[e]);
                assert(prev.contains(x));
                let k = choose|k: int| 0 <= k < prev.len() && prev[k] == x;
                assert(all[k] == x);
            } else {
                assert(row.last() == row[e]);
                assert(all[prev.len() as int] == x);
            }
        }
    }
}

/// After a sync, each output listed under an asset other than bitcoin is
/// a copy of a found output holding the total of an entry of that asset in
/// the amounts reported for the outpoint at the same position; and every
/// such entry with a positive total is listed. Row `i` of the reported
/// amounts belongs to found output `i`.
pub proof fn law_sync_assets_follow_rows(
    unspent: Seq<UtxoV>,
    amounts: Seq<Seq<(AssetId, Seq<u64>)>>,
    a: AssetId,
    n: int,
)
    requires
        a != Hash32::spec_zero(),
        0 <= n <= unspent.len(),
        n <= amounts.len(),
    ensures
        forall|k: int| 0 <= k < asset_outputs(unspent, amounts, a, n).len() ==> exists|i: int, e: int| {
            &&& 0 <= i < n
            &&& 0 <= e < amounts[i].len()
            &&& amounts[i][e].0 == a
            &&& amounts_sum(amounts[i][e].1) > 0
            &&& #[trigger] asset_outputs(unspent, amounts, a, n)[k] == UtxoV {
                value: amounts_sum(amounts[i][e].1) as u64,
                ..unspent[i]
            }
        },
        forall|i: int, e: int|
            0 <= i < n && 0 <= e < amounts[i].len() && #[trigger] amounts[i][e].0 == a && amounts_sum(amounts[i][e].1)
                > 0 ==> asset_outputs(unspent, amounts, a, n).contains(
                UtxoV { value: amounts_sum(amounts[i][e].1) as u64, ..unspent[i] },
            ),
    decreases n,
{
    if n > 0 {
        law_sync_assets_follow_rows(unspent, amounts, a, n - 1);
        lemma_outputs_at(unspent[n - 1], amounts[n - 1], a);
        let prev = asset_outputs(unspent, amounts, a, n - 1);
        let here = outputs_at(unspent[n - 1], amounts[n - 1], a);
        let all = asset_outputs(unspent, amounts, a, n);
        assert(all == prev + here);
        assert forall|k: int| 0 <= k < all.len() implies exists|i: int, e: int| {
            &&& 0 <= i < n
            &&& 0 <= e < amounts[i].len()
            &&& amounts[i][e].0 == a
            &&& amounts_sum(amounts[i][e].1) > 0
            &&& #[trigger] all[k] == UtxoV { value: amounts_sum(amounts[i][e].1) as u64, ..unspent[i] }
        } by {
            if k < prev.len() {
                assert(all[k] == prev[k]);
            } else {
                assert(all[k] == here[k - prev.len()]);
                let e = choose|e: int| {
                    &&& 0 <= e < amounts[n - 1].len()
                    &&& #[trigger] amounts[n - 1][e].0 == a
                    &&& amounts_sum(amounts[n - 1][e].1) > 0
                    &&& here[k - prev.len()] == UtxoV {
                        value: amounts_sum(amounts[n - 1][e].1) as u64,
                        ..unspent[n - 1]
                    }
                };
                assert(amounts[n - 1][e].0 == a);
            }
        }
        assert forall|i: int, e: int|
            0 <= i < n && 0 <= e < amounts[i].len() && #[trigger] amounts[i][e].0 == a && amounts_sum(
                amounts[i][e].1,
            ) > 0 implies all.contains(UtxoV { value: amounts_sum(amounts[i][e].1) as u64, ..unspent[i] }) by {
            let x = UtxoV { value: amounts_sum(amounts[i][e].1) as u64, ..unspent[i] };
            if i < n - 1 {
                assert(prev.contains(x));
                let k = choose|k: int| 0 <= k < prev.len() && prev[k] == x;
                assert(all[k] == x);
            } else {
                assert(here.contains(x));
                let k = choose|k: int| 0 <= k < here.len() && here[k] == x;
                assert(all[prev.len() + k] == x);
            }
        }
    } else {
        assert(asset_outputs(unspent, amounts, a, n) =~= Seq::<UtxoV>::empty());
    }
}

/// The outpoint coin selection assigns the change to is one of the coins.
proof fn lemma_change_outpoint_is_a_coin(coins: Seq<UtxoV>, target: int)
    ensures
        select_spec(coins, target).2 matches Some(o) ==> exists|k: int|
            0 <= k < coins.len() && #[trigger] coins[k].outpoint() == o,
    decreases coins.len(),
{
    if coins.len() > 0 {
        lemma_change_outpoint_is_a_coin(coins.drop_last(), target);
        let (sel, amount, change) = select_spec(coins.drop_last(), target);
        if change is Some {
            let o = change->0;
            let k = choose|k: int| 0 <= k < coins.drop_last().len() && #[trigger] coins.drop_last()[k].outpoint() == o;
            assert(coins[k] == coins.drop_last()[k]);
        } else {
            assert(coins[coins.len() - 1] == coins.last());
        }
    }
}

/// The asset change of a composed payment is what the inputs hold beyond
/// the amount paid, and there is some exactly when they hold more than it
/// and an asset is paid; change put on an existing output goes to one of
/// the payer's coins.
pub proof fn law_asset_change_amount(
    receiver: PaymentReceiver,
    coins: Seq<UtxoV>,
    btc: Seq<UtxoV>,
    asset_value: u64,
    bitcoin_fee: u64,
)
    ensures
        plan_spec(receiver, coins, btc, asset_value, bitcoin_fee) matches Ok(p) ==> {
            &&& (p.8 matches Some((_, c)) ==> c == p.2 - asset_value && c > 0 && !(receiver is Bitcoin))
            &&& (p.8 is None ==> receiver is Bitcoin || p.2 == asset_value)
            &&& (p.8 matches Some((ChangeSeal::Outpoint(o), _)) ==> exists|k: int|
                0 <= k < coins.len() && #[trigger] coins[k].outpoint() == o)
        },
{
    let asset_fee: int = if receiver is Bitcoin { bitcoin_fee as int } else { 0 };
    lemma_change_outpoint_is_a_coin(coins, asset_value + asset_fee);
    lemma_select_total(coins, asset_value + asset_fee);
}

/// Whether entry `e` of `row` holds a positive total of asset `a`.
pub open spec fn holds_asset(row: Seq<(AssetId, Seq<u64>)>, e: int, a: AssetId) -> bool {
    0 <= e < row.len() && row[e].0 == a && amounts_sum(row[e].1) > 0
}

/// The entries of a row that the copies of an output for an asset come
/// from, in order.
proof fn row_sources(u: UtxoV, row: Seq<(AssetId, Seq<u64>)>, a: AssetId) -> (src: Seq<int>)
    ensures
        src.len() == outputs_at(u, row, a).len(),
        forall|k: int| 0 <= k < src.len() ==> holds_asset(row, #[trigger] src[k], a)
            && outputs_at(u, row, a)[k] == (UtxoV { value: amounts_sum(row[src[k]].1) as u64, ..u }),
        forall|k1: int, k2: int| 0 <= k1 < k2 < src.len() ==> #[trigger] src[k1] < #[trigger] src[k2],
        forall|e: int| #[trigger] holds_asset(row, e, a) ==> src.contains(e),
    decreases row.len(),
{
    if row.len() == 0 {
        Seq::empty()
    } else {
        let prev = row_sources(u, row.drop_last(), a);
        let last = row.len() - 1;
        assert forall|k: int| 0 <= k < prev.len() implies holds_asset(row, #[trigger] prev[k], a) by {
            assert(holds_asset(row.drop_last(), prev[k], a));
            assert(row.drop_last()[prev[k]] == row[prev[k]]);
        }
        let src = if holds_asset(row, last, a) {
            prev.push(last)
        } else {
            prev
        };
        assert(row[last] == row.last());
        assert forall|k: int| 0 <= k < src.len() implies holds_asset(row, #[trigger] src[k], a)
            && outputs_at(u, row, a)[k] == UtxoV { value: amounts_sum(row[src[k]].1) as u64, ..u } by {
            if k < prev.len() {
                assert(src[k] == prev[k]);
                assert(holds_asset(row.drop_last(), prev[k], a));
                assert(row.drop_last()[prev[k]] == row[prev[k]]);
            }
        }
        assert forall|k1: int, k2: int| 0 <= k1 < k2 < src.len() implies #[trigger] src[k1] < #[trigger] src[k2] by {
            if k2 < prev.len() {
                assert(src[k1] == prev[k1] && src[k2] == prev[k2]);
            } else {
                assert(src[k1] == prev[k1]);
                assert(holds_asset(row.drop_last(), prev[k1], a));
            }
        }
        assert forall|e: int| #[trigger] holds_asset(row, e, a) implies src.contains(e) by {
            if e < last {
                assert(row.drop_last()[e] == row[e]);
                assert(holds_asset(row.drop_last(), e, a));
                assert(prev.contains(e));
                let k = choose|k: int| 0 <= k < prev.len() && prev[k] == e;
                assert(src[k] == e);
            } else {
                assert(src[prev.len() as int] == e);
            }
        }
        src
    }
}

/// Whether position `x` (row, entry) comes before position `y`.
pub open spec fn before(x: (int, int), y: (int, int)) -> bool {
    x.0 < y.0 || (x.0 == y.0 && x.1 < y.1)
}

/// The positions (row, entry) of the reported amounts that the outputs of
/// an asset after a sync come from, in order.
proof fn sync_sources(
    unspent: Seq<UtxoV>,
    amounts: Seq<Seq<(AssetId, Seq<u64>)>>,
    a: AssetId,
    n: int,
) -> (src: Seq<(int, int)>)
    requires
        a != Hash32::spec_zero(),
        0 <= n <= unspent.len(),
        n <= amounts.len(),
    ensures
        src.len() == asset_outputs(unspent, amounts, a, n).len(),
        forall|k: int| 0 <= k < src.len() ==> 0 <= (#[trigger] src[k]).0 < n && holds_asset(amounts[src[k].0], src[k].1, a)
            && asset_outputs(unspent, amounts, a, n)[k] == (UtxoV {
                value: amounts_sum(amounts[src[k].0][src[k].1].1) as u64,
                ..unspent[src[k].0]
            }),
        forall|k1: int, k2: int| 0 <= k1 < k2 < src.len() ==> before(#[trigger] src[k1], #[trigger] src[k2]),
        forall|i: int, e: int| 0 <= i < n && #[trigger] holds_asset(amounts[i], e, a) ==> src.contains((i, e)),
    decreases n,
{
    if n == 0 {
        assert(asset_outputs(unspent, amounts, a, n) =~= Seq::<UtxoV>::empty());
        Seq::empty()
    } else {
        let prev = sync_sources(unspent, amounts, a, n - 1);
        let rs = row_sources(unspent[n - 1], amounts[n - 1], a);
        let tail = Seq::new(rs.len(), |j: int| (n - 1, rs[j]));
        let src = prev + tail;
        let po = asset_outputs(unspent, amounts, a, n - 1);
        let here = outputs_at(unspent[n - 1], amounts[n - 1], a);
        let all = asset_outputs(unspent, amounts, a, n);
        assert(all == po + here);
        assert forall|k: int| 0 <= k < src.len() implies 0 <= (#[trigger] src[k]).0 < n && holds_asset(amounts[src[k].0], src[k].1, a)
            && all[k] == UtxoV { value: amounts_sum(amounts[src[k].0][src[k].1].1) as u64, ..unspent[src[k].0] } by {
            if k < prev.len() {
                assert(src[k] == prev[k]);
                assert(all[k] == po[k]);
            } else {
                let j = k - prev.len();
                assert(src[k] == tail[j]);
                assert(all[k] == here[j]);
                assert(holds_asset(amounts[n - 1], rs[j], a));
            }
        }
        assert forall|k1: int, k2: int| 0 <= k1 < k2 < src.len() implies before(#[trigger] src[k1], #[trigger] src[k2]) by {
            if k2 < prev.len() {
                assert(src[k1] == prev[k1] && src[k2] == prev[k2]);
            } else if k1 < prev.len() {
                assert(src[k1] == prev[k1]);
                assert(0 <= prev[k1].0 < n - 1);
                assert(src[k2] == tail[k2 - prev.len()]);
            } else {
                assert(src[k1] == tail[k1 - prev.len()]);
                assert(src[k2] == tail[k2 - prev.len()]);
                assert(rs[k1 - prev.len()] < rs[k2 - prev.len()]);
            }
        }
        assert forall|i: int, e: int| 0 <= i < n && #[trigger] holds_asset(amounts[i], e, a) implies src.contains((i, e)) by {
            if i < n - 1 {
                assert(prev.contains((i, e)));
                let k = choose|k: int| 0 <= k < prev.len() && prev[k] == (i, e);
                assert(src[k] == (i, e));
            } else {
                assert(rs.contains(e));
                let j = choose|j: int| 0 <= j < rs.len() && rs[j] == e;
                assert(src[prev.len() + j] == (i, e));
            }
        }
        src
    }
}

/// After a sync, the outputs listed under an asset other than bitcoin are,
/// in order and once each, copies of found outputs holding the asset's
/// total from each entry of the reported amounts that holds a positive
/// total of it: the entry `e` of row `i` gives a copy of found output `i`,
/// and the copies follow the rows, then the entries, in order.
pub proof fn law_sync_assets_in_row_order(
    unspent: Seq<UtxoV>,
    amounts: Seq<Seq<(AssetId, Seq<u64>)>>,
    a: AssetId,
    n: int,
)
    requires
        a != Hash32::spec_zero(),
        0 <= n <= unspent.len(),
        n <= amounts.len(),
    ensures
        exists|src: Seq<(int, int)>|
            #![trigger src.len()]
            {
            &&& src.len() == asset_outputs(unspent, amounts, a, n).len()
            &&& forall|k: int| 0 <= k < src.len() ==> 0 <= (#[trigger] src[k]).0 < n && holds_asset(
                amounts[src[k].0],
                src[k].1,
                a,
            ) && asset_outputs(unspent, amounts, a, n)[k] == UtxoV {
                value: amounts_sum(amounts[src[k].0][src[k].1].1) as u64,
                ..unspent[src[k].0]
            }
            &&& forall|k1: int, k2: int| 0 <= k1 < k2 < src.len() ==> before(#[trigger] src[k1], #[trigger] src[k2])
            &&& forall|i: int, e: int| 0 <= i < n && #[trigger] holds_asset(amounts[i], e, a) ==> src.contains((i, e))
        },
{
    let src = sync_sources(unspent, amounts, a, n);
}

/// After a sync, the bitcoin outputs start with every found output, in the
/// order found.
pub proof fn law_sync_bitcoin_outputs_are_found_outputs(
    unspent: Seq<UtxoV>,
    amounts: Seq<Seq<(AssetId, Seq<u64>)>>,
    n: int,
)
    requires
        0 <= n <= unspent.len(),
        n <= amounts.len(),
    ensures
        asset_outputs(unspent, amounts, Hash32::spec_zero(), n).len() >= unspent.len(),
        asset_outputs(unspent, amounts, Hash32::spec_zero(), n).take(unspent.len() as int) == unspent,
    decreases n,
{
    if n > 0 {
        law_sync_bitcoin_outputs_are_found_outputs(unspent, amounts, n - 1);
        let prev = asset_outputs(unspent, amounts, Hash32::spec_zero(), n - 1);
        let here = outputs_at(unspent[n - 1], amounts[n - 1], Hash32::spec_zero());
        assert((prev + here).take(unspent.len() as int) =~= prev.take(unspent.len() as int));
    } else {
        assert(unspent.take(unspent.len() as int) =~= unspent);
    }
}

} // verus!
