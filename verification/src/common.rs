//! Types and arithmetic shared by every contract of the library.
use vstd::prelude::*;

verus! {

/// An account or contract on the ledger, identified by a 64-bit handle.
pub type Address = u64;

/// Basis-point denominator: 10 000 bps = 100 %.
pub const BPS_DENOMINATOR: u32 = 10_000;

/// A token movement that a contract call asks the ledger to perform.
#[derive(Clone, Copy, Debug, PartialEq, Eq, Structural)]
pub struct Transfer {
    pub token: Address,
    pub from: Address,
    pub to: Address,
    pub amount: i128,
}

impl Transfer {
    pub open spec fn spec_new(token: Address, from: Address, to: Address, amount: i128) -> Transfer {
        Transfer { token, from, to, amount }
    }
}

/// Integer division rounding toward zero, as Rust's `/` does.
pub open spec fn trunc_div(a: int, b: int) -> int {
    if a >= 0 {
        a / b
    } else {
        -((-a) / b)
    }
}

/// Amount of `token` that one transfer moves into `account` (negative when it moves out).
pub open spec fn transfer_delta(t: Transfer, token: Address, account: Address) -> int {
    (if t.token == token && t.to == account { t.amount as int } else { 0 }) - (if t.token == token
        && t.from == account {
        t.amount as int
    } else {
        0
    })
}

/// Net amount of `token` that a list of transfers moves into `account`.
pub open spec fn net_inflow(ts: Seq<Transfer>, token: Address, account: Address) -> int
    decreases ts.len(),
{
    if ts.len() == 0 {
        0
    } else {
        net_inflow(ts.drop_last(), token, account) + transfer_delta(ts.last(), token, account)
    }
}

/// Total amount of `token` moved by a list of transfers, counted once per transfer.
pub open spec fn total_moved(ts: Seq<Transfer>, token: Address) -> int
    decreases ts.len(),
{
    if ts.len() == 0 {
        0
    } else {
        total_moved(ts.drop_last(), token) + (if ts.last().token == token {
            ts.last().amount as int
        } else {
            0
        })
    }
}

/// Key of a map entry indexed by a pair of 64-bit values.
pub open spec fn pair_key(a: u64, b: u64) -> u128 {
    ((a as u128) << 64u128) | (b as u128)
}

/// Computes `pair_key(a, b)`.
pub fn make_pair_key(a: u64, b: u64) -> (r: u128)
    ensures
        r == pair_key(a, b),
{
    ((a as u128) << 64u128) | (b as u128)
}

/// Distinct pairs have distinct keys.
pub proof fn lemma_pair_key_injective(a1: u64, b1: u64, a2: u64, b2: u64)
    ensures
        pair_key(a1, b1) == pair_key(a2, b2) <==> (a1 == a2 && b1 == b2),
{
    assert(((a1 as u128) << 64u128) | (b1 as u128) == ((a2 as u128) << 64u128) | (b2 as u128)
        <==> (a1 == a2 && b1 == b2)) by (bit_vector);
}

/// `amount * bps / 10_000` rounded toward zero, or `None` when the product overflows `i128`.
pub open spec fn bps_fee(amount: i128, bps: u32) -> Option<i128> {
    if amount * bps > i128::MAX || amount * bps < i128::MIN {
        None
    } else {
        Some(trunc_div(amount * bps, 10_000) as i128)
    }
}

/// Applies a basis-point fee to `amount`: `amount * fee_bps / 10_000`, or `None` on overflow.
pub fn apply_bps_fee(amount: i128, fee_bps: u32) -> (r: Option<i128>)
    ensures
        r == bps_fee(amount, fee_bps),
{
    match amount.checked_mul(fee_bps as i128) {
        Some(product) => Some(product / 10_000),
        None => None,
    }
}

/// Law: a basis-point fee on a non-negative amount is the fraction
/// `bps / 10_000` of it rounded down, and is `None` exactly when
/// `amount * bps` leaves `i128`; a fee of at most 10 000 bps never exceeds
/// the amount.
pub proof fn lemma_bps_fee_rounds_down(amount: i128, bps: u32)
    requires
        amount >= 0,
    ensures
        bps_fee(amount, bps) is None <==> amount * bps > i128::MAX,
        bps_fee(amount, bps) matches Some(f) ==> 0 <= f && 10_000 * f <= amount * bps < 10_000 * (f + 1),
        bps <= 10_000 && bps_fee(amount, bps) is Some ==> bps_fee(amount, bps).unwrap() <= amount,
{
    let x = amount * bps;
    assert(x >= 0) by (nonlinear_arith)
        requires
            x == amount * bps,
            amount >= 0;
    if x <= i128::MAX {
        let q = x / 10_000;
        assert(0 <= q && 10_000 * q <= x < 10_000 * (q + 1) && q <= x) by (nonlinear_arith)
            requires
                q == x / 10_000,
                x >= 0;
        if bps <= 10_000 {
            assert(x <= amount * 10_000) by (nonlinear_arith)
                requires
                    x == amount * bps,
                    amount >= 0,
                    bps <= 10_000;
        }
    }
}

/// `a * b`, capped at `u32::MAX`.
pub open spec fn sat_mul_u32(a: u32, b: u32) -> u32 {
    if a * b > u32::MAX {
        u32::MAX
    } else {
        (a * b) as u32
    }
}

/// `a + b`, capped at `u32::MAX`.
pub open spec fn sat_add_u32(a: u32, b: u32) -> u32 {
    if a + b > u32::MAX {
        u32::MAX
    } else {
        (a + b) as u32
    }
}

/// `a - b`, floored at zero.
pub open spec fn sat_sub_u32(a: u32, b: u32) -> u32 {
    if a < b {
        0
    } else {
        (a - b) as u32
    }
}

/// Computes `sat_mul_u32(a, b)`.
pub fn saturating_mul_u32(a: u32, b: u32) -> (r: u32)
    ensures
        r == sat_mul_u32(a, b),
{
    match a.checked_mul(b) {
        Some(p) => p,
        None => u32::MAX,
    }
}

/// A single transfer moves exactly its delta.
pub proof fn lemma_net_inflow_single(t: Transfer, token: Address, account: Address)
    ensures
        net_inflow(seq![t], token, account) == transfer_delta(t, token, account),
{
    assert(seq![t].drop_last() =~= Seq::<Transfer>::empty());
    reveal_with_fuel(net_inflow, 2);
}

/// Net inflow is additive over concatenation.
pub proof fn lemma_net_inflow_append(a: Seq<Transfer>, b: Seq<Transfer>, token: Address, account: Address)
    ensures
        net_inflow(a + b, token, account) == net_inflow(a, token, account) + net_inflow(b, token, account),
    decreases b.len(),
{
    if b.len() == 0 {
        assert(a + b =~= a);
    } else {
        lemma_net_inflow_append(a, b.drop_last(), token, account);
        assert((a + b).drop_last() =~= a + b.drop_last());
    }
}

/// Sum of the values of a finite map.
pub open spec fn map_sum<K>(m: Map<K, i128>) -> int
    decreases m.dom().len(),
    when m.dom().finite()
{
    if m.dom().len() == 0 {
        0
    } else {
        let k = m.dom().choose();
        m[k] + map_sum(m.remove(k))
    }
}

/// The sum of a finite map splits off any one of its entries.
pub proof fn lemma_map_sum_remove<K>(m: Map<K, i128>, k: K)
    requires
        m.dom().finite(),
        m.dom().contains(k),
    ensures
        map_sum(m) == m[k] + map_sum(m.remove(k)),
    decreases m.dom().len(),
{
    let j = m.dom().choose();
    if j != k {
        lemma_map_sum_remove(m.remove(j), k);
        lemma_map_sum_remove(m.remove(k), j);
        assert(m.remove(j).remove(k) =~= m.remove(k).remove(j));
    }
}

/// Setting one entry of a finite map changes its sum by the difference of the values.
pub proof fn lemma_map_sum_insert<K>(m: Map<K, i128>, k: K, v: i128)
    requires
        m.dom().finite(),
    ensures
        map_sum(m.insert(k, v)) == map_sum(m) - (if m.dom().contains(k) { m[k] as int } else { 0 }) + v,
{
    lemma_map_sum_remove(m.insert(k, v), k);
    assert(m.insert(k, v).remove(k) =~= m.remove(k));
    if m.dom().contains(k) {
        lemma_map_sum_remove(m, k);
    } else {
        assert(m.remove(k) =~= m);
    }
}

/// Removing one entry of a finite map lowers its sum by that entry's value.
pub proof fn lemma_map_sum_remove_key<K>(m: Map<K, i128>, k: K)
    requires
        m.dom().finite(),
    ensures
        map_sum(m.remove(k)) == map_sum(m) - (if m.dom().contains(k) { m[k] as int } else { 0 }),
{
    if m.dom().contains(k) {
        lemma_map_sum_remove(m, k);
    } else {
        assert(m.remove(k) =~= m);
    }
}

/// Sum over `accounts` of the net amount of `token` that `ts` moves into each.
pub open spec fn total_inflow(ts: Seq<Transfer>, token: Address, accounts: Seq<Address>) -> int
    decreases accounts.len(),
{
    if accounts.len() == 0 {
        0
    } else {
        total_inflow(ts, token, accounts.drop_last()) + net_inflow(ts, token, accounts.last())
    }
}

/// Sum over `accounts` of what one transfer moves into each.
pub open spec fn delta_sum(t: Transfer, token: Address, accounts: Seq<Address>) -> int
    decreases accounts.len(),
{
    if accounts.len() == 0 {
        0
    } else {
        delta_sum(t, token, accounts.drop_last()) + transfer_delta(t, token, accounts.last())
    }
}

/// Every transfer of `ts` moves between two of `accounts`.
pub open spec fn moves_within(ts: Seq<Transfer>, accounts: Seq<Address>) -> bool {
    forall|i: int| 0 <= i < ts.len() ==> accounts.contains(#[trigger] ts[i].from) && accounts.contains(ts[i].to)
}

proof fn lemma_total_inflow_last(ts: Seq<Transfer>, token: Address, accounts: Seq<Address>)
    requires
        ts.len() > 0,
    ensures
        total_inflow(ts, token, accounts) == total_inflow(ts.drop_last(), token, accounts) + delta_sum(ts.last(), token, accounts),
    decreases accounts.len(),
{
    if accounts.len() > 0 {
        lemma_total_inflow_last(ts, token, accounts.drop_last());
    }
}

proof fn lemma_delta_sum(t: Transfer, token: Address, accounts: Seq<Address>)
    requires
        accounts.no_duplicates(),
    ensures
        delta_sum(t, token, accounts) == (if t.token == token && accounts.contains(t.to) { t.amount as int } else { 0 })
            - (if t.token == token && accounts.contains(t.from) { t.amount as int } else { 0 }),
    decreases accounts.len(),
{
    if accounts.len() > 0 {
        let rest = accounts.drop_last();
        assert(rest.no_duplicates());
        lemma_delta_sum(t, token, rest);
        assert forall|x: Address| accounts.contains(x) <==> (rest.contains(x) || x == accounts.last()) by {
            if accounts.contains(x) {
                let k = choose|k: int| 0 <= k < accounts.len() && accounts[k] == x;
                if k < accounts.len() - 1 {
                    assert(rest[k] == x);
                }
            }
            if rest.contains(x) {
                let k = choose|k: int| 0 <= k < rest.len() && rest[k] == x;
                assert(accounts[k] == x);
            }
            if x == accounts.last() {
                assert(accounts[accounts.len() - 1] == x);
            }
        }
        assert(!rest.contains(accounts.last())) by {
            if rest.contains(accounts.last()) {
                let k = choose|k: int| 0 <= k < rest.len() && rest[k] == accounts.last();
                assert(accounts[k] == accounts[accounts.len() - 1]);
            }
        }
    }
}

/// Law: token movements only move tokens around. For any list of transfers
/// between the (distinct) `accounts`, the total of every token held by those
/// accounts is unchanged.
pub proof fn lemma_transfers_conserve(ts: Seq<Transfer>, token: Address, accounts: Seq<Address>)
    requires
        accounts.no_duplicates(),
        moves_within(ts, accounts),
    ensures
        total_inflow(ts, token, accounts) == 0,
    decreases ts.len(),
{
    if ts.len() == 0 {
        assert(ts =~= Seq::<Transfer>::empty());
        lemma_total_inflow_empty(token, accounts);
    } else {
        let last = ts.last();
        assert(accounts.contains(ts[ts.len() - 1].from) && accounts.contains(ts[ts.len() - 1].to));
        assert(moves_within(ts.drop_last(), accounts)) by {
            assert forall|i: int| 0 <= i < ts.drop_last().len() implies accounts.contains(#[trigger] ts.drop_last()[i].from)
                && accounts.contains(ts.drop_last()[i].to) by {
                assert(ts.drop_last()[i] == ts[i]);
            }
        }
        lemma_transfers_conserve(ts.drop_last(), token, accounts);
        lemma_total_inflow_last(ts, token, accounts);
        lemma_delta_sum(last, token, accounts);
    }
}

proof fn lemma_total_inflow_empty(token: Address, accounts: Seq<Address>)
    ensures
        total_inflow(Seq::<Transfer>::empty(), token, accounts) == 0,
    decreases accounts.len(),
{
    if accounts.len() > 0 {
        lemma_total_inflow_empty(token, accounts.drop_last());
    }
}

} // verus!
