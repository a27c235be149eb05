//! Redistribution of a realized profit or loss across all accounts,
//! in proportion to each account's share of the system balance, net of fees.
//!
//! Rounding rule: each account's proportional share is rounded toward zero;
//! what rounding leaves over (the residue) is credited to the fee account's
//! investment payment, so that the amounts distributed add up exactly.
use vstd::arithmetic::div_mod::{
    lemma_div_by_multiple, lemma_div_is_ordered, lemma_div_is_ordered_by_denominator,
    lemma_div_pos_is_pos,
};
use vstd::arithmetic::mul::lemma_mul_inequality;
use crate::model::{pair_balance, Message, Pair};
use vstd::prelude::*;

verus! {

/// Fee fractions are integers in parts per `FEE_SCALE`.
pub const FEE_SCALE: u32 = 1_000_000;

const I64_LIMIT: i128 = 0x8000_0000_0000_0000;

/// A ledger participant.
#[derive(Clone, Copy, Debug, PartialEq, Eq, Structural)]
pub struct Account {
    pub id: i64,
    /// Current balance in minor units.
    pub balance: i64,
    /// Fee fraction in parts per [`FEE_SCALE`]; below `FEE_SCALE`.
    pub fee: u32,
}

#[derive(Clone, Copy, Debug, PartialEq, Eq, Structural)]
pub enum PaymentKind {
    Investment,
    Fee,
}

/// One ledger entry: a signed amount credited to an account.
#[derive(Clone, Copy, Debug, PartialEq, Eq, Structural)]
pub struct Payment {
    pub account: i64,
    pub amount: i64,
    pub kind: PaymentKind,
}

/// The outcome of one run: the payments to append, in order, and every
/// account with its balance after the run.
#[derive(Clone, Debug, PartialEq, Eq)]
pub struct Distribution {
    pub payments: Vec<Payment>,
    pub accounts: Vec<Account>,
}

/// Why a run was refused; a refused run changes nothing.
#[derive(Clone, Copy, Debug, PartialEq, Eq, Structural)]
pub enum DistributionError {
    /// The accounts' balances add up to zero, so no share is defined.
    ZeroTotal,
    /// The fee account is missing from the account list, or listed twice.
    FeeAccount,
    /// A share, payment or new balance does not fit in an `i64`.
    Overflow,
    /// A trade's size or price is not positive, the trades of a position
    /// differ in exchange, market or bot, or the legs differ in bot.
    InvalidPair,
}

pub open spec fn in_i64(x: int) -> bool {
    i64::MIN <= x <= i64::MAX
}

pub open spec fn abs(x: int) -> int {
    if x < 0 { -x } else { x }
}

/// Quotient rounded toward zero.
pub open spec fn div_toward_zero(a: int, b: int) -> int {
    let q = abs(a) / abs(b);
    if (a >= 0) == (b >= 0) { q } else { -q }
}

/// Sum of the balances of the first `k` accounts.
pub open spec fn balance_upto(s: Seq<Account>, k: int) -> int
    decreases k,
{
    if k <= 0 { 0 } else { balance_upto(s, k - 1) + s[k - 1].balance }
}

pub open spec fn total_balance(s: Seq<Account>) -> int {
    balance_upto(s, s.len() as int)
}

/// How many of the first `k` accounts carry the identifier `id`.
pub open spec fn count_id_upto(s: Seq<Account>, k: int, id: i64) -> int
    decreases k,
{
    if k <= 0 {
        0
    } else {
        count_id_upto(s, k - 1, id) + if s[k - 1].id == id { 1int } else { 0int }
    }
}

/// Account `i`'s proportional share `balance / total * pair`, rounded toward zero.
pub open spec fn raw_share(s: Seq<Account>, i: int, pair: int) -> int {
    div_toward_zero(s[i].balance * pair, total_balance(s))
}

pub open spec fn shares_upto(s: Seq<Account>, k: int, pair: int) -> int
    decreases k,
{
    if k <= 0 { 0 } else { shares_upto(s, k - 1, pair) + raw_share(s, k - 1, pair) }
}

/// What rounding leaves of the pair balance once every share is taken.
pub open spec fn residue(s: Seq<Account>, pair: int) -> int {
    pair - shares_upto(s, s.len() as int, pair)
}

/// Account `i`'s share: its proportional share, plus the residue for the fee account.
pub open spec fn share_of(s: Seq<Account>, i: int, fee_id: i64, pair: int) -> int {
    raw_share(s, i, pair) + if s[i].id == fee_id { residue(s, pair) } else { 0 }
}

/// The fee charged to account `i`: its fee fraction of a positive share
/// (rounded down), and nothing on a loss or for the fee account itself.
pub open spec fn fee_of(s: Seq<Account>, i: int, fee_id: i64, pair: int) -> int {
    let sh = raw_share(s, i, pair);
    if sh > 0 && s[i].id != fee_id {
        sh * s[i].fee / (FEE_SCALE as int)
    } else {
        0
    }
}

pub open spec fn net_of(s: Seq<Account>, i: int, fee_id: i64, pair: int) -> int {
    share_of(s, i, fee_id, pair) - fee_of(s, i, fee_id, pair)
}

pub open spec fn fees_upto(s: Seq<Account>, k: int, fee_id: i64, pair: int) -> int
    decreases k,
{
    if k <= 0 { 0 } else { fees_upto(s, k - 1, fee_id, pair) + fee_of(s, k - 1, fee_id, pair) }
}

/// Account `i`'s balance after the run: its net credit, and all fees for the fee account.
pub open spec fn new_balance(s: Seq<Account>, i: int, fee_id: i64, pair: int) -> int {
    s[i].balance + net_of(s, i, fee_id, pair) + if s[i].id == fee_id {
        fees_upto(s, s.len() as int, fee_id, pair)
    } else {
        0
    }
}

/// The payments for the first `k` accounts: for each, its investment
/// payment, followed by a fee payment to the fee account when it pays a fee.
pub open spec fn payments_upto(s: Seq<Account>, k: int, fee_id: i64, pair: int) -> Seq<Payment>
    decreases k,
{
    if k <= 0 {
        seq![]
    } else {
        let i = k - 1;
        let inv = Payment {
            account: s[i].id,
            amount: net_of(s, i, fee_id, pair) as i64,
            kind: PaymentKind::Investment,
        };
        let fee = fee_of(s, i, fee_id, pair);
        let rest = payments_upto(s, i, fee_id, pair).push(inv);
        if fee > 0 {
            rest.push(Payment { account: fee_id, amount: fee as i64, kind: PaymentKind::Fee })
        } else {
            rest
        }
    }
}

/// Every account, with its balance after the run.
pub open spec fn accounts_after(s: Seq<Account>, fee_id: i64, pair: int) -> Seq<Account> {
    Seq::new(
        s.len(),
        |i: int| Account { id: s[i].id, balance: new_balance(s, i, fee_id, pair) as i64, fee: s[i].fee },
    )
}

/// Sum of the amounts of a sequence of payments.
pub open spec fn payment_sum(ps: Seq<Payment>) -> int
    decreases ps.len(),
{
    if ps.len() == 0 {
        0
    } else {
        payment_sum(ps.drop_last()) + ps.last().amount
    }
}

/// Every quantity of the run fits in an `i64`.
pub open spec fn fits(s: Seq<Account>, fee_id: i64, pair: int) -> bool {
    &&& in_i64(pair)
    &&& forall|i: int|
        0 <= i < s.len() ==> {
            &&& #[trigger] in_i64(raw_share(s, i, pair))
            &&& in_i64(net_of(s, i, fee_id, pair))
            &&& in_i64(new_balance(s, i, fee_id, pair))
        }
}

pub open spec fn accounts_wf(s: Seq<Account>) -> bool {
    forall|i: int| 0 <= i < s.len() ==> #[trigger] s[i].fee < FEE_SCALE
}

/// `balance * pair / total`, rounded toward zero.
fn proportional_share(balance: i64, total: i128, pair: i64) -> (r: i128)
    requires
        total != 0,
        -I64_LIMIT * I64_LIMIT <= total <= I64_LIMIT * I64_LIMIT,
    ensures
        r == div_toward_zero(balance * pair, total as int),
{
    assert(-I64_LIMIT * I64_LIMIT <= balance * pair <= I64_LIMIT * I64_LIMIT) by (nonlinear_arith)
        requires
            i64::MIN <= balance <= i64::MAX,
            i64::MIN <= pair <= i64::MAX,
            I64_LIMIT == 0x8000_0000_0000_0000,
    ;
    let prod: i128 = (balance as i128) * (pair as i128);
    let ap: u128 = if prod >= 0 { prod as u128 } else { (-prod) as u128 };
    let at: u128 = if total >= 0 { total as u128 } else { (-total) as u128 };
    let q: u128 = ap / at;
    proof {
        lemma_div_is_ordered_by_denominator(ap as int, 1, at as int);
    }
    if (prod >= 0) == (total >= 0) {
        q as i128
    } else {
        -(q as i128)
    }
}

/// `share * fee / FEE_SCALE`, rounded down, for a positive share.
fn fee_on(share: i64, fee: u32) -> (r: i64)
    requires
        share > 0,
        fee < FEE_SCALE,
    ensures
        r == share * fee / (FEE_SCALE as int),
        0 <= r <= share,
{
    assert(0 <= share * fee <= share * FEE_SCALE) by (nonlinear_arith)
        requires
            share > 0,
            fee < FEE_SCALE,
    ;
    let prod: i128 = (share as i128) * (fee as i128);
    let q: i128 = prod / (FEE_SCALE as i128);
    proof {
        lemma_div_is_ordered(prod as int, share * FEE_SCALE, FEE_SCALE as int);
        lemma_div_by_multiple(share as int, FEE_SCALE as int);
        lemma_div_pos_is_pos(prod as int, FEE_SCALE as int);
    }
    q as i64
}


/// One run of the distribution: splits `pair_balance` across `accounts` in
/// proportion to their balances, charges each gaining account other than
/// `fee_account` its fee, and credits the fees to `fee_account`.
///
/// Returns the payments and the accounts' new balances, or the reason the run
/// is refused. `accounts` must list every account of the system; no vector of
/// accounts can be longer than `i64::MAX`.
pub fn distribute(accounts: &Vec<Account>, fee_account: i64, pair_balance: i128) -> (r: Result<
    Distribution,
    DistributionError,
>)
    requires
        accounts_wf(accounts@),
        accounts@.len() <= i64::MAX,
    ensures
        (r matches Err(DistributionError::ZeroTotal)) <==> total_balance(accounts@) == 0,
        (r matches Err(DistributionError::FeeAccount)) <==> total_balance(accounts@) != 0
            && count_id_upto(accounts@, accounts@.len() as int, fee_account) != 1,
        (r matches Err(DistributionError::Overflow)) <==> total_balance(accounts@) != 0
            && count_id_upto(accounts@, accounts@.len() as int, fee_account) == 1 && !fits(
            accounts@,
            fee_account,
            pair_balance as int,
        ),
        r is Ok <==> total_balance(accounts@) != 0 && count_id_upto(
            accounts@,
            accounts@.len() as int,
            fee_account,
        ) == 1 && fits(accounts@, fee_account, pair_balance as int),
        r matches Ok(d) ==> {
            &&& d.payments@ == payments_upto(
                accounts@,
                accounts@.len() as int,
                fee_account,
                pair_balance as int,
            )
            &&& d.accounts@ == accounts_after(accounts@, fee_account, pair_balance as int)
        },
{
    let ghost s = accounts@;
    let ghost pair = pair_balance as int;
    let n = accounts.len();
    let mut total: i128 = 0;
    let mut count: usize = 0;
    let mut fee_index: usize = 0;
    let mut i: usize = 0;
    while i < n
        invariant
            s == accounts@,
            pair == pair_balance as int,
            n == s.len(),
            n <= i64::MAX,
            0 <= i <= n,
            total == balance_upto(s, i as int),
            -(i as int) * 0x8000_0000_0000_0000 <= total <= (i as int) * 0x8000_0000_0000_0000,
            count == count_id_upto(s, i as int, fee_account),
            count <= i,
            count >= 1 ==> fee_index < i && s[fee_index as int].id == fee_account,
            count == 0 ==> forall|j: int| 0 <= j < i ==> s[j].id != fee_account,
            count == 1 ==> forall|j: int| 0 <= j < i && s[j].id == fee_account ==> j == fee_index,
        decreases n - i,
    {
        let a = accounts[i];
        total = total + a.balance as i128;
        if a.id == fee_account {
            count = count + 1;
            fee_index = i;
        }
        i = i + 1;
    }
    if total == 0 {
        return Err(DistributionError::ZeroTotal);
    }
    if count != 1 {
        return Err(DistributionError::FeeAccount);
    }
    if pair_balance < i64::MIN as i128 || pair_balance > i64::MAX as i128 {
        return Err(DistributionError::Overflow);
    }
    let p: i64 = pair_balance as i64;

    let mut shares: Vec<i64> = Vec::new();
    let mut share_sum: i128 = 0;
    i = 0;
    while i < n
        invariant
            s == accounts@,
            pair == pair_balance as int,
            n == s.len(),
            n <= i64::MAX,
            0 <= i <= n,
            p == pair,
            count_id_upto(s, n as int, fee_account) == 1,
            total == total_balance(s),
            total != 0,
            -(n as int) * 0x8000_0000_0000_0000 <= total <= (n as int) * 0x8000_0000_0000_0000,
            shares@.len() == i,
            forall|j: int| 0 <= j < i ==> shares@[j] == raw_share(s, j, pair),
            share_sum == shares_upto(s, i as int, pair),
            -(i as int) * 0x8000_0000_0000_0000 <= share_sum <= (i as int) * 0x8000_0000_0000_0000,
        decreases n - i,
    {
        let sh = proportional_share(accounts[i].balance, total, p);
        if sh < i64::MIN as i128 || sh > i64::MAX as i128 {
            assert(!in_i64(raw_share(s, i as int, pair)));
            assert(!fits(s, fee_account, pair));
            return Err(DistributionError::Overflow);
        }
        shares.push(sh as i64);
        share_sum = share_sum + sh;
        i = i + 1;
    }
    let residue_amount: i128 = pair_balance - share_sum;

    let mut payments: Vec<Payment> = Vec::new();
    let mut nets: Vec<i64> = Vec::new();
    let mut fees_total: i128 = 0;
    i = 0;
    while i < n
        invariant
            s == accounts@,
            pair == pair_balance as int,
            accounts_wf(s),
            n == s.len(),
            n <= i64::MAX,
            0 <= i <= n,
            p == pair,
            in_i64(pair),
            total_balance(s) != 0,
            count_id_upto(s, n as int, fee_account) == 1,
            fee_index < n,
            s[fee_index as int].id == fee_account,
            forall|j: int| 0 <= j < n && s[j].id == fee_account ==> j == fee_index,
            shares@.len() == n,
            forall|j: int| 0 <= j < n ==> shares@[j] == raw_share(s, j, pair),
            residue_amount == residue(s, pair),
            -(n as int) * 0x8000_0000_0000_0000 - 0x8000_0000_0000_0000 <= residue_amount <= (n
                as int) * 0x8000_0000_0000_0000 + 0x8000_0000_0000_0000,
            payments@ == payments_upto(s, i as int, fee_account, pair),
            nets@.len() == i,
            forall|j: int| 0 <= j < i ==> nets@[j] == net_of(s, j, fee_account, pair),
            fees_total == fees_upto(s, i as int, fee_account, pair),
            0 <= fees_total <= (i as int) * 0x8000_0000_0000_0000,
        decreases n - i,
    {
        let a = accounts[i];
        let sh = shares[i];
        let fee: i64 = if sh > 0 && a.id != fee_account {
            fee_on(sh, a.fee)
        } else {
            0
        };
        let share: i128 = if i == fee_index {
            sh as i128 + residue_amount
        } else {
            sh as i128
        };
        let net: i128 = share - fee as i128;
        assert(net == net_of(s, i as int, fee_account, pair));
        if net < i64::MIN as i128 || net > i64::MAX as i128 {
            assert(!fits(s, fee_account, pair)) by {
                assert(in_i64(raw_share(s, i as int, pair)) ==> !fits(s, fee_account, pair));
            }
            return Err(DistributionError::Overflow);
        }
        payments.push(Payment { account: a.id, amount: net as i64, kind: PaymentKind::Investment });
        if fee > 0 {
            payments.push(Payment { account: fee_account, amount: fee, kind: PaymentKind::Fee });
        }
        nets.push(net as i64);
        fees_total = fees_total + fee as i128;
        i = i + 1;
    }

    let mut new_accounts: Vec<Account> = Vec::new();
    i = 0;
    while i < n
        invariant
            s == accounts@,
            pair == pair_balance as int,
            n == s.len(),
            n <= i64::MAX,
            0 <= i <= n,
            in_i64(pair),
            total_balance(s) != 0,
            count_id_upto(s, n as int, fee_account) == 1,
            fee_index < n,
            s[fee_index as int].id == fee_account,
            forall|j: int| 0 <= j < n && s[j].id == fee_account ==> j == fee_index,
            forall|j: int| 0 <= j < n ==> in_i64(#[trigger] raw_share(s, j, pair)),
            nets@.len() == n,
            forall|j: int| 0 <= j < n ==> nets@[j] == net_of(s, j, fee_account, pair),
            fees_total == fees_upto(s, n as int, fee_account, pair),
            0 <= fees_total <= (n as int) * 0x8000_0000_0000_0000,
            new_accounts@.len() == i,
            forall|j: int|
                0 <= j < i ==> #[trigger] new_accounts@[j] == (Account {
                    id: s[j].id,
                    balance: new_balance(s, j, fee_account, pair) as i64,
                    fee: s[j].fee,
                }),
            forall|j: int| 0 <= j < i ==> in_i64(#[trigger] new_balance(s, j, fee_account, pair)),
        decreases n - i,
    {
        let a = accounts[i];
        let credit: i128 = if i == fee_index {
            fees_total
        } else {
            0
        };
        let b: i128 = a.balance as i128 + nets[i] as i128 + credit;
        assert(b == new_balance(s, i as int, fee_account, pair));
        if b < i64::MIN as i128 || b > i64::MAX as i128 {
            assert(!fits(s, fee_account, pair)) by {
                assert(in_i64(raw_share(s, i as int, pair)) ==> !fits(s, fee_account, pair));
            }
            return Err(DistributionError::Overflow);
        }
        new_accounts.push(Account { id: a.id, balance: b as i64, fee: a.fee });
        i = i + 1;
    }
    assert forall|j: int| 0 <= j < n implies {
        &&& #[trigger] in_i64(raw_share(s, j, pair))
        &&& in_i64(net_of(s, j, fee_account, pair))
        &&& in_i64(new_balance(s, j, fee_account, pair))
    } by {
        assert(nets@[j] == net_of(s, j, fee_account, pair));
        assert(new_accounts@[j].id == s[j].id);
    }
    assert(fits(s, fee_account, pair));
    assert(new_accounts@ =~= accounts_after(s, fee_account, pair));
    Ok(Distribution { payments, accounts: new_accounts })
}

} // verus!

verus! {

/// A fee is never negative and never more than the share it is taken from.
pub proof fn lemma_fee_bounds(s: Seq<Account>, i: int, fee_id: i64, pair: int)
    requires
        accounts_wf(s),
        0 <= i < s.len(),
    ensures
        0 <= fee_of(s, i, fee_id, pair),
        fee_of(s, i, fee_id, pair) > 0 ==> fee_of(s, i, fee_id, pair) <= raw_share(s, i, pair),
        raw_share(s, i, pair) > 0 ==> fee_of(s, i, fee_id, pair) <= raw_share(s, i, pair),
{
    let sh = raw_share(s, i, pair);
    if sh > 0 && s[i].id != fee_id {
        let f = s[i].fee as int;
        assert(0 <= sh * f <= sh * FEE_SCALE) by (nonlinear_arith)
            requires
                sh > 0,
                0 <= f < FEE_SCALE,
        ;
        lemma_div_is_ordered(sh * f, sh * FEE_SCALE, FEE_SCALE as int);
        lemma_div_by_multiple(sh, FEE_SCALE as int);
        lemma_div_pos_is_pos(sh * f, FEE_SCALE as int);
    }
}

/// The fee account never pays a fee on its own share.
pub proof fn lemma_fee_account_pays_no_fee(s: Seq<Account>, i: int, fee_id: i64, pair: int)
    requires
        0 <= i < s.len(),
        s[i].id == fee_id,
    ensures
        fee_of(s, i, fee_id, pair) == 0,
{
}

/// An account whose share is not a gain pays no fee.
pub proof fn lemma_no_fee_on_loss(s: Seq<Account>, i: int, fee_id: i64, pair: int)
    requires
        0 <= i < s.len(),
        raw_share(s, i, pair) <= 0,
    ensures
        fee_of(s, i, fee_id, pair) == 0,
{
}

proof fn lemma_payments_sum_upto(s: Seq<Account>, k: int, fee_id: i64, pair: int)
    requires
        accounts_wf(s),
        fits(s, fee_id, pair),
        0 <= k <= s.len(),
    ensures
        payment_sum(payments_upto(s, k, fee_id, pair)) == shares_upto(s, k, pair) + count_id_upto(
            s,
            k,
            fee_id,
        ) * residue(s, pair),
    decreases k,
{
    if k > 0 {
        let i = k - 1;
        lemma_payments_sum_upto(s, i, fee_id, pair);
        lemma_fee_bounds(s, i, fee_id, pair);
        assert(in_i64(raw_share(s, i, pair)));
        let prev = payments_upto(s, i, fee_id, pair);
        let inv = Payment {
            account: s[i].id,
            amount: net_of(s, i, fee_id, pair) as i64,
            kind: PaymentKind::Investment,
        };
        assert(prev.push(inv).drop_last() =~= prev);
        assert(inv.amount == net_of(s, i, fee_id, pair));
        assert(payment_sum(prev.push(inv)) == payment_sum(prev) + net_of(s, i, fee_id, pair));
        let fee = fee_of(s, i, fee_id, pair);
        if fee > 0 {
            let fp = Payment { account: fee_id, amount: fee as i64, kind: PaymentKind::Fee };
            assert(prev.push(inv).push(fp).drop_last() =~= prev.push(inv));
            assert(fp.amount == fee);
            assert(payment_sum(prev.push(inv).push(fp)) == payment_sum(prev.push(inv)) + fee);
        }
        assert(payment_sum(payments_upto(s, k, fee_id, pair)) == payment_sum(prev) + share_of(
            s,
            i,
            fee_id,
            pair,
        ));
        let c = count_id_upto(s, i, fee_id);
        let r = residue(s, pair);
        assert((c + 1) * r == c * r + r) by (nonlinear_arith);
    }
}

proof fn lemma_balances_upto(s: Seq<Account>, k: int, fee_id: i64, pair: int)
    requires
        accounts_wf(s),
        fits(s, fee_id, pair),
        0 <= k <= s.len(),
    ensures
        balance_upto(accounts_after(s, fee_id, pair), k) == balance_upto(s, k) + shares_upto(
            s,
            k,
            pair,
        ) + count_id_upto(s, k, fee_id) * (residue(s, pair) + fees_upto(
            s,
            s.len() as int,
            fee_id,
            pair,
        )) - fees_upto(s, k, fee_id, pair),
    decreases k,
{
    if k > 0 {
        let i = k - 1;
        lemma_balances_upto(s, i, fee_id, pair);
        assert(in_i64(raw_share(s, i, pair)));
        let c = count_id_upto(s, i, fee_id);
        let r = residue(s, pair) + fees_upto(s, s.len() as int, fee_id, pair);
        assert((c + 1) * r == c * r + r) by (nonlinear_arith);
    }
}

/// Conservation: in a run that succeeds, the payments add up exactly to
/// the pair balance, and the balances of all accounts together grow by
/// exactly the pair balance.
pub proof fn lemma_conservation(s: Seq<Account>, fee_id: i64, pair: int)
    requires
        accounts_wf(s),
        total_balance(s) != 0,
        count_id_upto(s, s.len() as int, fee_id) == 1,
        fits(s, fee_id, pair),
    ensures
        payment_sum(payments_upto(s, s.len() as int, fee_id, pair)) == pair,
        total_balance(accounts_after(s, fee_id, pair)) - total_balance(s) == pair,
{
    let n = s.len() as int;
    lemma_payments_sum_upto(s, n, fee_id, pair);
    lemma_balances_upto(s, n, fee_id, pair);
}

} // verus!

verus! {

/// The pair an event reports.
pub open spec fn message_pair(m: Message) -> Pair {
    match m {
        Message::Pair(p) => p,
    }
}

/// Handles one received event: checks the pair it reports and distributes
/// that pair's balance with [`distribute`].
pub fn settle(message: &Message, accounts: &Vec<Account>, fee_account: i64) -> (r: Result<
    Distribution,
    DistributionError,
>)
    requires
        accounts_wf(accounts@),
        accounts@.len() <= i64::MAX,
    ensures
        ({
            let p = message_pair(*message);
            let pair = pair_balance(p);
            let total = total_balance(accounts@);
            let count = count_id_upto(accounts@, accounts@.len() as int, fee_account);
            &&& (r matches Err(DistributionError::InvalidPair)) <==> !p.wf()
            &&& (r matches Err(DistributionError::ZeroTotal)) <==> p.wf() && total == 0
            &&& (r matches Err(DistributionError::FeeAccount)) <==> p.wf() && total != 0 && count
                != 1
            &&& (r matches Err(DistributionError::Overflow)) <==> p.wf() && total != 0 && count == 1
                && !fits(accounts@, fee_account, pair)
            &&& r is Ok <==> p.wf() && total != 0 && count == 1 && fits(accounts@, fee_account, pair)
            &&& r matches Ok(d) ==> {
                &&& d.payments@ == payments_upto(accounts@, accounts@.len() as int, fee_account, pair)
                &&& d.accounts@ == accounts_after(accounts@, fee_account, pair)
            }
        }),
{
    match message {
        Message::Pair(p) => {
            if !p.is_valid() {
                return Err(DistributionError::InvalidPair);
            }
            distribute(accounts, fee_account, p.balance())
        },
    }
}

} // verus!

verus! {

proof fn lemma_loss_share_not_positive(s: Seq<Account>, i: int, pair: int)
    requires
        0 <= i < s.len(),
        pair <= 0,
        total_balance(s) > 0,
        s[i].balance >= 0,
    ensures
        raw_share(s, i, pair) <= 0,
{
    let a = s[i].balance * pair;
    assert(a <= 0) by (nonlinear_arith)
        requires
            s[i].balance >= 0,
            pair <= 0,
            a == s[i].balance * pair,
    ;
    lemma_div_pos_is_pos(abs(a), abs(total_balance(s)));
}

/// With no negative balance and a positive total, a loss is shared out
/// as investment payments only: no fee payment at all.
pub proof fn lemma_loss_has_no_fee_payments(s: Seq<Account>, fee_id: i64, pair: int)
    requires
        pair <= 0,
        total_balance(s) > 0,
        forall|i: int| 0 <= i < s.len() ==> #[trigger] s[i].balance >= 0,
    ensures
        forall|j: int|
            0 <= j < payments_upto(s, s.len() as int, fee_id, pair).len() ==> #[trigger] payments_upto(
                s,
                s.len() as int,
                fee_id,
                pair,
            )[j].kind == PaymentKind::Investment,
{
    lemma_loss_investments_upto(s, s.len() as int, fee_id, pair);
}

proof fn lemma_loss_investments_upto(s: Seq<Account>, k: int, fee_id: i64, pair: int)
    requires
        0 <= k <= s.len(),
        pair <= 0,
        total_balance(s) > 0,
        forall|i: int| 0 <= i < s.len() ==> #[trigger] s[i].balance >= 0,
    ensures
        forall|j: int|
            0 <= j < payments_upto(s, k, fee_id, pair).len() ==> #[trigger] payments_upto(
                s,
                k,
                fee_id,
                pair,
            )[j].kind == PaymentKind::Investment,
    decreases k,
{
    if k > 0 {
        lemma_loss_investments_upto(s, k - 1, fee_id, pair);
        lemma_loss_share_not_positive(s, k - 1, pair);
        assert(fee_of(s, k - 1, fee_id, pair) == 0);
        let prev = payments_upto(s, k - 1, fee_id, pair);
        assert forall|j: int|
            0 <= j < payments_upto(s, k, fee_id, pair).len() implies #[trigger] payments_upto(
                s,
                k,
                fee_id,
                pair,
            )[j].kind == PaymentKind::Investment by {
            if j < prev.len() {
                assert(payments_upto(s, k, fee_id, pair)[j] == prev[j]);
            }
        }
    }
}

} // verus!
