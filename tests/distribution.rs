use accountant::{
    distribute, settle, Account, DistributionError, Message, Pair, Payment, PaymentKind, Position,
    Side, Trade, FEE_SCALE,
};

fn account(id: i64, balance: i64, fee: u32) -> Account {
    Account { id, balance, fee }
}

fn investment(account: i64, amount: i64) -> Payment {
    Payment { account, amount, kind: PaymentKind::Investment }
}

fn fee(account: i64, amount: i64) -> Payment {
    Payment { account, amount, kind: PaymentKind::Fee }
}

fn three_accounts(fee_of_second: u32) -> Vec<Account> {
    vec![account(1, 100, 0), account(2, 200, fee_of_second), account(3, 700, 0)]
}

fn total(accounts: &[Account]) -> i64 {
    accounts.iter().map(|a| a.balance).sum()
}

fn payment_total(payments: &[Payment]) -> i64 {
    payments.iter().map(|p| p.amount).sum()
}

#[test]
fn proportional_split_without_fees() {
    let accounts = three_accounts(0);
    let d = distribute(&accounts, 1, 100).unwrap();
    assert_eq!(d.payments, vec![investment(1, 10), investment(2, 20), investment(3, 70)]);
    assert!(d.payments.iter().all(|p| p.kind == PaymentKind::Investment));
    assert_eq!(d.accounts, vec![account(1, 110, 0), account(2, 220, 0), account(3, 770, 0)]);
}

#[test]
fn fee_is_taken_from_a_gain_and_credited_to_the_fee_account() {
    let accounts = three_accounts(FEE_SCALE / 10);
    let d = distribute(&accounts, 1, 100).unwrap();
    assert_eq!(
        d.payments,
        vec![investment(1, 10), investment(2, 18), fee(1, 2), investment(3, 70)]
    );
    assert_eq!(
        d.accounts,
        vec![account(1, 112, 0), account(2, 218, FEE_SCALE / 10), account(3, 770, 0)]
    );
}

#[test]
fn loss_carries_no_fee() {
    let accounts = vec![
        account(1, 100, FEE_SCALE / 10),
        account(2, 200, FEE_SCALE / 10),
        account(3, 700, FEE_SCALE / 2),
    ];
    let d = distribute(&accounts, 1, -100).unwrap();
    assert_eq!(d.payments, vec![investment(1, -10), investment(2, -20), investment(3, -70)]);
    assert!(d.payments.iter().all(|p| p.kind != PaymentKind::Fee));
    assert_eq!(total(&d.accounts), 900);
}

#[test]
fn fee_account_pays_no_fee_on_its_own_gain() {
    let accounts = vec![account(1, 500, FEE_SCALE / 2), account(2, 500, FEE_SCALE / 2)];
    let d = distribute(&accounts, 1, 100).unwrap();
    assert_eq!(d.payments, vec![investment(1, 50), investment(2, 25), fee(1, 25)]);
    assert_eq!(d.accounts[0].balance, 575);
    assert_eq!(d.accounts[1].balance, 525);
}

#[test]
fn rounding_residue_goes_to_the_fee_account() {
    let accounts = vec![account(7, 1, 0), account(8, 1, 0), account(9, 1, 0)];
    let d = distribute(&accounts, 8, 100).unwrap();
    assert_eq!(d.payments, vec![investment(7, 33), investment(8, 34), investment(9, 33)]);
    assert_eq!(payment_total(&d.payments), 100);
    assert_eq!(total(&d.accounts) - total(&accounts), 100);
}

#[test]
fn negative_shares_round_toward_zero() {
    let accounts = vec![account(1, 1, 0), account(2, 2, 0)];
    let d = distribute(&accounts, 2, -10).unwrap();
    assert_eq!(d.payments, vec![investment(1, -3), investment(2, -7)]);
}

#[test]
fn conservation_on_uneven_split_with_fees() {
    let accounts = vec![
        account(1, 333, 0),
        account(2, 1234, 250_000),
        account(3, 77, 999_999),
        account(4, 5000, 1),
    ];
    let before = total(&accounts);
    let d = distribute(&accounts, 3, 9_999).unwrap();
    assert_eq!(payment_total(&d.payments), 9_999);
    assert_eq!(total(&d.accounts) - before, 9_999);
    // 1234 * 9999 / 6644 = 1857 (toward zero); a quarter of it is 464.
    assert!(d.payments.contains(&investment(2, 1857 - 464)));
    assert!(d.payments.contains(&fee(3, 464)));
}

#[test]
fn zero_total_is_refused() {
    let accounts = vec![account(1, 100, 0), account(2, -100, 0)];
    assert_eq!(distribute(&accounts, 1, 10), Err(DistributionError::ZeroTotal));
    assert_eq!(distribute(&Vec::new(), 1, 10), Err(DistributionError::ZeroTotal));
}

#[test]
fn missing_fee_account_is_refused() {
    let accounts = three_accounts(0);
    assert_eq!(distribute(&accounts, 42, 10), Err(DistributionError::FeeAccount));
}

#[test]
fn duplicated_fee_account_is_refused() {
    let accounts = vec![account(1, 100, 0), account(1, 200, 0)];
    assert_eq!(distribute(&accounts, 1, 10), Err(DistributionError::FeeAccount));
}

#[test]
fn overflow_is_refused() {
    let accounts = vec![account(1, i64::MAX, 0), account(2, -i64::MAX + 1, 0)];
    assert_eq!(distribute(&accounts, 1, 10), Err(DistributionError::Overflow));
    let accounts = vec![account(1, i64::MAX - 5, 0)];
    assert_eq!(distribute(&accounts, 1, 10), Err(DistributionError::Overflow));
    assert_eq!(
        distribute(&three_accounts(0), 1, i64::MAX as i128 + 1),
        Err(DistributionError::Overflow)
    );
}

#[test]
fn largest_pair_balance_is_accepted() {
    let accounts = vec![account(1, 1, 0)];
    let d = distribute(&accounts, 1, i64::MAX as i128 - 1).unwrap();
    assert_eq!(d.payments, vec![investment(1, i64::MAX - 1)]);
    assert_eq!(d.accounts, vec![account(1, i64::MAX, 0)]);
}

fn trade(side: Side, size: i64, bot: &str) -> Trade {
    Trade {
        exchange: "ftx".to_string(),
        market: "BTC-PERP".to_string(),
        side,
        size,
        price: 40_000,
        date: 1_600_000_000,
        bot: bot.to_string(),
    }
}

fn pair(long_bot: &str, short_bot: &str) -> Pair {
    Pair {
        long: Position { enter: trade(Side::Buy, 10, long_bot), exit: trade(Side::Sell, 70, long_bot) },
        short: Position {
            enter: trade(Side::Sell, 50, short_bot),
            exit: trade(Side::Buy, 10, short_bot),
        },
    }
}

#[test]
fn settle_distributes_the_pair_balance() {
    let accounts = three_accounts(0);
    let d = settle(&Message::Pair(pair("a", "a")), &accounts, 1).unwrap();
    assert_eq!(d.payments, vec![investment(1, 10), investment(2, 20), investment(3, 70)]);
}

#[test]
fn settle_refuses_a_pair_of_two_bots() {
    let accounts = three_accounts(0);
    assert_eq!(
        settle(&Message::Pair(pair("a", "b")), &accounts, 1),
        Err(DistributionError::InvalidPair)
    );
}

#[test]
fn settle_refuses_a_nonpositive_size() {
    let mut p = pair("a", "a");
    p.short.exit.size = 0;
    assert_eq!(
        settle(&Message::Pair(p), &three_accounts(0), 1),
        Err(DistributionError::InvalidPair)
    );
}
