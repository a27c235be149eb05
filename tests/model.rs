use accountant::{Pair, Position, Side, Trade};

fn trade(side: Side, size: i64, market: &str) -> Trade {
    Trade {
        exchange: "binance".to_string(),
        market: market.to_string(),
        side,
        size,
        price: 12,
        date: 0,
        bot: "grid".to_string(),
    }
}

#[test]
fn buy_balance_is_negative_size() {
    assert_eq!(trade(Side::Buy, 25, "ETH").balance(), -25);
}

#[test]
fn sell_balance_is_size() {
    assert_eq!(trade(Side::Sell, 25, "ETH").balance(), 25);
}

#[test]
fn position_balance_adds_its_trades() {
    let p = Position { enter: trade(Side::Buy, 30, "ETH"), exit: trade(Side::Sell, 45, "ETH") };
    assert_eq!(p.balance(), 15);
    assert_eq!(p.balance(), p.enter.balance() as i128 + p.exit.balance() as i128);
}

#[test]
fn pair_balance_adds_its_positions() {
    let long = Position { enter: trade(Side::Buy, 30, "ETH"), exit: trade(Side::Sell, 45, "ETH") };
    let short = Position { enter: trade(Side::Sell, 20, "ETH"), exit: trade(Side::Buy, 26, "ETH") };
    let p = Pair { long, short };
    assert_eq!(p.balance(), 9);
    assert_eq!(p.balance(), p.long.balance() + p.short.balance());
}

#[test]
fn extreme_sizes_do_not_overflow() {
    let long = Position {
        enter: trade(Side::Sell, i64::MAX, "ETH"),
        exit: trade(Side::Sell, i64::MAX, "ETH"),
    };
    let short = long.clone();
    assert_eq!(Pair { long, short }.balance(), 4 * i64::MAX as i128);
}

#[test]
fn position_checks_its_trades_agree() {
    let ok = Position { enter: trade(Side::Buy, 1, "ETH"), exit: trade(Side::Sell, 1, "ETH") };
    assert!(ok.is_valid());
    let mixed = Position { enter: trade(Side::Buy, 1, "ETH"), exit: trade(Side::Sell, 1, "BTC") };
    assert!(!mixed.is_valid());
    let empty = Position { enter: trade(Side::Buy, 0, "ETH"), exit: trade(Side::Sell, 1, "ETH") };
    assert!(!empty.is_valid());
}
