use accountant::{decode, encode, Message, Pair, Position, Side, Trade};

fn trade(exchange: &str, side: Side, size: i64, date: i64, bot: &str) -> Trade {
    Trade {
        exchange: exchange.to_string(),
        market: "BTC-PERP".to_string(),
        side,
        size,
        price: 41_250,
        date,
        bot: bot.to_string(),
    }
}

fn sample() -> Message {
    Message::Pair(Pair {
        long: Position {
            enter: trade("ftx", Side::Buy, 3, 1_600_000_000, "mean-revert"),
            exit: trade("ftx", Side::Sell, 3, 1_600_000_060, "mean-revert"),
        },
        short: Position {
            enter: trade("kraken", Side::Sell, i64::MAX, -5, "mean-revert"),
            exit: trade("kraken", Side::Buy, 1, i64::MIN, "mean-revert"),
        },
    })
}

#[test]
fn decode_inverts_encode() {
    let m = sample();
    assert_eq!(decode(&encode(&m)), Some(m));
}

#[test]
fn decode_inverts_encode_with_unicode_and_empty_strings() {
    let m = Message::Pair(Pair {
        long: Position {
            enter: trade("", Side::Buy, 1, 0, "ботé🚀"),
            exit: trade("", Side::Sell, 2, 0, "ботé🚀"),
        },
        short: Position {
            enter: trade("交易所", Side::Sell, 1, 0, "ботé🚀"),
            exit: trade("交易所", Side::Buy, 2, 0, "ботé🚀"),
        },
    });
    assert_eq!(decode(&encode(&m)), Some(m));
}

#[test]
fn encoding_layout() {
    let bytes = encode(&sample());
    assert_eq!(bytes[0], 0);
    // exchange "ftx": length 3 as eight little-endian bytes, then the text
    assert_eq!(&bytes[1..9], &[3, 0, 0, 0, 0, 0, 0, 0]);
    assert_eq!(&bytes[9..12], b"ftx");
    // market "BTC-PERP"
    assert_eq!(&bytes[12..20], &[8, 0, 0, 0, 0, 0, 0, 0]);
    assert_eq!(&bytes[20..28], b"BTC-PERP");
    // side: buy
    assert_eq!(bytes[28], 0);
    // size 3
    assert_eq!(&bytes[29..37], &[3, 0, 0, 0, 0, 0, 0, 0]);
}

#[test]
fn decode_refuses_trailing_bytes() {
    let mut bytes = encode(&sample());
    bytes.push(0);
    assert_eq!(decode(&bytes), None);
}

#[test]
fn decode_refuses_truncated_payload() {
    let bytes = encode(&sample());
    for n in [0, 1, 5, 9, 40, bytes.len() - 1] {
        assert_eq!(decode(&bytes[..n]), None);
    }
}

#[test]
fn decode_refuses_unknown_tag_and_side() {
    let mut bytes = encode(&sample());
    bytes[0] = 1;
    assert_eq!(decode(&bytes), None);
    let mut bytes = encode(&sample());
    bytes[28] = 2;
    assert_eq!(decode(&bytes), None);
}

#[test]
fn decode_refuses_invalid_utf8() {
    let mut bytes = encode(&sample());
    bytes[9] = 0xff;
    assert_eq!(decode(&bytes), None);
}

#[test]
fn decode_refuses_overlong_length() {
    let mut bytes = encode(&sample());
    bytes[8] = 0xff;
    assert_eq!(decode(&bytes), None);
}
