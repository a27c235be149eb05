//! The wire format: one encoded event per connection.
//!
//! Integers are eight bytes little-endian (`i64` as its two's-complement
//! `u64`); a string is its UTF-8 length as such an integer, then its UTF-8
//! bytes; a side is one byte, 0 for buy and 1 for sell. A trade is its
//! exchange, market, side, size, price, date and bot in that order; a
//! position its enter and exit trades; a pair its long and short positions;
//! a message a tag byte (0 for a pair) followed by its pair. A payload must
//! hold exactly one message and nothing after it.
use crate::model::{Message, MessageView, Pair, PairView, Position, PositionView, Side, Trade, TradeView};
use vstd::bytes::{
    lemma_auto_spec_u64_to_from_le_bytes, spec_u64_from_le_bytes, spec_u64_to_le_bytes,
    u64_from_le_bytes, u64_to_le_bytes,
};
use vstd::prelude::*;
use vstd::slice::{slice_subrange, slice_to_vec};
use vstd::utf8::{
    decode_utf8, decode_utf8_encode_utf8, encode_utf8, encode_utf8_decode_utf8, encode_utf8_valid_utf8,
    valid_utf8,
};

verus! {

pub open spec fn int_bytes(x: i64) -> Seq<u8> {
    spec_u64_to_le_bytes(x as u64)
}

pub open spec fn str_bytes(s: Seq<char>) -> Seq<u8> {
    spec_u64_to_le_bytes(encode_utf8(s).len() as u64) + encode_utf8(s)
}

pub open spec fn side_byte(s: Side) -> u8 {
    match s {
        Side::Buy => 0,
        Side::Sell => 1,
    }
}

pub open spec fn trade_bytes(t: TradeView) -> Seq<u8> {
    str_bytes(t.exchange) + str_bytes(t.market) + seq![side_byte(t.side)] + int_bytes(t.size)
        + int_bytes(t.price) + int_bytes(t.date) + str_bytes(t.bot)
}

pub open spec fn position_bytes(p: PositionView) -> Seq<u8> {
    trade_bytes(p.enter) + trade_bytes(p.exit)
}

pub open spec fn pair_bytes(p: PairView) -> Seq<u8> {
    position_bytes(p.long) + position_bytes(p.short)
}

/// The encoding of a message.
pub open spec fn message_bytes(m: MessageView) -> Seq<u8> {
    match m {
        MessageView::Pair(p) => seq![0u8] + pair_bytes(p),
    }
}

/// Every string of the message has a UTF-8 length that fits its length field.
pub open spec fn str_fits(s: Seq<char>) -> bool {
    encode_utf8(s).len() <= u64::MAX
}

pub open spec fn trade_fits(t: TradeView) -> bool {
    str_fits(t.exchange) && str_fits(t.market) && str_fits(t.bot)
}

pub open spec fn message_fits(m: MessageView) -> bool {
    match m {
        MessageView::Pair(p) => trade_fits(p.long.enter) && trade_fits(p.long.exit) && trade_fits(
            p.short.enter,
        ) && trade_fits(p.short.exit),
    }
}

pub open spec fn parse_int(b: Seq<u8>) -> Option<(i64, Seq<u8>)> {
    if b.len() >= 8 {
        Some((spec_u64_from_le_bytes(b.subrange(0, 8)) as i64, b.subrange(8, b.len() as int)))
    } else {
        None
    }
}

pub open spec fn parse_str(b: Seq<u8>) -> Option<(Seq<char>, Seq<u8>)> {
    if b.len() >= 8 {
        let n = spec_u64_from_le_bytes(b.subrange(0, 8)) as int;
        let r = b.subrange(8, b.len() as int);
        if n <= r.len() && valid_utf8(r.subrange(0, n)) {
            Some((decode_utf8(r.subrange(0, n)), r.subrange(n, r.len() as int)))
        } else {
            None
        }
    } else {
        None
    }
}

pub open spec fn parse_side(b: Seq<u8>) -> Option<(Side, Seq<u8>)> {
    if b.len() >= 1 && b[0] == 0 {
        Some((Side::Buy, b.drop_first()))
    } else if b.len() >= 1 && b[0] == 1 {
        Some((Side::Sell, b.drop_first()))
    } else {
        None
    }
}

#[verifier::opaque]
pub open spec fn parse_trade(b: Seq<u8>) -> Option<(TradeView, Seq<u8>)> {
    match parse_str(b) {
        None => None,
        Some((exchange, b)) => match parse_str(b) {
            None => None,
            Some((market, b)) => match parse_side(b) {
                None => None,
                Some((side, b)) => match parse_int(b) {
                    None => None,
                    Some((size, b)) => match parse_int(b) {
                        None => None,
                        Some((price, b)) => match parse_int(b) {
                            None => None,
                            Some((date, b)) => match parse_str(b) {
                                None => None,
                                Some((bot, b)) => Some(
                                    (TradeView { exchange, market, side, size, price, date, bot }, b),
                                ),
                            },
                        },
                    },
                },
            },
        },
    }
}

#[verifier::opaque]
pub open spec fn parse_position(b: Seq<u8>) -> Option<(PositionView, Seq<u8>)> {
    match parse_trade(b) {
        None => None,
        Some((enter, b)) => match parse_trade(b) {
            None => None,
            Some((exit, b)) => Some((PositionView { enter, exit }, b)),
        },
    }
}

pub open spec fn parse_pair(b: Seq<u8>) -> Option<(PairView, Seq<u8>)> {
    match parse_position(b) {
        None => None,
        Some((long, b)) => match parse_position(b) {
            None => None,
            Some((short, b)) => Some((PairView { long, short }, b)),
        },
    }
}

/// The message a payload holds, if it holds exactly one.
pub open spec fn parse_message(b: Seq<u8>) -> Option<MessageView> {
    if b.len() >= 1 && b[0] == 0 {
        match parse_pair(b.drop_first()) {
            Some((p, rest)) => if rest.len() == 0 {
                Some(MessageView::Pair(p))
            } else {
                None
            },
            None => None,
        }
    } else {
        None
    }
}

} // verus!

verus! {

proof fn lemma_parse_int(x: i64, rest: Seq<u8>)
    ensures
        parse_int(int_bytes(x) + rest) == Some((x, rest)),
{
    lemma_auto_spec_u64_to_from_le_bytes();
    let b = int_bytes(x) + rest;
    assert(b.subrange(0, 8) =~= int_bytes(x));
    assert(b.subrange(8, b.len() as int) =~= rest);
    assert((x as u64) as i64 == x) by (bit_vector);
}

proof fn lemma_parse_str(s: Seq<char>, rest: Seq<u8>)
    requires
        str_fits(s),
    ensures
        parse_str(str_bytes(s) + rest) == Some((s, rest)),
{
    lemma_auto_spec_u64_to_from_le_bytes();
    encode_utf8_valid_utf8(s);
    encode_utf8_decode_utf8(s);
    let e = encode_utf8(s);
    let b = str_bytes(s) + rest;
    assert(b.subrange(0, 8) =~= spec_u64_to_le_bytes(e.len() as u64));
    let r = b.subrange(8, b.len() as int);
    assert(r =~= e + rest);
    assert(r.subrange(0, e.len() as int) =~= e);
    assert(r.subrange(e.len() as int, r.len() as int) =~= rest);
}

proof fn lemma_parse_side(s: Side, rest: Seq<u8>)
    ensures
        parse_side(seq![side_byte(s)] + rest) == Some((s, rest)),
{
    assert((seq![side_byte(s)] + rest).drop_first() =~= rest);
}

#[verifier::spinoff_prover]
proof fn lemma_parse_trade(t: TradeView, rest: Seq<u8>)
    requires
        trade_fits(t),
    ensures
        parse_trade(trade_bytes(t) + rest) == Some((t, rest)),
{
    let r7 = str_bytes(t.bot) + rest;
    let r6 = int_bytes(t.date) + r7;
    let r5 = int_bytes(t.price) + r6;
    let r4 = int_bytes(t.size) + r5;
    let r3 = seq![side_byte(t.side)] + r4;
    let r2 = str_bytes(t.market) + r3;
    reveal(parse_trade);
    assert(trade_bytes(t) + rest =~= str_bytes(t.exchange) + r2);
    lemma_parse_str(t.exchange, r2);
    lemma_parse_str(t.market, r3);
    lemma_parse_side(t.side, r4);
    lemma_parse_int(t.size, r5);
    lemma_parse_int(t.price, r6);
    lemma_parse_int(t.date, r7);
    lemma_parse_str(t.bot, rest);
}

proof fn lemma_parse_position(p: PositionView, rest: Seq<u8>)
    requires
        trade_fits(p.enter),
        trade_fits(p.exit),
    ensures
        parse_position(position_bytes(p) + rest) == Some((p, rest)),
{
    reveal(parse_position);
    assert(position_bytes(p) + rest =~= trade_bytes(p.enter) + (trade_bytes(p.exit) + rest));
    lemma_parse_trade(p.enter, trade_bytes(p.exit) + rest);
    lemma_parse_trade(p.exit, rest);
}

/// Decoding an encoded message gives back that message.
pub proof fn lemma_round_trip(m: MessageView)
    requires
        message_fits(m),
    ensures
        parse_message(message_bytes(m)) == Some(m),
{
    match m {
        MessageView::Pair(p) => {
            let empty = Seq::<u8>::empty();
            assert(pair_bytes(p) + empty =~= position_bytes(p.long) + (position_bytes(p.short)
                + empty));
            lemma_parse_position(p.long, position_bytes(p.short) + empty);
            lemma_parse_position(p.short, empty);
            assert(message_bytes(m).drop_first() =~= pair_bytes(p) + empty);
        },
    }
}

} // verus!

verus! {

/// Relies on std's `String::from_utf8`: it succeeds exactly on well-formed
/// UTF-8, and the string it returns holds the characters those bytes encode.
#[verifier::external_body]
fn string_from_utf8(bytes: Vec<u8>) -> (r: Option<String>)
    ensures
        r is Some <==> valid_utf8(bytes@),
        r matches Some(s) ==> s@ == decode_utf8(bytes@),
{
    String::from_utf8(bytes).ok()
}

fn put_bytes(out: &mut Vec<u8>, b: &[u8])
    ensures
        final(out)@ == old(out)@ + b@,
{
    let mut i: usize = 0;
    while i < b.len()
        invariant
            0 <= i <= b@.len(),
            out@ == old(out)@ + b@.subrange(0, i as int),
        decreases b@.len() - i,
    {
        out.push(b[i]);
        i = i + 1;
        assert(out@ =~= old(out)@ + b@.subrange(0, i as int));
    }
    assert(b@.subrange(0, b@.len() as int) =~= b@);
}

fn put_int(out: &mut Vec<u8>, x: i64)
    ensures
        final(out)@ == old(out)@ + int_bytes(x),
{
    let b = u64_to_le_bytes(x as u64);
    put_bytes(out, b.as_slice());
}

fn put_str(out: &mut Vec<u8>, s: &String)
    ensures
        final(out)@ == old(out)@ + str_bytes(s@),
{
    let bytes = s.as_str().as_bytes();
    let n = u64_to_le_bytes(bytes.len() as u64);
    put_bytes(out, n.as_slice());
    put_bytes(out, bytes);
    assert(final(out)@ =~= old(out)@ + str_bytes(s@));
}

fn put_trade(out: &mut Vec<u8>, t: &Trade)
    ensures
        final(out)@ == old(out)@ + trade_bytes(t@),
{
    put_str(out, &t.exchange);
    put_str(out, &t.market);
    match t.side {
        Side::Buy => out.push(0),
        Side::Sell => out.push(1),
    }
    put_int(out, t.size);
    put_int(out, t.price);
    put_int(out, t.date);
    put_str(out, &t.bot);
    assert(final(out)@ =~= old(out)@ + trade_bytes(t@));
}

fn put_position(out: &mut Vec<u8>, p: &Position)
    ensures
        final(out)@ == old(out)@ + position_bytes(p@),
{
    put_trade(out, &p.enter);
    put_trade(out, &p.exit);
    assert(final(out)@ =~= old(out)@ + position_bytes(p@));
}

/// The bytes that carry `m` over the wire.
pub fn encode(m: &Message) -> (r: Vec<u8>)
    ensures
        r@ == message_bytes(m@),
{
    let mut out: Vec<u8> = Vec::new();
    match m {
        Message::Pair(p) => {
            out.push(0);
            put_position(&mut out, &p.long);
            put_position(&mut out, &p.short);
            assert(out@ =~= message_bytes(m@));
        },
    }
    out
}

pub open spec fn tail(b: Seq<u8>, pos: int) -> Seq<u8> {
    b.subrange(pos, b.len() as int)
}

fn get_int(b: &[u8], pos: usize) -> (r: Option<(i64, usize)>)
    requires
        pos <= b@.len(),
    ensures
        r is None <==> parse_int(tail(b@, pos as int)) is None,
        r matches Some((x, p)) ==> p <= b@.len() && parse_int(tail(b@, pos as int)) == Some(
            (x, tail(b@, p as int)),
        ),
{
    if b.len() - pos >= 8 {
        let x = u64_from_le_bytes(slice_subrange(b, pos, pos + 8));
        assert(tail(b@, pos as int).subrange(0, 8) =~= b@.subrange(pos as int, pos + 8));
        assert(tail(b@, pos as int).subrange(8, tail(b@, pos as int).len() as int) =~= tail(
            b@,
            pos + 8,
        ));
        Some((x as i64, pos + 8))
    } else {
        None
    }
}

fn get_str(b: &[u8], pos: usize) -> (r: Option<(String, usize)>)
    requires
        pos <= b@.len(),
    ensures
        r is None <==> parse_str(tail(b@, pos as int)) is None,
        r matches Some((s, p)) ==> p <= b@.len() && parse_str(tail(b@, pos as int)) == Some(
            (s@, tail(b@, p as int)),
        ),
{
    if b.len() - pos < 8 {
        return None;
    }
    let n = u64_from_le_bytes(slice_subrange(b, pos, pos + 8));
    let ghost t = tail(b@, pos as int);
    let ghost r = t.subrange(8, t.len() as int);
    assert(t.subrange(0, 8) =~= b@.subrange(pos as int, pos + 8));
    assert(r =~= tail(b@, pos + 8));
    let start = pos + 8;
    if n > (b.len() - start) as u64 {
        return None;
    }
    let end = start + n as usize;
    let bytes = slice_to_vec(slice_subrange(b, start, end));
    assert(r.subrange(0, n as int) =~= bytes@);
    assert(r.subrange(n as int, r.len() as int) =~= tail(b@, end as int));
    match string_from_utf8(bytes) {
        Some(s) => Some((s, end)),
        None => None,
    }
}

fn get_side(b: &[u8], pos: usize) -> (r: Option<(Side, usize)>)
    requires
        pos <= b@.len(),
    ensures
        r is None <==> parse_side(tail(b@, pos as int)) is None,
        r matches Some((s, p)) ==> p <= b@.len() && parse_side(tail(b@, pos as int)) == Some(
            (s, tail(b@, p as int)),
        ),
{
    if pos >= b.len() {
        return None;
    }
    assert(tail(b@, pos as int).drop_first() =~= tail(b@, pos + 1));
    if b[pos] == 0 {
        Some((Side::Buy, pos + 1))
    } else if b[pos] == 1 {
        Some((Side::Sell, pos + 1))
    } else {
        None
    }
}

fn get_trade(b: &[u8], pos: usize) -> (r: Option<(Trade, usize)>)
    requires
        pos <= b@.len(),
    ensures
        r is None <==> parse_trade(tail(b@, pos as int)) is None,
        r matches Some((t, p)) ==> p <= b@.len() && parse_trade(tail(b@, pos as int)) == Some(
            (t@, tail(b@, p as int)),
        ),
{
    reveal(parse_trade);
    let (exchange, pos) = match get_str(b, pos) {
        Some(x) => x,
        None => return None,
    };
    let (market, pos) = match get_str(b, pos) {
        Some(x) => x,
        None => return None,
    };
    let (side, pos) = match get_side(b, pos) {
        Some(x) => x,
        None => return None,
    };
    let (size, pos) = match get_int(b, pos) {
        Some(x) => x,
        None => return None,
    };
    let (price, pos) = match get_int(b, pos) {
        Some(x) => x,
        None => return None,
    };
    let (date, pos) = match get_int(b, pos) {
        Some(x) => x,
        None => return None,
    };
    let (bot, pos) = match get_str(b, pos) {
        Some(x) => x,
        None => return None,
    };
    Some((Trade { exchange, market, side, size, price, date, bot }, pos))
}

fn get_position(b: &[u8], pos: usize) -> (r: Option<(Position, usize)>)
    requires
        pos <= b@.len(),
    ensures
        r is None <==> parse_position(tail(b@, pos as int)) is None,
        r matches Some((x, p)) ==> p <= b@.len() && parse_position(tail(b@, pos as int)) == Some(
            (x@, tail(b@, p as int)),
        ),
{
    reveal(parse_position);
    let (enter, pos) = match get_trade(b, pos) {
        Some(x) => x,
        None => return None,
    };
    let (exit, pos) = match get_trade(b, pos) {
        Some(x) => x,
        None => return None,
    };
    Some((Position { enter, exit }, pos))
}

fn get_message(b: &[u8]) -> (r: Option<Message>)
    ensures
        r is None <==> parse_message(b@) is None,
        r matches Some(m) ==> parse_message(b@) == Some(m@),
{
    if b.len() < 1 || b[0] != 0 {
        return None;
    }
    assert(b@.drop_first() =~= tail(b@, 1));
    let (long, pos) = match get_position(b, 1) {
        Some(x) => x,
        None => return None,
    };
    let (short, pos) = match get_position(b, pos) {
        Some(x) => x,
        None => return None,
    };
    if pos != b.len() {
        return None;
    }
    Some(Message::Pair(Pair { long, short }))
}

/// The message that `b` holds, or `None` when `b` is not exactly the
/// encoding of one message.
pub fn decode(b: &[u8]) -> (r: Option<Message>)
    ensures
        r matches Some(m) ==> message_bytes(m@) == b@,
        r is None ==> forall|m: MessageView| message_fits(m) ==> message_bytes(m) != b@,
        r is None <==> parse_message(b@) is None,
        r matches Some(m) ==> parse_message(b@) == Some(m@),
{
    let r = get_message(b);
    proof {
        if r is Some {
            lemma_decode_sound(b@);
        } else {
            assert forall|m: MessageView| message_fits(m) implies message_bytes(m) != b@ by {
                lemma_round_trip(m);
            }
        }
    }
    r
}

} // verus!

verus! {

proof fn lemma_int_sound(b: Seq<u8>)
    requires
        parse_int(b) is Some,
    ensures
        b == int_bytes(parse_int(b).unwrap().0) + parse_int(b).unwrap().1,
{
    lemma_auto_spec_u64_to_from_le_bytes();
    let u = spec_u64_from_le_bytes(b.subrange(0, 8));
    assert((u as i64) as u64 == u) by (bit_vector);
    assert(spec_u64_to_le_bytes(spec_u64_from_le_bytes(b.subrange(0, 8))) == b.subrange(0, 8));
    assert(b =~= b.subrange(0, 8) + b.subrange(8, b.len() as int));
}

proof fn lemma_str_sound(b: Seq<u8>)
    requires
        parse_str(b) is Some,
    ensures
        b == str_bytes(parse_str(b).unwrap().0) + parse_str(b).unwrap().1,
        str_fits(parse_str(b).unwrap().0),
{
    lemma_auto_spec_u64_to_from_le_bytes();
    let n = spec_u64_from_le_bytes(b.subrange(0, 8));
    let r = b.subrange(8, b.len() as int);
    let x = r.subrange(0, n as int);
    decode_utf8_encode_utf8(x);
    assert(spec_u64_to_le_bytes(spec_u64_from_le_bytes(b.subrange(0, 8))) == b.subrange(0, 8));
    assert(encode_utf8(decode_utf8(x)).len() as u64 == n);
    assert(b =~= b.subrange(0, 8) + x + r.subrange(n as int, r.len() as int));
}

proof fn lemma_side_sound(b: Seq<u8>)
    requires
        parse_side(b) is Some,
    ensures
        b == seq![side_byte(parse_side(b).unwrap().0)] + parse_side(b).unwrap().1,
{
    assert(b =~= seq![b[0]] + b.drop_first());
}

#[verifier::spinoff_prover]
#[verifier::rlimit(40)]
proof fn lemma_trade_sound(b: Seq<u8>)
    requires
        parse_trade(b) is Some,
    ensures
        b == trade_bytes(parse_trade(b).unwrap().0) + parse_trade(b).unwrap().1,
        trade_fits(parse_trade(b).unwrap().0),
{
    reveal(parse_trade);
    let (exchange, b1) = parse_str(b).unwrap();
    let (market, b2) = parse_str(b1).unwrap();
    let (side, b3) = parse_side(b2).unwrap();
    let (size, b4) = parse_int(b3).unwrap();
    let (price, b5) = parse_int(b4).unwrap();
    let (date, b6) = parse_int(b5).unwrap();
    let (bot, b7) = parse_str(b6).unwrap();
    let t = TradeView { exchange, market, side, size, price, date, bot };
    assert(parse_trade(b) == Some((t, b7)));
    lemma_str_sound(b);
    lemma_str_sound(b1);
    lemma_side_sound(b2);
    lemma_int_sound(b3);
    lemma_int_sound(b4);
    lemma_int_sound(b5);
    lemma_str_sound(b6);
    assert(b =~= trade_bytes(t) + b7);
}

proof fn lemma_position_sound(b: Seq<u8>)
    requires
        parse_position(b) is Some,
    ensures
        b == position_bytes(parse_position(b).unwrap().0) + parse_position(b).unwrap().1,
        trade_fits(parse_position(b).unwrap().0.enter),
        trade_fits(parse_position(b).unwrap().0.exit),
{
    reveal(parse_position);
    lemma_trade_sound(b);
    let b1 = parse_trade(b).unwrap().1;
    lemma_trade_sound(b1);
    assert(b =~= position_bytes(parse_position(b).unwrap().0) + parse_position(b).unwrap().1);
}

/// A payload decodes to a message only if it is exactly that message's encoding.
pub proof fn lemma_decode_sound(b: Seq<u8>)
    requires
        parse_message(b) is Some,
    ensures
        message_bytes(parse_message(b)->0) == b,
        message_fits(parse_message(b)->0),
{
    let b0 = b.drop_first();
    lemma_position_sound(b0);
    let b1 = parse_position(b0).unwrap().1;
    lemma_position_sound(b1);
    assert(b =~= message_bytes(parse_message(b)->0));
}

} // verus!
