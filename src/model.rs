//! Trades, positions and pairs, and their signed cash-flow balances.
use vstd::prelude::*;

verus! {

/// Direction of one fill.
#[derive(Clone, Copy, Debug, PartialEq, Eq, Structural)]
pub enum Side {
    Buy,
    Sell,
}

/// One fill on an exchange.
#[derive(Clone, Debug, PartialEq, Eq)]
pub struct Trade {
    pub exchange: String,
    pub market: String,
    pub side: Side,
    /// Quantity in minor units; positive in a well-formed trade.
    pub size: i64,
    /// Price in minor units; positive in a well-formed trade.
    pub price: i64,
    /// Seconds since the Unix epoch, UTC.
    pub date: i64,
    pub bot: String,
}

/// One leg of a pair: the trade that opened it and the one that closed it.
#[derive(Clone, Debug, PartialEq, Eq)]
pub struct Position {
    pub enter: Trade,
    pub exit: Trade,
}

/// A complete round trip: a long leg and a short leg of one bot.
#[derive(Clone, Debug, PartialEq, Eq)]
pub struct Pair {
    pub long: Position,
    pub short: Position,
}

/// An event sent from a bot to the accounting service.
#[derive(Clone, Debug, PartialEq, Eq)]
pub enum Message {
    Pair(Pair),
}

pub struct TradeView {
    pub exchange: Seq<char>,
    pub market: Seq<char>,
    pub side: Side,
    pub size: i64,
    pub price: i64,
    pub date: i64,
    pub bot: Seq<char>,
}

pub struct PositionView {
    pub enter: TradeView,
    pub exit: TradeView,
}

pub struct PairView {
    pub long: PositionView,
    pub short: PositionView,
}

pub enum MessageView {
    Pair(PairView),
}

impl View for Trade {
    type V = TradeView;

    open spec fn view(&self) -> TradeView {
        TradeView {
            exchange: self.exchange@,
            market: self.market@,
            side: self.side,
            size: self.size,
            price: self.price,
            date: self.date,
            bot: self.bot@,
        }
    }
}

impl View for Position {
    type V = PositionView;

    open spec fn view(&self) -> PositionView {
        PositionView { enter: self.enter@, exit: self.exit@ }
    }
}

impl View for Pair {
    type V = PairView;

    open spec fn view(&self) -> PairView {
        PairView { long: self.long@, short: self.short@ }
    }
}

impl View for Message {
    type V = MessageView;

    open spec fn view(&self) -> MessageView {
        match self {
            Message::Pair(p) => MessageView::Pair(p@),
        }
    }
}

/// Signed cash flow of a trade: buying pays out, selling takes in.
pub open spec fn trade_balance(t: Trade) -> int {
    match t.side {
        Side::Buy => -t.size,
        Side::Sell => t.size as int,
    }
}

pub open spec fn position_balance(p: Position) -> int {
    trade_balance(p.enter) + trade_balance(p.exit)
}

pub open spec fn pair_balance(p: Pair) -> int {
    position_balance(p.long) + position_balance(p.short)
}

impl Trade {
    pub open spec fn wf(self) -> bool {
        self.size > 0 && self.price > 0
    }

    /// Whether size and price are both positive.
    pub fn is_valid(&self) -> (r: bool)
        ensures
            r == self.wf(),
    {
        self.size > 0 && self.price > 0
    }

    /// The trade's signed cash flow: `-size` for a buy, `size` for a sell.
    pub fn balance(&self) -> (r: i64)
        requires
            self.wf(),
        ensures
            r == trade_balance(*self),
            self.side == Side::Buy ==> r == -self.size,
            self.side == Side::Sell ==> r == self.size,
    {
        match self.side {
            Side::Buy => -self.size,
            Side::Sell => self.size,
        }
    }
}

impl Position {
    /// Both trades are well formed and share exchange, market and bot.
    pub open spec fn wf(self) -> bool {
        &&& self.enter.wf()
        &&& self.exit.wf()
        &&& self.enter.exchange@ == self.exit.exchange@
        &&& self.enter.market@ == self.exit.market@
        &&& self.enter.bot@ == self.exit.bot@
    }

    pub fn is_valid(&self) -> (r: bool)
        ensures
            r == self.wf(),
    {
        self.enter.is_valid() && self.exit.is_valid() && self.enter.exchange == self.exit.exchange
            && self.enter.market == self.exit.market && self.enter.bot == self.exit.bot
    }

    /// Sum of the two trades' balances.
    pub fn balance(&self) -> (r: i128)
        requires
            self.enter.wf(),
            self.exit.wf(),
        ensures
            r == position_balance(*self),
            r == trade_balance(self.enter) + trade_balance(self.exit),
    {
        self.enter.balance() as i128 + self.exit.balance() as i128
    }
}

impl Pair {
    /// Both legs are well formed and belong to the same bot.
    pub open spec fn wf(self) -> bool {
        &&& self.long.wf()
        &&& self.short.wf()
        &&& self.long.enter.bot@ == self.short.enter.bot@
    }

    pub fn is_valid(&self) -> (r: bool)
        ensures
            r == self.wf(),
    {
        self.long.is_valid() && self.short.is_valid() && self.long.enter.bot == self.short.enter.bot
    }

    /// Sum of the two legs' balances: the realized profit or loss.
    pub fn balance(&self) -> (r: i128)
        requires
            self.long.enter.wf(),
            self.long.exit.wf(),
            self.short.enter.wf(),
            self.short.exit.wf(),
        ensures
            r == pair_balance(*self),
            r == position_balance(self.long) + position_balance(self.short),
    {
        self.long.balance() + self.short.balance()
    }
}

} // verus!
