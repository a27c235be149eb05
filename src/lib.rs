//! Relaying realized trade outcomes to an accounting service and
//! redistributing their profit or loss across a set of accounts.
//!
//! Amounts (sizes, prices, balances, payments) are signed integers in a
//! fixed minor unit; fee fractions are integers in parts per
//! [`distribution::FEE_SCALE`]; timestamps are seconds since the Unix epoch.
pub mod codec;
pub mod distribution;
pub mod model;
pub mod outbox;

pub use codec::{decode, encode};
pub use distribution::{
    distribute, settle, Account, Distribution, DistributionError, Payment, PaymentKind, FEE_SCALE,
};
pub use model::{Message, Pair, Position, Side, Trade};
pub use outbox::{LinkAction, LinkEvent, LinkState, Outbox, RECONNECT_INTERVAL};
