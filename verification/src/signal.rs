//! The bookkeeping of the trading signal: when a position is opened and
//! closed, and the counts of the trades made. Prices and indicators are the
//! caller's; what it reads off them reaches this module as plain answers.

use vstd::prelude::*;

verus! {

/// The number of updates a signal has to see before it may buy.
pub const WARM_UP_UPDATES: u64 = 201;

/// The age in seconds from which an open position is sold whatever its
/// price: sixty days.
pub const MAX_HOLDING_SECONDS: i64 = 5_184_000;

/// The symbol a signal is kept for.
#[derive(Debug, Clone, PartialEq, Eq)]
pub struct SymbolInfo {
    pub name: String,
}

/// What the caller reads off one kline.
#[derive(Clone, Copy, Debug, PartialEq, Eq, Structural)]
pub struct Reading {
    /// The opening time of the kline, in seconds.
    pub seconds: i64,
    /// The close lies above the shortest average and each average above the
    /// next longer one.
    pub rising: bool,
    /// The strength index lies above its upper bound.
    pub overbought: bool,
    /// The price has risen by the target gain since the position was opened.
    pub gain_reached: bool,
    /// The price lies above the price the position was opened at.
    pub in_profit: bool,
}

/// What a signal does on an update.
#[derive(Clone, Copy, Debug, PartialEq, Eq, Structural)]
pub enum Trade {
    /// Nothing.
    Hold,
    /// Open a position.
    Buy,
    /// Close the position at the target gain.
    SellAtGain,
    /// Close the position because of its age, at a profit or at a loss.
    SellForAge { in_profit: bool },
}

/// The counts of a signal and the state of its position.
#[derive(Clone, Copy, Debug, PartialEq, Eq, Structural)]
pub struct TradeLedger {
    pub updates: u64,
    pub total_buys: u64,
    pub total_sells: u64,
    pub total_profitable_sells: u64,
    pub total_stoploss_sells: u64,
    /// Whether a position is open.
    pub holding: bool,
    /// When the latest position was opened, in seconds.
    pub latest_buy_seconds: Option<i64>,
    /// When the latest position was closed by an update, in seconds.
    pub latest_sell_seconds: Option<i64>,
}

/// One more, up to the largest count.
pub open spec fn bumped(count: u64) -> u64 {
    if count < u64::MAX {
        (count + 1) as u64
    } else {
        count
    }
}

/// Executable form of [`bumped`].
fn bump(count: u64) -> (next: u64)
    ensures
        next == bumped(count),
{
    if count < u64::MAX {
        count + 1
    } else {
        count
    }
}

impl TradeLedger {
    /// The ledger of a signal that has seen nothing.
    pub open spec fn fresh() -> TradeLedger {
        TradeLedger {
            updates: 0,
            total_buys: 0,
            total_sells: 0,
            total_profitable_sells: 0,
            total_stoploss_sells: 0,
            holding: false,
            latest_buy_seconds: None,
            latest_sell_seconds: None,
        }
    }

    /// The counts add up: every sale was at a profit or at a loss, every
    /// position bought was sold but the open one, and an open position has
    /// the time it was opened at.
    pub open spec fn balanced(self) -> bool {
        &&& self.total_sells == self.total_profitable_sells + self.total_stoploss_sells
        &&& self.total_buys == self.total_sells + (if self.holding {
            1int
        } else {
            0int
        })
        &&& self.holding ==> self.latest_buy_seconds is Some
    }

    /// What the signal does on `reading`, after counting it. Without a
    /// position it buys once it is warmed up and the reading is rising and
    /// overbought. With a position it sells at the target gain, or else once
    /// the position is sixty days old.
    pub open spec fn decision(self, reading: Reading) -> Trade {
        if !self.holding {
            if bumped(self.updates) >= WARM_UP_UPDATES && reading.rising && reading.overbought {
                Trade::Buy
            } else {
                Trade::Hold
            }
        } else {
            match self.latest_buy_seconds {
                None => Trade::Hold,
                Some(bought) => if reading.gain_reached {
                    Trade::SellAtGain
                } else if reading.seconds - bought >= MAX_HOLDING_SECONDS {
                    Trade::SellForAge { in_profit: reading.in_profit }
                } else {
                    Trade::Hold
                },
            }
        }
    }

    /// The ledger after a sale at a profit or at a loss.
    pub open spec fn sold(self, in_profit: bool) -> TradeLedger {
        TradeLedger {
            total_sells: bumped(self.total_sells),
            total_profitable_sells: if in_profit {
                bumped(self.total_profitable_sells)
            } else {
                self.total_profitable_sells
            },
            total_stoploss_sells: if in_profit {
                self.total_stoploss_sells
            } else {
                bumped(self.total_stoploss_sells)
            },
            holding: false,
            ..self
        }
    }

    /// The ledger after `reading`.
    pub open spec fn after(self, reading: Reading) -> TradeLedger {
        let counted = TradeLedger { updates: bumped(self.updates), ..self };
        match self.decision(reading) {
            Trade::Hold => counted,
            Trade::Buy => TradeLedger {
                total_buys: bumped(self.total_buys),
                holding: true,
                latest_buy_seconds: Some(reading.seconds),
                ..counted
            },
            Trade::SellAtGain => TradeLedger {
                latest_sell_seconds: Some(reading.seconds),
                ..counted.sold(true)
            },
            Trade::SellForAge { in_profit } => TradeLedger {
                latest_sell_seconds: Some(reading.seconds),
                ..counted.sold(in_profit)
            },
        }
    }

    /// The ledger after the run has ended: an open position is sold, at a
    /// profit or at a loss.
    pub open spec fn closed_out(self, in_profit: bool) -> TradeLedger {
        if self.holding {
            self.sold(in_profit)
        } else {
            self
        }
    }

    /// The ledger of a signal that has seen nothing.
    pub fn new() -> (ledger: TradeLedger)
        ensures
            ledger == TradeLedger::fresh(),
            ledger.balanced(),
    {
        TradeLedger {
            updates: 0,
            total_buys: 0,
            total_sells: 0,
            total_profitable_sells: 0,
            total_stoploss_sells: 0,
            holding: false,
            latest_buy_seconds: None,
            latest_sell_seconds: None,
        }
    }

    /// Counts a sale.
    fn sell(&mut self, in_profit: bool)
        ensures
            *final(self) == old(self).sold(in_profit),
    {
        self.total_sells = bump(self.total_sells);
        if in_profit {
            self.total_profitable_sells = bump(self.total_profitable_sells);
        } else {
            self.total_stoploss_sells = bump(self.total_stoploss_sells);
        }
        self.holding = false;
    }

    /// Counts `reading` and does what the signal decides on it.
    pub fn update(&mut self, reading: Reading) -> (trade: Trade)
        ensures
            trade == old(self).decision(reading),
            *final(self) == old(self).after(reading),
    {
        self.updates = bump(self.updates);
        if !self.holding {
            if self.updates >= WARM_UP_UPDATES && reading.rising && reading.overbought {
                self.total_buys = bump(self.total_buys);
                self.holding = true;
                self.latest_buy_seconds = Some(reading.seconds);
                return Trade::Buy;
            }
            return Trade::Hold;
        }
        let bought = match self.latest_buy_seconds {
            None => {
                return Trade::Hold;
            },
            Some(bought) => bought,
        };
        if reading.gain_reached {
            self.sell(true);
            self.latest_sell_seconds = Some(reading.seconds);
            return Trade::SellAtGain;
        }
        let age: i128 = reading.seconds as i128 - bought as i128;
        if age >= MAX_HOLDING_SECONDS as i128 {
            self.sell(reading.in_profit);
            self.latest_sell_seconds = Some(reading.seconds);
            return Trade::SellForAge { in_profit: reading.in_profit };
        }
        Trade::Hold
    }

    /// Ends the run of a signal that has seen at least one update: sells an
    /// open position, at a profit or at a loss, and says whether there was
    /// one.
    pub fn finalize(&mut self, in_profit: bool) -> (sold: bool)
        requires
            old(self).updates > 0,
        ensures
            sold == old(self).holding,
            *final(self) == old(self).closed_out(in_profit),
    {
        if self.holding {
            self.sell(in_profit);
            true
        } else {
            false
        }
    }
}

/// The counts stay balanced: an update or the end of the run on a balanced
/// ledger, none of whose counts is full, leaves a balanced ledger; and no
/// update both holds a position and sells.
pub proof fn lemma_ledger_stays_balanced(ledger: TradeLedger, reading: Reading, in_profit: bool)
    requires
        ledger.balanced(),
        ledger.total_buys < u64::MAX,
    ensures
        ledger.after(reading).balanced(),
        ledger.closed_out(in_profit).balanced(),
        !ledger.closed_out(in_profit).holding,
        ledger.after(reading).holding == (if ledger.holding {
            ledger.decision(reading) == Trade::Hold
        } else {
            ledger.decision(reading) == Trade::Buy
        }),
{
}

/// A signal never buys before it is warmed up, never buys while it holds a
/// position, and never sells without one.
pub proof fn lemma_trades_follow_the_position(ledger: TradeLedger, reading: Reading)
    ensures
        ledger.decision(reading) == Trade::Buy ==> !ledger.holding && ledger.updates + 1
            >= WARM_UP_UPDATES,
        ledger.decision(reading) == Trade::SellAtGain ==> ledger.holding,
        ledger.decision(reading) matches Trade::SellForAge { .. } ==> ledger.holding,
{
}

} // verus!
