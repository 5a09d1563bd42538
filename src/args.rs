//! The values that the command line names, and how they are read.
use vstd::prelude::*;

use crate::order;
use crate::text::comma_pieces;
use crate::text::same_text;
use crate::text::split_trimmed;
use crate::text::trimmed;

verus! {

/// An indication when/for how long an order is valid.
#[derive(Clone, Copy, Debug, PartialEq, Eq, Structural)]
pub enum TimeInForce {
    Today,
    Canceled,
    MarketOpen,
    MarketClose,
}

/// The time in force that `s` names, if any.
pub open spec fn time_in_force_named(s: Seq<char>) -> Option<TimeInForce> {
    if s == "today"@ {
        Some(TimeInForce::Today)
    } else if s == "canceled"@ {
        Some(TimeInForce::Canceled)
    } else if s == "market-open"@ {
        Some(TimeInForce::MarketOpen)
    } else if s == "market-close"@ {
        Some(TimeInForce::MarketClose)
    } else {
        None
    }
}

/// The time in force of an order for each choice on the command line.
pub open spec fn order_time_in_force(t: TimeInForce) -> order::TimeInForce {
    match t {
        TimeInForce::Today => order::TimeInForce::Today,
        TimeInForce::Canceled => order::TimeInForce::UntilCanceled,
        TimeInForce::MarketOpen => order::TimeInForce::UntilMarketOpen,
        TimeInForce::MarketClose => order::TimeInForce::UntilMarketClose,
    }
}

impl TimeInForce {
    pub fn to_time_in_force(&self) -> (r: order::TimeInForce)
        ensures
            r == order_time_in_force(*self),
    {
        match self {
            Self::Today => order::TimeInForce::Today,
            Self::Canceled => order::TimeInForce::UntilCanceled,
            Self::MarketOpen => order::TimeInForce::UntilMarketOpen,
            Self::MarketClose => order::TimeInForce::UntilMarketClose,
        }
    }

    /// Read a time in force: `today`, `canceled`, `market-open` or
    /// `market-close`.
    pub fn parse(src: &str) -> (r: Result<TimeInForce, String>)
        ensures
            match r {
                Ok(t) => time_in_force_named(src@) == Some(t),
                Err(e) => time_in_force_named(src@).is_none() && e@
                    == "invalid time-in-force specifier: "@ + src@,
            },
    {
        if same_text(src, "today") {
            Ok(Self::Today)
        } else if same_text(src, "canceled") {
            Ok(Self::Canceled)
        } else if same_text(src, "market-open") {
            Ok(Self::MarketOpen)
        } else if same_text(src, "market-close") {
            Ok(Self::MarketClose)
        } else {
            let mut e = String::from_str("invalid time-in-force specifier: ");
            e.append(src);
            Err(e)
        }
    }
}

impl std::str::FromStr for TimeInForce {
    type Err = String;

    fn from_str(src: &str) -> Result<Self, Self::Err> {
        Self::parse(src)
    }
}

/// The aggregation of historical data.
#[derive(Clone, Copy, Debug, PartialEq, Eq, Structural)]
pub enum TimeFrame {
    /// Retrieve historical data aggregated per day.
    Day,
    /// Retrieve historical data aggregated per hour.
    Hour,
    /// Retrieve historical data aggregated per minute.
    Minute,
}

/// The time frame that `s` names, if any.
pub open spec fn time_frame_named(s: Seq<char>) -> Option<TimeFrame> {
    if s == "day"@ {
        Some(TimeFrame::Day)
    } else if s == "hour"@ {
        Some(TimeFrame::Hour)
    } else if s == "minute"@ {
        Some(TimeFrame::Minute)
    } else {
        None
    }
}

impl TimeFrame {
    /// Read a time frame: `day`, `hour` or `minute`.
    pub fn parse(side: &str) -> (r: Result<TimeFrame, String>)
        ensures
            match r {
                Ok(t) => time_frame_named(side@) == Some(t),
                Err(e) => time_frame_named(side@).is_none() && e@ == side@
                    + " is not a valid time frame specification (use 'day', 'hour', or 'minute')"@,
            },
    {
        if same_text(side, "day") {
            Ok(TimeFrame::Day)
        } else if same_text(side, "hour") {
            Ok(TimeFrame::Hour)
        } else if same_text(side, "minute") {
            Ok(TimeFrame::Minute)
        } else {
            let mut e = String::from_str(side);
            e.append(" is not a valid time frame specification (use 'day', 'hour', or 'minute')");
            Err(e)
        }
    }
}

impl std::str::FromStr for TimeFrame {
    type Err = String;

    fn from_str(side: &str) -> Result<Self, Self::Err> {
        Self::parse(side)
    }
}

/// A source of realtime market data.
#[derive(Clone, Copy, Debug, PartialEq, Eq, Structural)]
pub enum DataSource {
    /// Use the Investors Exchange (IEX) as the data source.
    Iex,
    /// Use CTA (administered by NYSE) and UTP (administered by Nasdaq)
    /// SIPs as the data source.
    ///
    /// This source is only usable with the unlimited market data plan.
    Sip,
}

/// The data source that `s` names, if any.
pub open spec fn data_source_named(s: Seq<char>) -> Option<DataSource> {
    if s == "iex"@ {
        Some(DataSource::Iex)
    } else if s == "sip"@ {
        Some(DataSource::Sip)
    } else {
        None
    }
}

impl DataSource {
    /// Read a data source: `iex` or `sip`.
    pub fn parse(side: &str) -> (r: Result<DataSource, String>)
        ensures
            match r {
                Ok(d) => data_source_named(side@) == Some(d),
                Err(e) => data_source_named(side@).is_none() && e@ == side@
                    + " is not a valid data source (use 'iex' or 'sip')"@,
            },
    {
        if same_text(side, "iex") {
            Ok(DataSource::Iex)
        } else if same_text(side, "sip") {
            Ok(DataSource::Sip)
        } else {
            let mut e = String::from_str(side);
            e.append(" is not a valid data source (use 'iex' or 'sip')");
            Err(e)
        }
    }
}

impl std::str::FromStr for DataSource {
    type Err = String;

    fn from_str(side: &str) -> Result<Self, Self::Err> {
        Self::parse(side)
    }
}

/// The side of an order to submit.
#[derive(Clone, Copy, Debug, PartialEq, Eq, Structural)]
pub enum Side {
    /// Buy an asset.
    Buy,
    /// Sell an asset.
    Sell,
}

/// The side that `s` names, if any.
pub open spec fn side_named(s: Seq<char>) -> Option<Side> {
    if s == "buy"@ {
        Some(Side::Buy)
    } else if s == "sell"@ {
        Some(Side::Sell)
    } else {
        None
    }
}

impl Side {
    /// Read a side: `buy` or `sell`.
    pub fn parse(side: &str) -> (r: Result<Side, String>)
        ensures
            match r {
                Ok(s) => side_named(side@) == Some(s),
                Err(e) => side_named(side@).is_none() && e@ == side@
                    + " is not a valid side specification (use 'buy' or 'sell')"@,
            },
    {
        if same_text(side, "buy") {
            Ok(Side::Buy)
        } else if same_text(side, "sell") {
            Ok(Side::Sell)
        } else {
            let mut e = String::from_str(side);
            e.append(" is not a valid side specification (use 'buy' or 'sell')");
            Err(e)
        }
    }
}

impl std::str::FromStr for Side {
    type Err = String;

    fn from_str(side: &str) -> Result<Self, Self::Err> {
        Self::parse(side)
    }
}

/// The `account config` command.
#[derive(Clone, Debug)]
pub enum Config {
    /// Retrieve the account configuration.
    Get,
    /// Modify the account configuration.
    Modify(ConfigSet),
}

/// The changes that `account config set` asks for.
#[derive(Clone, Copy, Debug, PartialEq, Eq, Structural)]
pub struct ConfigSet {
    /// Enable e-mail trade confirmations.
    pub confirm_email: bool,
    /// Disable e-mail trade confirmations.
    pub no_confirm_email: bool,
    /// Suspend trading.
    pub trading_suspended: bool,
    /// Resume trading.
    pub no_trading_suspended: bool,
    /// Enable shorting.
    pub shorting: bool,
    /// Disable shorting.
    pub no_shorting: bool,
}

/// The `updates` command.
#[derive(Clone, Debug)]
pub enum Updates {
    /// Subscribe to trade events.
    Trades,
    /// Subscribe to realtime market data aggregates.
    Data {
        /// The symbols for which to receive aggregate data.
        symbols: Vec<String>,
        /// The data source to use.
        source: DataSource,
    },
}

/// The options to create a watch list.
#[derive(Clone, Debug)]
pub struct CreateWatchlist {
    /// The name of the watch list.
    pub name: String,
    /// The symbols to put into the new watch list.
    pub symbols: Vec<String>,
}

/// Parse a comma-separated list of symbols.
pub fn parse_symbol_list(s: &str) -> (r: Result<Vec<String>, String>)
    ensures
        r is Ok,
        r->Ok_0@.len() == comma_pieces(s@).len(),
        forall|j: int|
            0 <= j < r->Ok_0@.len() ==> (#[trigger] r->Ok_0@[j])@ == trimmed(comma_pieces(s@)[j]),
{
    Ok(split_trimmed(s))
}

} // verus!
