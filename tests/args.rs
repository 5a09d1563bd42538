use apcacli::args::parse_symbol_list;
use apcacli::args::DataSource;
use apcacli::args::Side;
use apcacli::args::TimeFrame;
use apcacli::args::TimeInForce;
use apcacli::order;
use apcacli::text::trim;

#[test]
fn time_in_force_is_read() {
    assert_eq!("today".parse::<TimeInForce>(), Ok(TimeInForce::Today));
    assert_eq!("canceled".parse::<TimeInForce>(), Ok(TimeInForce::Canceled));
    assert_eq!("market-open".parse::<TimeInForce>(), Ok(TimeInForce::MarketOpen));
    assert_eq!("market-close".parse::<TimeInForce>(), Ok(TimeInForce::MarketClose));
    assert_eq!(
        "never".parse::<TimeInForce>(),
        Err("invalid time-in-force specifier: never".to_string())
    );
    assert_eq!(TimeInForce::Canceled.to_time_in_force(), order::TimeInForce::UntilCanceled);
    assert_eq!(TimeInForce::Today.to_time_in_force(), order::TimeInForce::Today);
}

#[test]
fn time_frame_is_read() {
    assert_eq!("day".parse::<TimeFrame>(), Ok(TimeFrame::Day));
    assert_eq!("hour".parse::<TimeFrame>(), Ok(TimeFrame::Hour));
    assert_eq!("minute".parse::<TimeFrame>(), Ok(TimeFrame::Minute));
    assert_eq!(
        "week".parse::<TimeFrame>(),
        Err("week is not a valid time frame specification (use 'day', 'hour', or 'minute')".to_string())
    );
}

#[test]
fn data_source_is_read() {
    assert_eq!("iex".parse::<DataSource>(), Ok(DataSource::Iex));
    assert_eq!("sip".parse::<DataSource>(), Ok(DataSource::Sip));
    assert_eq!(
        "IEX".parse::<DataSource>(),
        Err("IEX is not a valid data source (use 'iex' or 'sip')".to_string())
    );
}

#[test]
fn side_is_read() {
    assert_eq!("buy".parse::<Side>(), Ok(Side::Buy));
    assert_eq!("sell".parse::<Side>(), Ok(Side::Sell));
    assert_eq!(
        "hold".parse::<Side>(),
        Err("hold is not a valid side specification (use 'buy' or 'sell')".to_string())
    );
}

#[test]
fn symbol_lists_are_split_and_trimmed() {
    assert_eq!(
        parse_symbol_list(" AAPL, MSFT ,\tSPY\u{3000}"),
        Ok(vec!["AAPL".to_string(), "MSFT".to_string(), "SPY".to_string()])
    );
    assert_eq!(parse_symbol_list("AAPL"), Ok(vec!["AAPL".to_string()]));
    assert_eq!(parse_symbol_list(""), Ok(vec!["".to_string()]));
    assert_eq!(
        parse_symbol_list("a,,b,"),
        Ok(vec!["a".to_string(), "".to_string(), "b".to_string(), "".to_string()])
    );
}

#[test]
fn trim_removes_unicode_white_space() {
    assert_eq!(trim("  x y \n"), "x y");
    assert_eq!(trim("\u{a0}\u{2003}z\u{85}"), "z");
    assert_eq!(trim("   "), "");
    assert_eq!(trim("é"), "é");
}
