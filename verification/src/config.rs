//! Configuration as plain values.
//!
//! These mirror the configuration file's shape: strings and optional fields,
//! checked once when a cycle is generated, not on every tick.

use vstd::prelude::*;
use crate::date::Date;
use crate::datetime::DateTime;
use crate::parse::{parse_date, parse_datetime, spec_parse_date, spec_parse_datetime};

verus! {

/// One notification rule: fire at `percent` of the traffic limit, then run
/// the command, if one is given.
#[derive(Clone, Debug)]
pub struct TrafficNotifyConfig {
    pub percent: u8,
    pub command: Option<String>,
}

/// The traffic-cycle section of the configuration.
#[derive(Clone, Debug)]
pub struct TrafficCycleConfig {
    /// `day`, `month` or `once`.
    pub cycle_type: String,
    /// Period length for `day` and `month` cycles.
    pub each: Option<i64>,
    /// Anchor date for `day` and `month` cycles, `YYYY-MM-DD`.
    pub traffic_reset_date: Option<String>,
    /// First day of a `once` cycle, `YYYY-MM-DD`.
    pub start_date: Option<String>,
    /// Last day of a `once` cycle, `YYYY-MM-DD`.
    pub end_date: Option<String>,
    /// Traffic limit with a `KB`, `MB`, `GB` or `TB` suffix.
    pub traffic_limit: String,
    /// `sum(in,out)`, `max(in,out)` or `out`.
    pub statistic_method: String,
    /// Command run when the limit itself is crossed.
    pub command: Option<String>,
    /// Ordered percentage notification rules.
    pub notify: Option<Vec<TrafficNotifyConfig>>,
}

/// The web endpoint section of the configuration.
#[derive(Clone, Debug)]
pub struct WebConfig {
    pub listener: String,
    pub ui_path: String,
    pub token: String,
}

/// The Telegram notifier section of the configuration.
#[derive(Clone, Debug)]
pub struct TgConfig {
    pub bot_token: String,
    pub chat_id: String,
    pub topic_id: u64,
    pub daily_report: bool,
}

/// The whole configuration.
#[derive(Clone, Debug)]
pub struct Config {
    pub network_name: String,
    pub vps_name: String,
    pub log_level: String,
    pub web: Option<WebConfig>,
    pub tg: Option<TgConfig>,
    pub traffic_cycle: Option<TrafficCycleConfig>,
}

/// A manual traffic correction: one uplink/downlink pair to book as a
/// corrected sample.
#[derive(Clone, Copy, Debug)]
pub struct ModifyDataParam {
    pub uplink_traffic_usage: i64,
    pub downlink_traffic_usage: i64,
}

/// A day-aggregate query: an inclusive date range.
#[derive(Clone, Debug)]
pub struct PageMonitorDayParam {
    pub start_date: String,
    pub end_date: String,
}

/// An hour-aggregate query: a half-open timestamp range.
#[derive(Clone, Debug)]
pub struct PageMonitorHourParam {
    pub start_time: String,
    pub end_time: String,
}

/// A sample query: a half-open timestamp range.
#[derive(Clone, Debug)]
pub struct PageMonitorSecondParam {
    pub start_time: String,
    pub end_time: String,
}

impl PageMonitorDayParam {
    /// Parses both bounds; nothing when either is not a date.
    pub fn date_range(&self) -> (r: Option<(Date, Date)>)
        ensures
            match r {
                Some(range) => spec_parse_date(self.start_date@) == Some(range.0)
                    && spec_parse_date(self.end_date@) == Some(range.1),
                None => spec_parse_date(self.start_date@) is None || spec_parse_date(
                    self.end_date@,
                ) is None,
            },
    {
        match (parse_date(self.start_date.as_str()), parse_date(self.end_date.as_str())) {
            (Some(a), Some(b)) => Some((a, b)),
            _ => None,
        }
    }
}

impl PageMonitorHourParam {
    /// Parses both bounds; nothing when either is not a timestamp.
    pub fn time_range(&self) -> (r: Option<(DateTime, DateTime)>)
        ensures
            match r {
                Some(range) => spec_parse_datetime(self.start_time@) == Some(range.0)
                    && spec_parse_datetime(self.end_time@) == Some(range.1),
                None => spec_parse_datetime(self.start_time@) is None || spec_parse_datetime(
                    self.end_time@,
                ) is None,
            },
    {
        match (parse_datetime(self.start_time.as_str()), parse_datetime(self.end_time.as_str())) {
            (Some(a), Some(b)) => Some((a, b)),
            _ => None,
        }
    }
}

impl PageMonitorSecondParam {
    /// Parses both bounds; nothing when either is not a timestamp.
    pub fn time_range(&self) -> (r: Option<(DateTime, DateTime)>)
        ensures
            match r {
                Some(range) => spec_parse_datetime(self.start_time@) == Some(range.0)
                    && spec_parse_datetime(self.end_time@) == Some(range.1),
                None => spec_parse_datetime(self.start_time@) is None || spec_parse_datetime(
                    self.end_time@,
                ) is None,
            },
    {
        match (parse_datetime(self.start_time.as_str()), parse_datetime(self.end_time.as_str())) {
            (Some(a), Some(b)) => Some((a, b)),
            _ => None,
        }
    }
}

} // verus!
