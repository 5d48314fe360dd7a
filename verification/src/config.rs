//! Render configuration: the start-day policy, the week count, the grid
//! orientation, and the configured calendar sources.

use vstd::prelude::*;

verus! {

/// Where one calendar feed comes from. The library never performs the
/// retrieval itself; the caller loads each source and hands the parsed
/// events in.
#[derive(Debug)]
pub enum ICalSource {
    URL(String),
    File(String),
    CachedURL { url: String, path: String, refresh_hours: u64 },
    CachedURLwithRefreshAuth {
        url: String,
        path: String,
        refresh_hours: u64,
        token_url: String,
        token_body: String,
    },
}

/// The policy that fixes the first day of the rendered window.
#[derive(Clone, Copy, Debug)]
pub enum StartDay {
    /// Most recent occurrence of the given weekday (0 = Monday .. 6 = Sunday)
    /// on or before today.
    DayOfWeek(u8),
    /// First day of the current month. The carried ordinal is not
    /// consulted: only the start-of-month alignment is supported.
    DayOfMonth(u8),
    /// The window starts on the current day.
    Today,
}

/// Parameters of one render pass.
pub struct Config {
    pub wrapper_class: String,
    pub css_path: String,
    pub weeks: u8,
    pub week_as_row: bool,
    pub header: bool,
    pub first_day: StartDay,
    /// Source name and descriptor, in configuration order. The name is
    /// used as a style class on every event the source contributes.
    pub calendars: Vec<(String, ICalSource)>,
}

} // verus!
