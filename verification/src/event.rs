//! Event projection: raw calendar events become display-ready records.

use vstd::prelude::*;
use vstd::string::StringExecFns;
use crate::date::Date;

verus! {

/// A wall-clock time of day.
#[derive(Clone, Copy, Debug)]
pub struct Time {
    pub hour: u8,
    pub minute: u8,
}

impl Time {
    pub open spec fn wf(self) -> bool {
        self.hour < 24 && self.minute < 60
    }
}

/// What the engine reads from one structured calendar event: the optional
/// summary, the date of its start, the wall-clock time when the start
/// carries one, and whether the event exposes a sequence number
/// (the recurrence indicator).
pub struct RawEvent {
    pub summary: Option<String>,
    pub date: Date,
    pub time: Option<Time>,
    pub has_sequence: bool,
}

impl RawEvent {
    pub open spec fn wf(self) -> bool {
        &&& self.date.wf()
        &&& match self.time {
            Some(t) => t.wf(),
            None => true,
        }
    }
}

/// A display-ready record: title, optional time, and style classes.
pub struct DisplayEvent {
    pub title: String,
    pub time: Option<Time>,
    pub classes: Vec<String>,
}

/// Mathematical image of a `DisplayEvent`: every string replaced by its
/// character sequence.
pub ghost struct DisplayModel {
    pub title: Seq<char>,
    pub time: Option<Time>,
    pub classes: Seq<Seq<char>>,
}

/// The character sequences of a sequence of strings.
pub open spec fn class_views(cs: Seq<String>) -> Seq<Seq<char>> {
    cs.map_values(|s: String| s@)
}

/// Model of a display event.
pub open spec fn display_model(e: DisplayEvent) -> DisplayModel {
    DisplayModel { title: e.title@, time: e.time, classes: class_views(e.classes@) }
}

/// Models of a sequence of display events.
pub open spec fn display_models(es: Seq<DisplayEvent>) -> Seq<DisplayModel> {
    es.map_values(|e: DisplayEvent| display_model(e))
}

/// The placeholder title of an event without a summary.
pub open spec fn spec_no_title() -> Seq<char> {
    "<no title>"@
}

/// What projection returns: the summary (or the placeholder) as title,
/// the time passed through, and the source name as first class with
/// `"recurring"` appended when the event carries a sequence marker.
pub open spec fn spec_project(e: RawEvent, name: Seq<char>) -> DisplayModel {
    DisplayModel {
        title: match e.summary {
            Some(s) => s@,
            None => spec_no_title(),
        },
        time: e.time,
        classes: if e.has_sequence {
            seq![name, "recurring"@]
        } else {
            seq![name]
        },
    }
}

/// Project one raw event for the named source.
pub fn to_display(e: &RawEvent, calendar_name: &str) -> (r: DisplayEvent)
    ensures
        display_model(r) == spec_project(*e, calendar_name@),
        r.time == e.time,
{
    let title = match &e.summary {
        Some(s) => s.clone(),
        None => String::from_str("<no title>"),
    };
    let mut classes: Vec<String> = Vec::new();
    classes.push(String::from_str(calendar_name));
    if e.has_sequence {
        classes.push(String::from_str("recurring"));
    }
    let r = DisplayEvent { title, time: e.time, classes };
    proof {
        assert(class_views(r.classes@) =~= spec_project(*e, calendar_name@).classes);
    }
    r
}

} // verus!
