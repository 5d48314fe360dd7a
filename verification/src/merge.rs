//! The calendar merge engine: per-source event lists become one merged
//! per-date table spanning the window, with failed sources dropped.

use vstd::prelude::*;
use crate::config::ICalSource;
use crate::date::Date;
use crate::event::{
    display_model, display_models, spec_project, to_display, DisplayEvent, DisplayModel, RawEvent,
};

verus! {

/// Projections, in list order, of the events of one source that start on
/// the day with index `days`.
pub open spec fn projected_at(events: Seq<RawEvent>, name: Seq<char>, days: int) -> Seq<
    DisplayModel,
>
    decreases events.len(),
{
    if events.len() == 0 {
        Seq::empty()
    } else {
        projected_at(events.drop_last(), name, days) + (if events.last().date.days == days {
            seq![spec_project(events.last(), name)]
        } else {
            Seq::empty()
        })
    }
}

/// What one source contributes to one date: nothing when it failed or has
/// no events there, its projected events otherwise.
pub open spec fn source_at(source: (Seq<char>, Option<Seq<RawEvent>>), days: int) -> Option<
    Seq<DisplayModel>,
> {
    match source.1 {
        None => None,
        Some(events) => {
            let p = projected_at(events, source.0, days);
            if p.len() == 0 {
                None
            } else {
                Some(p)
            }
        },
    }
}

/// Concatenation of two optional lists; an absent side contributes nothing.
pub open spec fn combine_opt(a: Option<Seq<DisplayModel>>, b: Option<Seq<DisplayModel>>) -> Option<
    Seq<DisplayModel>,
> {
    match (a, b) {
        (None, None) => None,
        (Some(x), None) => Some(x),
        (None, Some(y)) => Some(y),
        (Some(x), Some(y)) => Some(x + y),
    }
}

/// The merged entry for one date: every source's contribution,
/// concatenated in configuration order; absent only when no source
/// contributed anything.
pub open spec fn merged_at(
    sources: Seq<(Seq<char>, Option<Seq<RawEvent>>)>,
    days: int,
) -> Option<Seq<DisplayModel>>
    decreases sources.len(),
{
    if sources.len() == 0 {
        None
    } else {
        combine_opt(merged_at(sources.drop_last(), days), source_at(sources.last(), days))
    }
}

/// The name and outcome of each configured source, as sequences.
pub open spec fn source_pairs(
    calendars: Seq<(String, ICalSource)>,
    loaded: Seq<Option<Vec<RawEvent>>>,
) -> Seq<(Seq<char>, Option<Seq<RawEvent>>)> {
    Seq::new(
        loaded.len(),
        |i: int|
            (
                calendars[i].0@,
                match loaded[i] {
                    Some(v) => Some(v@),
                    None => None,
                },
            ),
    )
}

/// One row of the merged table: a date of the window and the events
/// scheduled on it, absent when no source mentioned the date.
pub struct DayEntry {
    pub date: Date,
    pub events: Option<Vec<DisplayEvent>>,
}

/// Mathematical image of a merged-table row.
pub ghost struct DayModel {
    pub date: Date,
    pub events: Option<Seq<DisplayModel>>,
}

/// Model of an optional event list.
pub open spec fn opt_models(o: Option<Vec<DisplayEvent>>) -> Option<Seq<DisplayModel>> {
    match o {
        None => None,
        Some(v) => Some(display_models(v@)),
    }
}

/// Model of a merged-table row.
pub open spec fn day_entry_model(e: DayEntry) -> DayModel {
    DayModel { date: e.date, events: opt_models(e.events) }
}

/// The merged table over a window: one row per date, in window order.
pub open spec fn spec_merged(
    window: Seq<Date>,
    sources: Seq<(Seq<char>, Option<Seq<RawEvent>>)>,
) -> Seq<DayModel> {
    Seq::new(
        window.len(),
        |i: int| DayModel { date: window[i], events: merged_at(sources, window[i].days as int) },
    )
}

/// Project the events of one source that start on the given date.
pub fn events_on(events: &Vec<RawEvent>, name: &str, d: &Date) -> (r: Vec<DisplayEvent>)
    ensures
        display_models(r@) == projected_at(events@, name@, d.days as int),
        forall|i: int| 0 <= i < r@.len() ==> (#[trigger] r@[i]).time == projected_at(
            events@,
            name@,
            d.days as int,
        )[i].time,
{
    let mut r: Vec<DisplayEvent> = Vec::new();
    let mut i: usize = 0;
    while i < events.len()
        invariant
            i <= events.len(),
            display_models(r@) == projected_at(events@.take(i as int), name@, d.days as int),
            forall|k: int| 0 <= k < r@.len() ==> (#[trigger] r@[k]).time == display_models(
                r@,
            )[k].time,
        decreases events.len() - i,
    {
        let ghost prev = r@;
        if events[i].date.days == d.days {
            r.push(to_display(&events[i], name));
            proof {
                assert(display_models(r@) =~= display_models(prev).push(
                    display_model(r@[r@.len() - 1]),
                ));
            }
        }
        proof {
            let t = events@.take(i + 1);
            assert(t.drop_last() =~= events@.take(i as int));
            assert(t.last() == events@[i as int]);
            assert(display_models(r@) =~= projected_at(t, name@, d.days as int));
        }
        i = i + 1;
    }
    proof {
        assert(events@.take(events@.len() as int) =~= events@);
    }
    r
}

/// Merge all sources' contributions for one date.
pub fn merged_row(
    calendars: &Vec<(String, ICalSource)>,
    loaded: &Vec<Option<Vec<RawEvent>>>,
    d: &Date,
) -> (r: Option<Vec<DisplayEvent>>)
    requires
        loaded@.len() == calendars@.len(),
    ensures
        opt_models(r) == merged_at(source_pairs(calendars@, loaded@), d.days as int),
{
    let ghost pairs = source_pairs(calendars@, loaded@);
    let mut acc: Option<Vec<DisplayEvent>> = None;
    let mut j: usize = 0;
    while j < calendars.len()
        invariant
            j <= calendars@.len() == loaded@.len(),
            pairs == source_pairs(calendars@, loaded@),
            opt_models(acc) == merged_at(pairs.take(j as int), d.days as int),
        decreases calendars@.len() - j,
    {
        let ghost prev_acc = acc;
        match &loaded[j] {
            None => {},
            Some(events) => {
                let es = events_on(events, calendars[j].0.as_str(), d);
                if es.len() > 0 {
                    acc = match acc {
                        None => Some(es),
                        Some(mut a) => {
                            let ghost a0 = a@;
                            let mut es2 = es;
                            let ghost es0 = es2@;
                            a.append(&mut es2);
                            proof {
                                assert(a@ == a0 + es0);
                                assert(display_models(a@) =~= display_models(a0)
                                    + display_models(es0));
                            }
                            Some(a)
                        },
                    };
                }
            },
        }
        proof {
            let t = pairs.take(j + 1);
            assert(t.drop_last() =~= pairs.take(j as int));
            assert(t.last() == pairs[j as int]);
            assert(opt_models(acc) == merged_at(t, d.days as int));
        }
        j = j + 1;
    }
    proof {
        assert(pairs.take(loaded@.len() as int) =~= pairs);
    }
    acc
}

/// Build the merged table: one entry per window date, in window order.
pub fn merged_table(
    calendars: &Vec<(String, ICalSource)>,
    loaded: &Vec<Option<Vec<RawEvent>>>,
    window: &Vec<Date>,
) -> (t: Vec<DayEntry>)
    requires
        loaded@.len() == calendars@.len(),
    ensures
        t@.len() == window@.len(),
        forall|i: int| 0 <= i < t@.len() ==> day_entry_model(#[trigger] t@[i]) == spec_merged(
            window@,
            source_pairs(calendars@, loaded@),
        )[i],
{
    let ghost pairs = source_pairs(calendars@, loaded@);
    let mut t: Vec<DayEntry> = Vec::new();
    let mut i: usize = 0;
    while i < window.len()
        invariant
            i <= window@.len(),
            t@.len() == i,
            loaded@.len() == calendars@.len(),
            pairs == source_pairs(calendars@, loaded@),
            forall|k: int| 0 <= k < i ==> day_entry_model(#[trigger] t@[k]) == spec_merged(
                window@,
                pairs,
            )[k],
        decreases window@.len() - i,
    {
        let events = merged_row(calendars, loaded, &window[i]);
        t.push(DayEntry { date: window[i], events });
        i = i + 1;
    }
    t
}

/// Whether one source outcome carries only well-formed events.
pub open spec fn outcome_wf(o: Option<Seq<RawEvent>>) -> bool {
    match o {
        Some(events) => forall|j: int| 0 <= j < events.len() ==> (#[trigger] events[j]).wf(),
        None => true,
    }
}

/// Whether every source outcome carries only well-formed events.
pub open spec fn sources_wf(sources: Seq<(Seq<char>, Option<Seq<RawEvent>>)>) -> bool {
    forall|i: int| 0 <= i < sources.len() ==> outcome_wf((#[trigger] sources[i]).1)
}

/// Whether a display model carries a well-formed wall-clock time.
pub open spec fn model_time_wf(m: DisplayModel) -> bool {
    match m.time {
        Some(t) => t.wf(),
        None => true,
    }
}

/// Projection passes the event times through, so projections of
/// well-formed events carry well-formed times.
pub proof fn lemma_projected_times_wf(events: Seq<RawEvent>, name: Seq<char>, days: int)
    requires
        forall|j: int| 0 <= j < events.len() ==> (#[trigger] events[j]).wf(),
    ensures
        forall|k: int|
            0 <= k < projected_at(events, name, days).len() ==> model_time_wf(
                #[trigger] projected_at(events, name, days)[k],
            ),
    decreases events.len(),
{
    if events.len() > 0 {
        assert(forall|j: int|
            0 <= j < events.len() - 1 ==> events.drop_last()[j] == events[j]);
        lemma_projected_times_wf(events.drop_last(), name, days);
        let prefix = projected_at(events.drop_last(), name, days);
        let whole = projected_at(events, name, days);
        assert forall|k: int| 0 <= k < whole.len() implies model_time_wf(
            #[trigger] whole[k],
        ) by {
            if k < prefix.len() {
                assert(whole[k] == prefix[k]);
            } else {
                assert(whole[k] == spec_project(events.last(), name));
                assert(events[events.len() - 1].wf());
            }
        }
    }
}

/// Whether every model in an optional list carries a well-formed time.
pub open spec fn opt_models_time_wf(o: Option<Seq<DisplayModel>>) -> bool {
    match o {
        Some(models) => forall|k: int|
            0 <= k < models.len() ==> model_time_wf(#[trigger] models[k]),
        None => true,
    }
}

/// The merged entry of any date carries only well-formed times when the
/// sources do.
pub proof fn lemma_merged_times_wf(sources: Seq<(Seq<char>, Option<Seq<RawEvent>>)>, days: int)
    requires
        sources_wf(sources),
    ensures
        opt_models_time_wf(merged_at(sources, days)),
    decreases sources.len(),
{
    if sources.len() > 0 {
        assert(sources_wf(sources.drop_last())) by {
            assert(forall|i: int|
                0 <= i < sources.len() - 1 ==> sources.drop_last()[i] == sources[i]);
        }
        lemma_merged_times_wf(sources.drop_last(), days);
        match sources.last().1 {
            Some(events) => {
                assert(outcome_wf(sources[sources.len() - 1].1));
                lemma_projected_times_wf(events, sources.last().0, days);
            },
            None => {},
        }
        let a = merged_at(sources.drop_last(), days);
        let b = source_at(sources.last(), days);
        if a is Some && b is Some {
            let x = a->Some_0;
            let y = b->Some_0;
            assert forall|k: int| 0 <= k < (x + y).len() implies model_time_wf(
                #[trigger] (x + y)[k],
            ) by {
                if k < x.len() {
                    assert((x + y)[k] == x[k]);
                } else {
                    assert((x + y)[k] == y[k - x.len()]);
                }
            }
        }
    }
}

/// What all sources together contribute to one date, ignoring the
/// distinction between "no entry" and "no events": the concatenation, in
/// configuration order, of every succeeding source's projected events.
pub open spec fn concat_projections(
    sources: Seq<(Seq<char>, Option<Seq<RawEvent>>)>,
    days: int,
) -> Seq<DisplayModel>
    decreases sources.len(),
{
    if sources.len() == 0 {
        Seq::empty()
    } else {
        concat_projections(sources.drop_last(), days) + (match sources.last().1 {
            None => Seq::empty(),
            Some(events) => projected_at(events, sources.last().0, days),
        })
    }
}

/// The merged entry for a date is exactly the concatenation, in
/// configuration order, of what each succeeding source has on that date;
/// it is absent precisely when that concatenation is empty.
pub proof fn lemma_merged_is_concat(sources: Seq<(Seq<char>, Option<Seq<RawEvent>>)>, days: int)
    ensures
        merged_at(sources, days) == (if concat_projections(sources, days).len() == 0 {
            None::<Seq<DisplayModel>>
        } else {
            Some(concat_projections(sources, days))
        }),
    decreases sources.len(),
{
    if sources.len() > 0 {
        lemma_merged_is_concat(sources.drop_last(), days);
        if concat_projections(sources.drop_last(), days).len() > 0 {
            match sources.last().1 {
                None => {
                    assert(concat_projections(sources, days) =~= concat_projections(
                        sources.drop_last(),
                        days,
                    ));
                },
                Some(_) => {},
            }
        }
    }
}

/// Dropping a failed source does not change the merged table: merging is
/// insensitive to sources that did not succeed.
pub proof fn lemma_failed_source_dropped(
    sources: Seq<(Seq<char>, Option<Seq<RawEvent>>)>,
    i: int,
    days: int,
)
    requires
        0 <= i < sources.len(),
        sources[i].1 is None,
    ensures
        merged_at(sources.remove(i), days) == merged_at(sources, days),
    decreases sources.len(),
{
    if i == sources.len() - 1 {
        assert(sources.remove(i) =~= sources.drop_last());
    } else {
        assert(sources.remove(i).drop_last() =~= sources.drop_last().remove(i));
        assert(sources.remove(i).last() == sources.last());
        lemma_failed_source_dropped(sources.drop_last(), i, days);
    }
}

} // verus!
