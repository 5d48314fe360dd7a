//! The grid renderer: the merged table becomes an HTML table, in
//! week-as-row or week-as-column orientation, with day classification.

use vstd::prelude::*;
use vstd::string::StringExecFns;
use crate::config::Config;
use crate::date::Date;
use crate::event::{
    class_views, display_model, display_models, DisplayEvent, DisplayModel, RawEvent,
};
use crate::merge::{
    day_entry_model, lemma_merged_times_wf, merged_at, merged_table, model_time_wf, opt_models,
    opt_models_time_wf, outcome_wf, source_pairs, sources_wf, spec_merged, DayEntry, DayModel,
};
use crate::html::{
    make_html_element, spec_decimal, spec_html_element, spec_two_digits_space,
    spec_two_digits_zero, spec_wrap_and_join, two_digits_space, two_digits_zero, wrap_and_join,
    decimal_string,
};
use crate::window::{date_window, spec_window, window_inputs_ok};

verus! {

/// Why a render pass can fail.
#[derive(Clone, Copy, Debug, PartialEq, Eq, Structural)]
pub enum RenderError {
    /// No configured source could be loaded and parsed; there is nothing
    /// to render.
    AllSourcesFailed,
    /// The window contains no dates (a week count of zero).
    EmptyWindow,
}

/// Weekday of a date, read off its day index (0 = Monday .. 6 = Sunday).
pub open spec fn date_wd(d: Date) -> int {
    d.days as int % 7
}

/// Short English weekday name, 0 = Monday .. 6 = Sunday.
pub open spec fn spec_weekday_name(w: int) -> Seq<char> {
    if w == 0 {
        "Mon"@
    } else if w == 1 {
        "Tue"@
    } else if w == 2 {
        "Wed"@
    } else if w == 3 {
        "Thu"@
    } else if w == 4 {
        "Fri"@
    } else if w == 5 {
        "Sat"@
    } else {
        "Sun"@
    }
}

/// Short English weekday name, as executable code.
pub fn weekday_name_str(w: u8) -> (r: &'static str)
    requires
        w < 7,
    ensures
        r@ == spec_weekday_name(w as int),
{
    match w {
        0 => "Mon",
        1 => "Tue",
        2 => "Wed",
        3 => "Thu",
        4 => "Fri",
        5 => "Sat",
        _ => "Sun",
    }
}

/// The class that places a day relative to today: exactly one of
/// `"past"`, `"today"` and `"future"`, by three-way comparison of the
/// day indices.
pub open spec fn rel_class(d: Date, today: Date) -> Seq<char> {
    if d.days < today.days {
        "past"@
    } else if d.days == today.days {
        "today"@
    } else {
        "future"@
    }
}

/// Append a class unless it is already present.
pub open spec fn dedup_push(acc: Seq<Seq<char>>, x: Seq<char>) -> Seq<Seq<char>> {
    if acc.contains(x) {
        acc
    } else {
        acc.push(x)
    }
}

/// Fold a class list into the accumulator, keeping first occurrences.
pub open spec fn add_classes(acc: Seq<Seq<char>>, cs: Seq<Seq<char>>) -> Seq<Seq<char>>
    decreases cs.len(),
{
    if cs.len() == 0 {
        acc
    } else {
        add_classes(dedup_push(acc, cs.first()), cs.drop_first())
    }
}

/// Fold every event's classes into the accumulator, in list order.
pub open spec fn event_class_fold(acc: Seq<Seq<char>>, events: Seq<DisplayModel>) -> Seq<
    Seq<char>,
>
    decreases events.len(),
{
    if events.len() == 0 {
        acc
    } else {
        event_class_fold(add_classes(acc, events.first().classes), events.drop_first())
    }
}

/// The class list of a day cell: the day's weekday name, its relation to
/// today, then every class of every event on the day, duplicates
/// collapsed, in first-appearance order.
pub open spec fn day_class_list(d: Date, events: Seq<DisplayModel>, today: Date) -> Seq<
    Seq<char>,
> {
    event_class_fold(
        dedup_push(dedup_push(Seq::empty(), spec_weekday_name(date_wd(d))), rel_class(d, today)),
        events,
    )
}

/// The text of one event fragment: `HH:MM title` when the event carries
/// a time (hours space-padded, minutes zero-padded), the bare title
/// otherwise.
pub open spec fn spec_event_content(e: DisplayModel) -> Seq<char> {
    match e.time {
        Some(t) => spec_two_digits_space(t.hour as int) + ":"@ + spec_two_digits_zero(
            t.minute as int,
        ) + " "@ + e.title,
        None => e.title,
    }
}

/// One event fragment: a `div` carrying the event's own class set.
pub open spec fn spec_event_html(e: DisplayModel) -> Seq<char> {
    spec_html_element(
        "div"@,
        Some(spec_wrap_and_join(e.classes, "class=\""@, " "@, "\""@, None)),
        spec_event_content(e),
    )
}

/// All event fragments of a day, concatenated in list order.
pub open spec fn spec_events_html(events: Seq<DisplayModel>) -> Seq<char>
    decreases events.len(),
{
    if events.len() == 0 {
        Seq::empty()
    } else {
        spec_events_html(events.drop_last()) + spec_event_html(events.last())
    }
}

/// One day cell: a `td` carrying the day's class list, containing the
/// day-of-month number in a `div` followed by the event fragments.
pub open spec fn spec_day_html(d: Date, events: Seq<DisplayModel>, today: Date) -> Seq<char> {
    spec_html_element(
        "td"@,
        Some(
            spec_wrap_and_join(day_class_list(d, events, today), "class=\""@, " "@, "\""@, None),
        ),
        spec_html_element("div"@, None, spec_decimal(d.day as int)) + spec_events_html(events),
    )
}

/// The events of a merged-table row, an absent entry meaning none.
pub open spec fn events_or_empty(m: DayModel) -> Seq<DisplayModel> {
    match m.events {
        Some(e) => e,
        None => Seq::empty(),
    }
}

/// One header cell: the weekday name in a `th`.
pub open spec fn spec_header_cell(w: int) -> Seq<char> {
    spec_html_element(
        "th"@,
        Some("class:\""@ + spec_weekday_name(w) + "\""@),
        spec_html_element(
            "div"@,
            Some("class=\""@ + spec_weekday_name(w) + "\""@),
            spec_weekday_name(w),
        ),
    )
}

/// The first `n` header cells, weekdays counted up from `w0`.
pub open spec fn spec_header_cells(w0: int, n: int) -> Seq<char>
    decreases n,
{
    if n <= 0 {
        Seq::empty()
    } else {
        spec_header_cells(w0, n - 1) + spec_header_cell((w0 + (n - 1)) % 7)
    }
}

/// The header row: seven weekday names starting at the window's first
/// weekday.
pub open spec fn spec_header_row(w0: int) -> Seq<char> {
    "<tr>"@ + spec_header_cells(w0, 7) + "</tr>"@
}

/// The first `n` cells of the week starting at `start`, concatenated.
pub open spec fn spec_week_cells(m: Seq<DayModel>, today: Date, start: int, n: int) -> Seq<char>
    decreases n,
{
    if n <= 0 {
        Seq::empty()
    } else {
        spec_week_cells(m, today, start, n - 1) + spec_day_html(
            m[start + (n - 1)].date,
            events_or_empty(m[start + (n - 1)]),
            today,
        )
    }
}

/// One week-as-row data row: seven consecutive day cells.
pub open spec fn spec_week_row(m: Seq<DayModel>, today: Date, r: int) -> Seq<char> {
    "<tr>"@ + spec_week_cells(m, today, 7 * r, 7) + "</tr>"@
}

/// The first `k` week rows, concatenated.
pub open spec fn spec_week_rows(m: Seq<DayModel>, today: Date, k: int) -> Seq<char>
    decreases k,
{
    if k <= 0 {
        Seq::empty()
    } else {
        spec_week_rows(m, today, k - 1) + spec_week_row(m, today, k - 1)
    }
}

/// One week-as-column data row: a single day cell, preceded by that
/// day's weekday label when a header is requested.
pub open spec fn spec_day_row(m: Seq<DayModel>, today: Date, header: bool, i: int) -> Seq<char> {
    "<tr>"@ + (if header {
        spec_header_cell(date_wd(m[i].date))
    } else {
        Seq::empty()
    }) + spec_day_html(m[i].date, events_or_empty(m[i]), today) + "</tr>"@
}

/// The first `n` single-day rows, concatenated.
pub open spec fn spec_day_rows(m: Seq<DayModel>, today: Date, header: bool, n: int) -> Seq<char>
    decreases n,
{
    if n <= 0 {
        Seq::empty()
    } else {
        spec_day_rows(m, today, header, n - 1) + spec_day_row(m, today, header, n - 1)
    }
}

/// The opening table tag, with the wrapper class when one is given.
pub open spec fn spec_table_open(wrapper_class: Option<Seq<char>>) -> Seq<char> {
    match wrapper_class {
        Some(c) => "<table class=\""@ + c + "\">"@,
        None => "<table>"@,
    }
}

/// The whole table: opening tag, optional header row, the data rows in
/// the requested orientation, closing tag.
pub open spec fn spec_table_html(
    m: Seq<DayModel>,
    week_as_row: bool,
    header: bool,
    today: Date,
    wrapper_class: Option<Seq<char>>,
) -> Seq<char> {
    spec_table_open(wrapper_class) + (if week_as_row {
        (if header {
            spec_header_row(date_wd(m[0].date))
        } else {
            Seq::empty()
        }) + spec_week_rows(m, today, m.len() as int / 7)
    } else {
        spec_day_rows(m, today, header, m.len() as int)
    }) + "</table>"@
}

proof fn lemma_dedup_push_preserves(acc: Seq<Seq<char>>, x: Seq<char>, y: Seq<char>)
    requires
        acc.contains(y),
    ensures
        dedup_push(acc, x).contains(y),
{
    if !acc.contains(x) {
        let i = choose|i: int| 0 <= i < acc.len() && acc[i] == y;
        assert(acc.push(x)[i] == y);
    }
}

proof fn lemma_add_classes_preserves(acc: Seq<Seq<char>>, cs: Seq<Seq<char>>, y: Seq<char>)
    requires
        acc.contains(y),
    ensures
        add_classes(acc, cs).contains(y),
    decreases cs.len(),
{
    if cs.len() > 0 {
        lemma_dedup_push_preserves(acc, cs.first(), y);
        lemma_add_classes_preserves(dedup_push(acc, cs.first()), cs.drop_first(), y);
    }
}

proof fn lemma_event_fold_preserves(acc: Seq<Seq<char>>, events: Seq<DisplayModel>, y: Seq<char>)
    requires
        acc.contains(y),
    ensures
        event_class_fold(acc, events).contains(y),
    decreases events.len(),
{
    if events.len() > 0 {
        lemma_add_classes_preserves(acc, events.first().classes, y);
        lemma_event_fold_preserves(
            add_classes(acc, events.first().classes),
            events.drop_first(),
            y,
        );
    }
}

/// Day classification: every day cell carries its weekday name and its
/// relation to today, and that relation is `"past"` exactly on days
/// before today, `"today"` exactly on today, and `"future"` exactly on
/// days after today.
pub proof fn lemma_day_classification(d: Date, events: Seq<DisplayModel>, today: Date)
    ensures
        day_class_list(d, events, today).contains(rel_class(d, today)),
        day_class_list(d, events, today).contains(spec_weekday_name(date_wd(d))),
        d.days < today.days ==> rel_class(d, today) == "past"@,
        d.days == today.days ==> rel_class(d, today) == "today"@,
        d.days > today.days ==> rel_class(d, today) == "future"@,
{
    let wd = spec_weekday_name(date_wd(d));
    let rel = rel_class(d, today);
    let first = dedup_push(Seq::empty(), wd);
    assert(first == Seq::empty().push(wd));
    assert(first.contains(wd)) by {
        assert(first[0] == wd);
    }
    let init = dedup_push(first, rel);
    assert(init.contains(rel)) by {
        if !first.contains(rel) {
            assert(first.push(rel)[first.len() as int] == rel);
        }
    }
    lemma_dedup_push_preserves(first, rel, wd);
    lemma_event_fold_preserves(init, events, rel);
    lemma_event_fold_preserves(init, events, wd);
}

/// The data rows of the grid, one string per table row: one row per
/// seven dates in week-as-row orientation, one single-cell row per date
/// otherwise.
pub open spec fn grid_rows(
    m: Seq<DayModel>,
    today: Date,
    week_as_row: bool,
    header: bool,
) -> Seq<Seq<char>> {
    if week_as_row {
        Seq::new((m.len() / 7) as nat, |r: int| spec_week_row(m, today, r))
    } else {
        Seq::new(m.len(), |i: int| spec_day_row(m, today, header, i))
    }
}

/// All rows, concatenated in order.
pub open spec fn concat_all(rows: Seq<Seq<char>>) -> Seq<char>
    decreases rows.len(),
{
    if rows.len() == 0 {
        Seq::empty()
    } else {
        concat_all(rows.drop_last()) + rows.last()
    }
}

proof fn lemma_week_rows_concat(m: Seq<DayModel>, today: Date, k: int)
    requires
        k >= 0,
    ensures
        spec_week_rows(m, today, k) == concat_all(
            Seq::new(k as nat, |r: int| spec_week_row(m, today, r)),
        ),
    decreases k,
{
    let rows = Seq::new(k as nat, |r: int| spec_week_row(m, today, r));
    if k > 0 {
        lemma_week_rows_concat(m, today, k - 1);
        assert(rows.drop_last() =~= Seq::new((k - 1) as nat, |r: int| spec_week_row(m, today, r)));
        assert(rows.last() == spec_week_row(m, today, k - 1));
    }
}

proof fn lemma_day_rows_concat(m: Seq<DayModel>, today: Date, header: bool, n: int)
    requires
        n >= 0,
    ensures
        spec_day_rows(m, today, header, n) == concat_all(
            Seq::new(n as nat, |i: int| spec_day_row(m, today, header, i)),
        ),
    decreases n,
{
    let rows = Seq::new(n as nat, |i: int| spec_day_row(m, today, header, i));
    if n > 0 {
        lemma_day_rows_concat(m, today, header, n - 1);
        assert(rows.drop_last() =~= Seq::new(
            (n - 1) as nat,
            |i: int| spec_day_row(m, today, header, i),
        ));
        assert(rows.last() == spec_day_row(m, today, header, n - 1));
    }
}

/// Orientation: the table body is the concatenation of its data rows.
/// In week-as-row orientation there are exactly `len / 7` data rows,
/// each framing the seven cells of one week (preceded by one header row
/// when requested); in the other orientation there are exactly `len`
/// rows, each framing a single day cell with an optional per-row
/// weekday label.
pub proof fn lemma_orientation(
    m: Seq<DayModel>,
    week_as_row: bool,
    header: bool,
    today: Date,
    wrapper_class: Option<Seq<char>>,
)
    ensures
        grid_rows(m, today, week_as_row, header).len() == (if week_as_row {
            m.len() / 7
        } else {
            m.len()
        }),
        spec_table_html(m, week_as_row, header, today, wrapper_class) == spec_table_open(
            wrapper_class,
        ) + (if week_as_row && header {
            spec_header_row(date_wd(m[0].date))
        } else {
            Seq::empty()
        }) + concat_all(grid_rows(m, today, week_as_row, header)) + "</table>"@,
        week_as_row ==> forall|r: int|
            0 <= r < m.len() / 7 ==> #[trigger] grid_rows(m, today, week_as_row, header)[r]
                == "<tr>"@ + spec_week_cells(m, today, 7 * r, 7) + "</tr>"@,
        !week_as_row ==> forall|i: int|
            0 <= i < m.len() ==> #[trigger] grid_rows(m, today, week_as_row, header)[i] == "<tr>"@
                + (if header {
                spec_header_cell(date_wd(m[i].date))
            } else {
                Seq::empty()
            }) + spec_day_html(m[i].date, events_or_empty(m[i]), today) + "</tr>"@,
{
    if week_as_row {
        lemma_week_rows_concat(m, today, m.len() as int / 7);
        if !header {
            assert(spec_table_html(m, week_as_row, header, today, wrapper_class) =~= spec_table_open(
                wrapper_class,
            ) + Seq::empty() + concat_all(grid_rows(m, today, week_as_row, header)) + "</table>"@);
        }
    } else {
        lemma_day_rows_concat(m, today, header, m.len() as int);
        assert(spec_table_html(m, week_as_row, header, today, wrapper_class) =~= spec_table_open(
            wrapper_class,
        ) + Seq::empty() + concat_all(grid_rows(m, today, week_as_row, header)) + "</table>"@);
    }
}

/// Whether a display event's wall-clock time is well-formed.
pub open spec fn event_time_wf(e: DisplayEvent) -> bool {
    match e.time {
        Some(t) => t.wf(),
        None => true,
    }
}

/// Render one event fragment.
pub fn create_html_event(e: &DisplayEvent) -> (r: String)
    requires
        event_time_wf(*e),
    ensures
        r@ == spec_event_html(display_model(*e)),
{
    let attributes = wrap_and_join(&e.classes, "class=\"", " ", "\"", None);
    let content: String = match &e.time {
        Some(t) => {
            let mut c = two_digits_space(t.hour);
            c.append(":");
            let mm = two_digits_zero(t.minute);
            c.append(mm.as_str());
            c.append(" ");
            c.append(e.title.as_str());
            proof {
                assert(c@ =~= spec_event_content(display_model(*e)));
            }
            c
        },
        None => e.title.clone(),
    };
    make_html_element("div", Some(attributes.as_str()), content.as_str())
}

/// Append a class string unless an equal one is already present.
fn push_unique(v: &mut Vec<String>, s: String)
    ensures
        class_views(final(v)@) == dedup_push(class_views(old(v)@), s@),
{
    let ghost views = class_views(v@);
    let mut j: usize = 0;
    while j < v.len()
        invariant
            j <= v@.len(),
            views == class_views(v@),
            forall|k: int| 0 <= k < j ==> class_views(v@)[k] != s@,
        decreases v@.len() - j,
    {
        let equal = v[j] == s;
        proof {
            assert(class_views(v@)[j as int] == v@[j as int]@);
        }
        if equal {
            proof {
                assert(views.contains(s@)) by {
                    assert(views[j as int] == s@);
                }
            }
            return ;
        }
        j = j + 1;
    }
    proof {
        assert(!views.contains(s@)) by {
            if views.contains(s@) {
                let i = choose|i: int| 0 <= i < views.len() && views[i] == s@;
            }
        }
    }
    v.push(s);
    proof {
        assert(class_views(v@) =~= views.push(s@));
    }
}

/// Render one day cell.
pub fn create_html_day(d: &Date, events: &Vec<DisplayEvent>, today: &Date) -> (r: String)
    requires
        d.wf(),
        today.wf(),
        forall|i: int| 0 <= i < events@.len() ==> event_time_wf(#[trigger] events@[i]),
    ensures
        r@ == spec_day_html(*d, display_models(events@), *today),
{
    let ghost models = display_models(events@);
    let ghost target = day_class_list(*d, models, *today);

    let mut classes: Vec<String> = Vec::new();
    push_unique(&mut classes, String::from_str(weekday_name_str(d.weekday())));
    proof {
        assert(class_views(Seq::<String>::empty()) =~= Seq::<Seq<char>>::empty());
        assert(spec_weekday_name(date_wd(*d)) == spec_weekday_name(
            crate::date::spec_weekday(d.year as int, d.month as int, d.day as int),
        ));
    }
    let relation = if d.days < today.days {
        "past"
    } else if d.days == today.days {
        "today"
    } else {
        "future"
    };
    push_unique(&mut classes, String::from_str(relation));
    let ghost init = class_views(classes@);
    proof {
        assert(init == dedup_push(
            dedup_push(Seq::empty(), spec_weekday_name(date_wd(*d))),
            rel_class(*d, *today),
        ));
        assert(models.skip(0) =~= models);
    }

    let mut ei: usize = 0;
    while ei < events.len()
        invariant
            ei <= events@.len(),
            models == display_models(events@),
            target == day_class_list(*d, models, *today),
            target == event_class_fold(class_views(classes@), models.skip(ei as int)),
            forall|i: int| 0 <= i < events@.len() ==> event_time_wf(#[trigger] events@[i]),
        decreases events@.len() - ei,
    {
        let ev = &events[ei];
        let ghost evcs = class_views(ev.classes@);
        let mut cj: usize = 0;
        proof {
            let sk = models.skip(ei as int);
            assert(sk.first() == models[ei as int]);
            assert(sk.drop_first() =~= models.skip(ei + 1));
            assert(event_class_fold(class_views(classes@), sk) == event_class_fold(
                add_classes(class_views(classes@), evcs),
                models.skip(ei + 1),
            ));
            assert(evcs.skip(0) =~= evcs);
        }
        while cj < ev.classes.len()
            invariant
                cj <= ev.classes@.len(),
                evcs == class_views(ev.classes@),
                target == event_class_fold(
                    add_classes(class_views(classes@), evcs.skip(cj as int)),
                    models.skip(ei + 1),
                ),
            decreases ev.classes@.len() - cj,
        {
            let ghost before = class_views(classes@);
            push_unique(&mut classes, ev.classes[cj].clone());
            proof {
                let sk = evcs.skip(cj as int);
                assert(sk.first() == evcs[cj as int]);
                assert(sk.drop_first() =~= evcs.skip(cj + 1));
                assert(add_classes(before, sk) == add_classes(
                    dedup_push(before, evcs[cj as int]),
                    evcs.skip(cj + 1),
                ));
            }
            cj = cj + 1;
        }
        proof {
            assert(evcs.skip(evcs.len() as int) =~= Seq::<Seq<char>>::empty());
        }
        ei = ei + 1;
    }
    proof {
        assert(models.skip(models.len() as int) =~= Seq::<DisplayModel>::empty());
        assert(class_views(classes@) == target);
    }

    let attrs = wrap_and_join(&classes, "class=\"", " ", "\"", None);
    let num = decimal_string(d.day);
    let mut content = make_html_element("div", None, num.as_str());
    let ghost day_div = content@;
    proof {
        assert(content@ =~= day_div + spec_events_html(models.take(0)));
    }

    let mut ei2: usize = 0;
    while ei2 < events.len()
        invariant
            ei2 <= events@.len(),
            models == display_models(events@),
            content@ == day_div + spec_events_html(models.take(ei2 as int)),
            forall|i: int| 0 <= i < events@.len() ==> event_time_wf(#[trigger] events@[i]),
        decreases events@.len() - ei2,
    {
        let frag = create_html_event(&events[ei2]);
        content.append(frag.as_str());
        proof {
            let t = models.take(ei2 + 1);
            assert(t.drop_last() =~= models.take(ei2 as int));
            assert(t.last() == display_model(events@[ei2 as int]));
            assert(content@ =~= day_div + spec_events_html(t));
        }
        ei2 = ei2 + 1;
    }
    proof {
        assert(models.take(models.len() as int) =~= models);
    }
    make_html_element("td", Some(attrs.as_str()), content.as_str())
}

/// Render one weekday header cell.
fn make_header_cell(w: u8) -> (r: String)
    requires
        w < 7,
    ensures
        r@ == spec_header_cell(w as int),
{
    let name = weekday_name_str(w);
    let mut inner_attr = String::from_str("class=\"");
    inner_attr.append(name);
    inner_attr.append("\"");
    let inner = make_html_element("div", Some(inner_attr.as_str()), name);
    let mut outer_attr = String::from_str("class:\"");
    outer_attr.append(name);
    outer_attr.append("\"");
    let r = make_html_element("th", Some(outer_attr.as_str()), inner.as_str());
    proof {
        assert(r@ =~= spec_header_cell(w as int));
    }
    r
}

/// Whether a merged-table entry is fit for rendering: its date is
/// well-formed and its events carry well-formed times.
pub open spec fn entry_wf(e: DayEntry) -> bool {
    &&& e.date.wf()
    &&& match e.events {
        Some(v) => forall|i: int| 0 <= i < v@.len() ==> event_time_wf(#[trigger] v@[i]),
        None => true,
    }
}

/// Models of the merged-table entries.
pub open spec fn entry_models(t: Seq<DayEntry>) -> Seq<DayModel> {
    t.map_values(|e: DayEntry| day_entry_model(e))
}

/// Render the merged table as an HTML table.
///
/// An empty table (an empty window) is reported as an explicit error.
#[verifier::rlimit(100)]
pub fn create_html_calendar(
    calendar: &Vec<DayEntry>,
    row_weeks: bool,
    header: bool,
    today: &Date,
    wrapper_class: Option<&str>,
) -> (r: Result<String, RenderError>)
    requires
        today.wf(),
        calendar@.len() % 7 == 0,
        forall|i: int| 0 <= i < calendar@.len() ==> entry_wf(#[trigger] calendar@[i]),
    ensures
        calendar@.len() == 0 <==> r == Err::<String, RenderError>(RenderError::EmptyWindow),
        calendar@.len() > 0 ==> (r matches Ok(s) && s@ == spec_table_html(
            entry_models(calendar@),
            row_weeks,
            header,
            *today,
            match wrapper_class {
                Some(c) => Some(c@),
                None => None,
            },
        )),
{
    let ghost m = entry_models(calendar@);
    if calendar.len() == 0 {
        return Err(RenderError::EmptyWindow);
    }
    let empty_vec: Vec<DisplayEvent> = Vec::new();

    let mut content = match wrapper_class {
        Some(class) => {
            let mut c = String::from_str("<table class=\"");
            c.append(class);
            c.append("\">");
            proof {
                assert(c@ =~= spec_table_open(Some(class@)));
            }
            c
        },
        None => String::from_str("<table>"),
    };
    let ghost open_tag = content@;

    if row_weeks && header {
        content.append("<tr>");
        proof {
            assert(entry_wf(calendar@[0]));
        }
        let mut w = calendar[0].date.weekday();
        let ghost w0 = date_wd(m[0].date);
        proof {
            assert(m[0] == day_entry_model(calendar@[0]));
            assert(content@ =~= open_tag + "<tr>"@ + spec_header_cells(w0, 0));
        }
        let mut i: usize = 0;
        while i < 7
            invariant
                i <= 7,
                w < 7,
                w == (w0 + i) % 7,
                0 <= w0 < 7,
                content@ == open_tag + "<tr>"@ + spec_header_cells(w0, i as int),
            decreases 7 - i,
        {
            let cell = make_header_cell(w);
            content.append(cell.as_str());
            w = if w == 6 {
                0
            } else {
                w + 1
            };
            i = i + 1;
            proof {
                assert(content@ =~= open_tag + "<tr>"@ + spec_header_cells(w0, i as int));
            }
        }
        content.append("</tr>");
        proof {
            assert(content@ =~= open_tag + spec_header_row(date_wd(m[0].date)));
        }
    }
    let ghost head_part = content@;
    proof {
        assert(head_part =~= open_tag + (if row_weeks && header {
            spec_header_row(date_wd(m[0].date))
        } else {
            Seq::<char>::empty()
        }));
    }

    if row_weeks {
        let weeks_count = calendar.len() / 7;
        proof {
            assert(content@ =~= head_part + spec_week_rows(m, *today, 0));
        }
        let mut r: usize = 0;
        while r < weeks_count
            invariant
                r <= weeks_count == calendar@.len() / 7,
                calendar@.len() % 7 == 0,
                calendar@.len() <= usize::MAX,
                empty_vec@.len() == 0,
                m == entry_models(calendar@),
                today.wf(),
                forall|i: int| 0 <= i < calendar@.len() ==> entry_wf(#[trigger] calendar@[i]),
                content@ == head_part + spec_week_rows(m, *today, r as int),
            decreases weeks_count - r,
        {
            content.append("<tr>");
            proof {
                assert(content@ =~= head_part + spec_week_rows(m, *today, r as int) + "<tr>"@
                    + spec_week_cells(m, *today, 7 * r as int, 0));
            }
            let mut c: usize = 0;
            while c < 7
                invariant
                    c <= 7,
                    r < weeks_count == calendar@.len() / 7,
                    calendar@.len() % 7 == 0,
                    calendar@.len() <= usize::MAX,
                    empty_vec@.len() == 0,
                    m == entry_models(calendar@),
                    today.wf(),
                    forall|i: int| 0 <= i < calendar@.len() ==> entry_wf(
                        #[trigger] calendar@[i],
                    ),
                    content@ == head_part + spec_week_rows(m, *today, r as int) + "<tr>"@
                        + spec_week_cells(m, *today, 7 * r as int, c as int),
                decreases 7 - c,
            {
                proof {
                    vstd::arithmetic::div_mod::lemma_fundamental_div_mod(
                        calendar@.len() as int,
                        7,
                    );
                    assert(7 * ((r + 1) as int) <= 7 * (calendar@.len() as int / 7));
                }
                let idx = 7 * r + c;
                proof {
                    assert(entry_wf(calendar@[idx as int]));
                }
                let cell = match &calendar[idx].events {
                    Some(v) => create_html_day(&calendar[idx].date, v, today),
                    None => create_html_day(&calendar[idx].date, &empty_vec, today),
                };
                proof {
                    assert(display_models(empty_vec@) =~= Seq::<DisplayModel>::empty());
                    assert(m[idx as int] == day_entry_model(calendar@[idx as int]));
                }
                content.append(cell.as_str());
                c = c + 1;
                proof {
                    assert(content@ =~= head_part + spec_week_rows(m, *today, r as int) + "<tr>"@
                        + spec_week_cells(m, *today, 7 * r as int, c as int));
                }
            }
            content.append("</tr>");
            r = r + 1;
            proof {
                assert(content@ =~= head_part + spec_week_rows(m, *today, r as int));
            }
        }
    } else {
        proof {
            assert(content@ =~= head_part + spec_day_rows(m, *today, header, 0));
        }
        let mut i: usize = 0;
        while i < calendar.len()
            invariant
                i <= calendar@.len(),
                m == entry_models(calendar@),
                today.wf(),
                empty_vec@.len() == 0,
                forall|k: int| 0 <= k < calendar@.len() ==> entry_wf(#[trigger] calendar@[k]),
                content@ == head_part + spec_day_rows(m, *today, header, i as int),
            decreases calendar@.len() - i,
        {
            content.append("<tr>");
            proof {
                assert(entry_wf(calendar@[i as int]));
                assert(m[i as int] == day_entry_model(calendar@[i as int]));
            }
            if header {
                let cell = make_header_cell(calendar[i].date.weekday());
                content.append(cell.as_str());
            }
            let cell = match &calendar[i].events {
                Some(v) => create_html_day(&calendar[i].date, v, today),
                None => create_html_day(&calendar[i].date, &empty_vec, today),
            };
            proof {
                assert(display_models(empty_vec@) =~= Seq::<DisplayModel>::empty());
            }
            content.append(cell.as_str());
            content.append("</tr>");
            i = i + 1;
            proof {
                assert(content@ =~= head_part + spec_day_rows(m, *today, header, i as int));
            }
        }
    }
    content.append("</table>");
    proof {
        assert(content@ =~= spec_table_html(m, row_weeks, header, *today, match wrapper_class {
            Some(c) => Some(c@),
            None => None,
        }));
    }
    Ok(content)
}

/// Whether every source failed to load or parse.
pub open spec fn all_failed(loaded: Seq<Option<Vec<RawEvent>>>) -> bool {
    forall|i: int| 0 <= i < loaded.len() ==> (#[trigger] loaded[i]) is None
}

/// What the renderer asks of its inputs.
pub open spec fn render_inputs_ok(
    config: Config,
    today: Date,
    loaded: Seq<Option<Vec<RawEvent>>>,
) -> bool {
    &&& window_inputs_ok(today, config.first_day)
    &&& loaded.len() == config.calendars@.len()
    &&& forall|i: int|
        0 <= i < loaded.len() ==> match #[trigger] loaded[i] {
            Some(events) => forall|j: int|
                0 <= j < events@.len() ==> (#[trigger] events@[j]).wf(),
            None => true,
        }
}

/// The rendered page as a function of the inputs alone.
pub open spec fn spec_render(
    config: Config,
    today: Date,
    loaded: Seq<Option<Vec<RawEvent>>>,
) -> Seq<char> {
    spec_table_html(
        spec_merged(
            spec_window(today, config.first_day, config.weeks as int),
            source_pairs(config.calendars@, loaded),
        ),
        config.week_as_row,
        config.header,
        today,
        Some(config.wrapper_class@),
    )
}

/// Render the calendar: compute the window, merge the per-source
/// outcomes, and lay the merged table out as an HTML grid.
///
/// The output is a function of the configuration, the current day and
/// the per-source outcomes alone, so two calls on identical inputs
/// produce identical text. When every source failed the render fails
/// with `AllSourcesFailed`; an empty window (week count zero) fails
/// with `EmptyWindow`; on all other inputs it succeeds.
pub fn render(config: &Config, today: &Date, loaded: &Vec<Option<Vec<RawEvent>>>) -> (r: Result<
    String,
    RenderError,
>)
    requires
        render_inputs_ok(*config, *today, loaded@),
    ensures
        all_failed(loaded@) ==> r == Err::<String, RenderError>(RenderError::AllSourcesFailed),
        !all_failed(loaded@) && config.weeks == 0 ==> r == Err::<String, RenderError>(
            RenderError::EmptyWindow,
        ),
        !all_failed(loaded@) && config.weeks > 0 ==> (r matches Ok(s) && s@ == spec_render(
            *config,
            *today,
            loaded@,
        )),
{
    let mut any: bool = false;
    let mut i: usize = 0;
    while i < loaded.len()
        invariant
            i <= loaded@.len(),
            any <==> exists|k: int| 0 <= k < i && !((#[trigger] loaded@[k]) is None),
        decreases loaded@.len() - i,
    {
        if loaded[i].is_some() {
            any = true;
        }
        i = i + 1;
    }
    if !any {
        return Err(RenderError::AllSourcesFailed);
    }
    if config.weeks == 0 {
        return Err(RenderError::EmptyWindow);
    }

    let window = date_window(today, &config.first_day, config.weeks);
    let table = merged_table(&config.calendars, loaded, &window);
    let ghost pairs = source_pairs(config.calendars@, loaded@);
    let ghost m = spec_merged(window@, pairs);
    proof {
        assert(sources_wf(pairs)) by {
            assert(forall|k: int| 0 <= k < pairs.len() ==> outcome_wf(#[trigger] pairs[k].1));
        }
        assert(entry_models(table@) =~= m);
        assert forall|k: int| 0 <= k < table@.len() implies entry_wf(#[trigger] table@[k]) by {
            assert(day_entry_model(table@[k]) == m[k]);
            assert(table@[k].date == window@[k]);
            lemma_merged_times_wf(pairs, window@[k].days as int);
            match table@[k].events {
                Some(v) => {
                    assert(opt_models(table@[k].events) == merged_at(
                        pairs,
                        window@[k].days as int,
                    ));
                    let ghost ms = display_models(v@);
                    assert(opt_models_time_wf(Some(ms)));
                    assert(forall|k2: int| 0 <= k2 < ms.len() ==> model_time_wf(
                        #[trigger] ms[k2],
                    ));
                    assert forall|j: int| 0 <= j < v@.len() implies event_time_wf(
                        #[trigger] v@[j],
                    ) by {
                        assert(ms.len() == v@.len());
                        assert(ms[j] == display_model(v@[j]));
                        assert(model_time_wf(ms[j]));
                    }
                },
                None => {},
            }
        }
        assert(table@.len() as int % 7 == 0);
    }
    let result = create_html_calendar(
        &table,
        config.week_as_row,
        config.header,
        today,
        Some(config.wrapper_class.as_str()),
    );
    proof {
        assert(table@.len() > 0);
    }
    result
}

} // verus!
