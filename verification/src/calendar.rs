//! Release-calendar logic: status badges and the automatic status, countdown
//! badges, which events a month shows, the pills of one day cell, and month
//! navigation.
use vstd::prelude::*;
use crate::datetime::{
    ago_label, ago_label_spec, fits_i32, jdn, jdn_fits, jdn_fits_exec, jdn_spec, parse_ymd,
    parse_ymd_spec,
    today_ymd,
};
use crate::text::{chars_of, decimal, push_decimal, push_str, string_from};
use crate::types::{CalendarComponent, CalendarEvent};
use crate::war_room::{copy_opt_string, str_eq};

verus! {

broadcast use vstd::string::group_string_axioms;

/// Display name for calendar pills: short_name if set, else full name.
pub fn comp_display_name(c: &CalendarComponent) -> (r: &str)
    ensures
        r@ == match c.short_name {
            Some(s) => s@,
            None => c.name@,
        },
{
    match &c.short_name {
        Some(s) => s.as_str(),
        None => c.name.as_str(),
    }
}

pub open spec fn status_label_spec(s: Seq<char>) -> Seq<char> {
    if s == "at_risk"@ {
        "At risk"@
    } else if s == "delayed"@ {
        "Delayed"@
    } else if s == "released"@ {
        "Released"@
    } else {
        "On track"@
    }
}

pub fn status_label(s: &str) -> (r: &'static str)
    ensures
        r@ == status_label_spec(s@),
{
    if str_eq(s, "at_risk") {
        "At risk"
    } else if str_eq(s, "delayed") {
        "Delayed"
    } else if str_eq(s, "released") {
        "Released"
    } else {
        "On track"
    }
}

pub open spec fn status_css_spec(s: Seq<char>) -> Seq<char> {
    if s == "at_risk"@ {
        "status-badge status-at-risk"@
    } else if s == "delayed"@ {
        "status-badge status-delayed"@
    } else if s == "released"@ {
        "status-badge status-released"@
    } else {
        "status-badge status-on-track"@
    }
}

pub fn status_css(s: &str) -> (r: &'static str)
    ensures
        r@ == status_css_spec(s@),
{
    if str_eq(s, "at_risk") {
        "status-badge status-at-risk"
    } else if str_eq(s, "delayed") {
        "status-badge status-delayed"
    } else if str_eq(s, "released") {
        "status-badge status-released"
    } else {
        "status-badge status-on-track"
    }
}

// ---------------------------------------------------------------------------
// Automatic status
// ---------------------------------------------------------------------------

/// "released" once the planned date is today or past, else "on_track".
pub open spec fn auto_status_spec(release_date: Seq<char>, ty: int, tm: int, td: int) -> Seq<char> {
    match parse_ymd_spec(release_date) {
        Some((ry, rm, rd)) => if jdn_spec(ry as int, rm as int, rd as int) <= jdn_spec(ty, tm, td) {
            "released"@
        } else {
            "on_track"@
        },
        None => "on_track"@,
    }
}

/// Both day numbers can be computed without leaving the `i32` range.
pub open spec fn auto_status_ok(release_date: Seq<char>, ty: int, tm: int, td: int) -> bool {
    parse_ymd_spec(release_date) matches Some((ry, rm, rd)) ==> jdn_fits(ry as int, rm as int, rd as int)
        && jdn_fits(ty, tm, td)
}

/// Auto-pick "released" or "on_track" based on the planned date against
/// the given day. Only used as a default — doesn't override "at_risk" /
/// "delayed".
pub fn auto_status_at(release_date: &str, today: (i32, i32, i32)) -> (r: String)
    requires
        auto_status_ok(release_date@, today.0 as int, today.1 as int, today.2 as int),
    ensures
        r@ == auto_status_spec(release_date@, today.0 as int, today.1 as int, today.2 as int),
{
    let cs = chars_of(release_date);
    if let Some((ry, rm, rd)) = parse_ymd(cs.as_slice()) {
        let (ty, tm, td) = today;
        if jdn(ry, rm, rd) <= jdn(ty, tm, td) {
            return string_from("released");
        }
    }
    string_from("on_track")
}

/// Auto-pick "released" or "on_track" based on date vs today (read from the
/// browser clock). The day read is not known here, so for a parsed date only
/// the two possible answers are promised; [`auto_status_at`] states the
/// choice. `None` where a day number would leave the `i32` range.
pub fn auto_status(release_date: &str) -> (r: Option<String>)
    ensures
        r matches Some(s) ==> s@ == "released"@ || s@ == "on_track"@,
        parse_ymd_spec(release_date@) is None ==> (r matches Some(s) && s@ == "on_track"@),
        parse_ymd_spec(release_date@) matches Some((y, m, d)) && !jdn_fits(y as int, m as int, d as int)
            ==> r is None,
        r is None ==> parse_ymd_spec(release_date@) is Some,
{
    let today = today_ymd();
    let cs = chars_of(release_date);
    match parse_ymd(cs.as_slice()) {
        Some((ry, rm, rd)) => {
            if !(jdn_fits_exec(ry, rm, rd) && jdn_fits_exec(today.0, today.1, today.2)) {
                return None;
            }
        },
        None => {},
    }
    Some(auto_status_at(release_date, today))
}

/// The status after the planned date is edited to `new_date` on day
/// `today`: "on_track" and "released" follow the date, while an explicit
/// "at_risk" or "delayed" (or any other status) is kept.
pub open spec fn status_after_date_spec(current: Seq<char>, new_date: Seq<char>, ty: int, tm: int, td: int) -> Seq<
    char,
> {
    if current == "on_track"@ || current == "released"@ {
        auto_status_spec(new_date, ty, tm, td)
    } else {
        current
    }
}

/// The event dialog's status once the planned date changes.
pub fn status_after_date_change(current: &str, new_date: &str, today: (i32, i32, i32)) -> (r: String)
    requires
        auto_status_ok(new_date@, today.0 as int, today.1 as int, today.2 as int),
    ensures
        r@ == status_after_date_spec(current@, new_date@, today.0 as int, today.1 as int, today.2 as int),
        current@ != "on_track"@ && current@ != "released"@ ==> r@ == current@,
{
    if str_eq(current, "on_track") || str_eq(current, "released") {
        auto_status_at(new_date, today)
    } else {
        string_from(current)
    }
}

// ---------------------------------------------------------------------------
// Countdown badge
// ---------------------------------------------------------------------------

/// Label of a countdown `delta` days ahead (negative: behind).
pub open spec fn countdown_label(delta: int) -> Seq<char> {
    if delta == 0 {
        "today"@
    } else if delta > 0 {
        if delta < 14 {
            "in "@ + decimal(delta) + "d"@
        } else if delta < 90 {
            "in "@ + decimal(delta / 7) + "w"@
        } else {
            "in ~"@ + decimal(delta / 30) + "mo"@
        }
    } else {
        ago_label_spec(-delta)
    }
}

/// CSS modifier of a countdown `delta` days ahead.
pub open spec fn countdown_modifier(delta: int) -> Seq<char> {
    if delta == 0 {
        "today"@
    } else if delta > 0 && delta <= 30 {
        "soon"@
    } else if delta > 30 {
        "future"@
    } else {
        "overdue"@
    }
}

pub open spec fn countdown_spec(release: Seq<char>, ty: int, tm: int, td: int) -> Option<
    (Seq<char>, Seq<char>),
> {
    match parse_ymd_spec(release) {
        Some((ry, rm, rd)) => {
            let delta = jdn_spec(ry as int, rm as int, rd as int) - jdn_spec(ty, tm, td);
            Some((countdown_label(delta), countdown_modifier(delta)))
        },
        None => None,
    }
}

/// The day numbers and their difference stay inside the `i32` range.
pub open spec fn countdown_ok(release: Seq<char>, ty: int, tm: int, td: int) -> bool {
    parse_ymd_spec(release) matches Some((ry, rm, rd)) ==> {
        &&& jdn_fits(ry as int, rm as int, rd as int)
        &&& jdn_fits(ty, tm, td)
        &&& fits_i32(jdn_spec(ry as int, rm as int, rd as int) - jdn_spec(ty, tm, td))
        &&& fits_i32(jdn_spec(ty, tm, td) - jdn_spec(ry as int, rm as int, rd as int))
    }
}

/// Returns (label, css_modifier) for the countdown badge.
/// modifier: "future" | "soon" | "today" | "overdue"
pub fn countdown(release: &str, ty: i32, tm: i32, td: i32) -> (r: Option<(String, &'static str)>)
    requires
        countdown_ok(release@, ty as int, tm as int, td as int),
    ensures
        match r {
            Some((l, m)) => countdown_spec(release@, ty as int, tm as int, td as int) == Some(
                (l@, m@),
            ),
            None => countdown_spec(release@, ty as int, tm as int, td as int) is None,
        },
{
    let cs = chars_of(release);
    let (ry, rm, rd) = match parse_ymd(cs.as_slice()) {
        Some(t) => t,
        None => return None,
    };
    let delta = jdn(ry, rm, rd) - jdn(ty, tm, td);
    let label = if delta == 0 {
        string_from("today")
    } else if delta > 0 {
        let mut s = string_from("in ");
        if delta < 14 {
            push_decimal(&mut s, delta as i64);
            push_str(&mut s, "d");
        } else if delta < 90 {
            push_decimal(&mut s, (delta / 7) as i64);
            push_str(&mut s, "w");
        } else {
            push_str(&mut s, "~");
            push_decimal(&mut s, (delta / 30) as i64);
            push_str(&mut s, "mo");
            proof {
                assert("in "@ + "~"@ == "in ~"@) by {
                    reveal_strlit("in ");
                    reveal_strlit("~");
                    reveal_strlit("in ~");
                }
            }
        }
        s
    } else {
        ago_label(-delta)
    };
    let modifier = if delta == 0 {
        "today"
    } else if delta > 0 && delta <= 30 {
        "soon"
    } else if delta > 30 {
        "future"
    } else {
        "overdue"
    };
    Some((label, modifier))
}

/// The countdown badge of an event: only an event without an actual release
/// date shows one, counted to its planned date.
pub fn event_countdown(ev: &CalendarEvent, ty: i32, tm: i32, td: i32) -> (r: Option<
    (String, &'static str),
>)
    requires
        ev.actual_release_date is None ==> countdown_ok(
            ev.release_date@,
            ty as int,
            tm as int,
            td as int,
        ),
    ensures
        ev.actual_release_date is Some ==> r is None,
        ev.actual_release_date is None ==> match r {
            Some((l, m)) => countdown_spec(ev.release_date@, ty as int, tm as int, td as int)
                == Some((l@, m@)),
            None => countdown_spec(ev.release_date@, ty as int, tm as int, td as int) is None,
        },
{
    if ev.actual_release_date.is_some() {
        None
    } else {
        countdown(ev.release_date.as_str(), ty, tm, td)
    }
}


// ---------------------------------------------------------------------------
// Events of a month
// ---------------------------------------------------------------------------

/// A field-for-field copy of an event.
pub fn copy_event(e: &CalendarEvent) -> (r: CalendarEvent)
    ensures
        r == *e,
{
    CalendarEvent {
        id: e.id,
        calendar_id: e.calendar_id,
        component_id: e.component_id,
        version: e.version.clone(),
        status: e.status.clone(),
        release_date: e.release_date.clone(),
        actual_release_date: copy_opt_string(&e.actual_release_date),
        note: e.note.clone(),
        created_at: e.created_at.clone(),
        updated_at: e.updated_at.clone(),
    }
}

/// The date parses and falls in month `m` of year `y`.
pub open spec fn date_in_month(date: Seq<char>, y: int, m: int) -> bool {
    parse_ymd_spec(date) matches Some((ey, em, _)) && ey == y && em == m
}

/// The event's planned or actual date falls in the month.
pub open spec fn event_in_month(ev: CalendarEvent, y: int, m: int) -> bool {
    date_in_month(ev.release_date@, y, m) || (ev.actual_release_date matches Some(a) && date_in_month(
        a@,
        y,
        m,
    ))
}

pub open spec fn events_for_month_spec(events: Seq<CalendarEvent>, y: int, m: int) -> Seq<
    CalendarEvent,
>
    decreases events.len(),
{
    if events.len() == 0 {
        Seq::empty()
    } else {
        let rest = events_for_month_spec(events.drop_last(), y, m);
        if event_in_month(events.last(), y, m) {
            rest.push(events.last())
        } else {
            rest
        }
    }
}

fn date_in_month_exec(date: &str, y: i32, m: i32) -> (r: bool)
    ensures
        r == date_in_month(date@, y as int, m as int),
{
    let cs = chars_of(date);
    match parse_ymd(cs.as_slice()) {
        Some((ey, em, _)) => ey == y && em == m,
        None => false,
    }
}

/// Include events with either planned or actual date in the given month.
pub fn events_for_month(events: &[CalendarEvent], y: i32, m: i32) -> (r: Vec<CalendarEvent>)
    ensures
        r@ == events_for_month_spec(events@, y as int, m as int),
{
    let mut r: Vec<CalendarEvent> = Vec::new();
    let mut i: usize = 0;
    while i < events.len()
        invariant
            i <= events@.len(),
            r@ == events_for_month_spec(events@.take(i as int), y as int, m as int),
        decreases events@.len() - i,
    {
        let ev = &events[i];
        let planned = date_in_month_exec(ev.release_date.as_str(), y, m);
        let actual = match &ev.actual_release_date {
            Some(a) => date_in_month_exec(a.as_str(), y, m),
            None => false,
        };
        assert(events@.take(i + 1).drop_last() == events@.take(i as int));
        assert(events@.take(i + 1).last() == *ev);
        if planned || actual {
            r.push(copy_event(ev));
        }
        i = i + 1;
    }
    assert(events@.take(events@.len() as int) == events@);
    r
}

// ---------------------------------------------------------------------------
// One day cell of the month grid
// ---------------------------------------------------------------------------

/// One pill in a day cell.
#[derive(Clone, Debug, PartialEq)]
pub struct DayPill {
    pub event_id: i64,
    pub color: String,
    pub comp_name: String,
    pub version: String,
    pub is_selected: bool,
    pub is_actual: bool,
    pub has_actual: bool,
}

/// The first component whose id is `cid`.
pub open spec fn find_component(cs: Seq<CalendarComponent>, cid: Option<i64>) -> Option<
    CalendarComponent,
>
    decreases cs.len(),
{
    if cs.len() == 0 {
        None
    } else if Some(cs[0].id) == cid {
        Some(cs[0])
    } else {
        find_component(cs.drop_first(), cid)
    }
}

/// The date parses and its day field is `day` (the month is not compared:
/// the events were already narrowed to the month).
pub open spec fn on_day(date: Seq<char>, day: int) -> bool {
    parse_ymd_spec(date) matches Some((_, _, d)) && d == day
}

/// The pill an event puts in the cell of `day`, if any: a planned pill
/// (marked actual when the actual date is the same day), or an actual pill.
pub open spec fn day_pill(
    ev: CalendarEvent,
    comps: Seq<CalendarComponent>,
    day: int,
    filter_component: Option<i64>,
    selected_event: Option<i64>,
) -> Option<(i64, Seq<char>, Seq<char>, Seq<char>, bool, bool, bool)> {
    let comp_match = match filter_component {
        Some(fc) => ev.component_id == Some(fc),
        None => true,
    };
    let comp = find_component(comps, ev.component_id);
    let color = match comp {
        Some(c) => c.color@,
        None => "#8b949e"@,
    };
    let name = match comp {
        Some(c) => match c.short_name {
            Some(s) => s@,
            None => c.name@,
        },
        None => Seq::empty(),
    };
    let is_sel = selected_event == Some(ev.id);
    let has_actual = ev.actual_release_date is Some;
    let planned = on_day(ev.release_date@, day);
    let actual = match ev.actual_release_date {
        Some(a) => on_day(a@, day),
        None => false,
    };
    if !comp_match {
        None
    } else if planned {
        Some((ev.id, color, name, ev.version@, is_sel, actual, has_actual))
    } else if actual {
        Some((ev.id, color, name, ev.version@, is_sel, true, has_actual))
    } else {
        None
    }
}

pub open spec fn day_pills_spec(
    events: Seq<CalendarEvent>,
    comps: Seq<CalendarComponent>,
    day: int,
    filter_component: Option<i64>,
    selected_event: Option<i64>,
) -> Seq<(i64, Seq<char>, Seq<char>, Seq<char>, bool, bool, bool)>
    decreases events.len(),
{
    if events.len() == 0 {
        Seq::empty()
    } else {
        let rest = day_pills_spec(events.drop_last(), comps, day, filter_component, selected_event);
        match day_pill(events.last(), comps, day, filter_component, selected_event) {
            Some(p) => rest.push(p),
            None => rest,
        }
    }
}

/// The event's actual date falls on `day`.
pub open spec fn actual_on_day(ev: CalendarEvent, day: int) -> bool {
    match ev.actual_release_date {
        Some(a) => on_day(a@, day),
        None => false,
    }
}

/// The event passes the component filter and its planned or actual date
/// falls on `day`.
pub open spec fn shows_on_day(ev: CalendarEvent, day: int, filter_component: Option<i64>) -> bool {
    &&& match filter_component {
        Some(fc) => ev.component_id == Some(fc),
        None => true,
    }
    &&& (on_day(ev.release_date@, day) || actual_on_day(ev, day))
}

/// Some pill stands for `ev`: its id and version, selected exactly when the
/// event is the selected one, marked actual exactly when the actual date is
/// this day, and marked as having an actual date exactly when it has one.
pub open spec fn has_pill(
    pills: Seq<(i64, Seq<char>, Seq<char>, Seq<char>, bool, bool, bool)>,
    ev: CalendarEvent,
    day: int,
    selected_event: Option<i64>,
) -> bool {
    exists|j: int|
        0 <= j < pills.len() && (#[trigger] pills[j]).0 == ev.id && pills[j].3 == ev.version@
            && pills[j].4 == (selected_event == Some(ev.id)) && pills[j].5 == actual_on_day(ev, day)
            && pills[j].6 == (ev.actual_release_date is Some)
}

/// Some event shown on `day` has the pill's id.
pub open spec fn pill_has_event(
    events: Seq<CalendarEvent>,
    p: (i64, Seq<char>, Seq<char>, Seq<char>, bool, bool, bool),
    day: int,
    filter_component: Option<i64>,
) -> bool {
    exists|i: int|
        0 <= i < events.len() && (#[trigger] events[i]).id == p.0 && shows_on_day(
            events[i],
            day,
            filter_component,
        )
}

/// A day cell holds a pill for every event of the component filter whose
/// planned or actual date falls on that day, whether or not its release
/// slipped to another day, and no pill for any other event.
pub proof fn lemma_day_cell_shows_its_events(
    events: Seq<CalendarEvent>,
    comps: Seq<CalendarComponent>,
    day: int,
    filter_component: Option<i64>,
    selected_event: Option<i64>,
)
    ensures
        forall|i: int|
            0 <= i < events.len() && shows_on_day(#[trigger] events[i], day, filter_component)
                ==> has_pill(
                day_pills_spec(events, comps, day, filter_component, selected_event),
                events[i],
                day,
                selected_event,
            ),
        forall|j: int|
            0 <= j < day_pills_spec(events, comps, day, filter_component, selected_event).len()
                ==> pill_has_event(
                events,
                #[trigger] day_pills_spec(events, comps, day, filter_component, selected_event)[j],
                day,
                filter_component,
            ),
    decreases events.len(),
{
    let ps = day_pills_spec(events, comps, day, filter_component, selected_event);
    if events.len() == 0 {
        assert(ps.len() == 0);
    } else {
        let prev = events.drop_last();
        let rest = day_pills_spec(prev, comps, day, filter_component, selected_event);
        lemma_day_cell_shows_its_events(prev, comps, day, filter_component, selected_event);
        let ev = events.last();
        let p = day_pill(ev, comps, day, filter_component, selected_event);
        assert(p is Some <==> shows_on_day(ev, day, filter_component));
        assert forall|j: int| 0 <= j < rest.len() implies ps[j] == rest[j] by {}
        assert forall|i: int|
            0 <= i < events.len() && shows_on_day(#[trigger] events[i], day, filter_component)
                implies has_pill(ps, events[i], day, selected_event) by {
            if i < events.len() - 1 {
                assert(events[i] == prev[i]);
                let j = choose|j: int|
                    0 <= j < rest.len() && (#[trigger] rest[j]).0 == prev[i].id && rest[j].3
                        == prev[i].version@ && rest[j].4 == (selected_event == Some(prev[i].id))
                        && rest[j].5 == actual_on_day(prev[i], day) && rest[j].6 == (
                    prev[i].actual_release_date is Some);
                assert(ps[j] == rest[j]);
            } else {
                assert(events[i] == ev);
                assert(ps[ps.len() - 1] == p->0);
            }
        }
        assert forall|j: int| 0 <= j < ps.len() implies pill_has_event(
            events,
            #[trigger] ps[j],
            day,
            filter_component,
        ) by {
            if j < rest.len() {
                let i = choose|i: int|
                    0 <= i < prev.len() && (#[trigger] prev[i]).id == rest[j].0 && shows_on_day(
                        prev[i],
                        day,
                        filter_component,
                    );
                assert(events[i] == prev[i]);
            } else {
                assert(ps[j] == p->0);
                assert(events[events.len() - 1] == ev);
            }
        }
    }
}

pub open spec fn pill_view(p: DayPill) -> (i64, Seq<char>, Seq<char>, Seq<char>, bool, bool, bool) {
    (p.event_id, p.color@, p.comp_name@, p.version@, p.is_selected, p.is_actual, p.has_actual)
}

fn find_component_exec(cs: &[CalendarComponent], cid: Option<i64>) -> (r: Option<usize>)
    ensures
        r matches Some(k) ==> k < cs@.len() && find_component(cs@, cid) == Some(cs@[k as int]),
        r is None ==> find_component(cs@, cid) is None,
{
    let mut i: usize = 0;
    assert(cs@.skip(0) == cs@);
    while i < cs.len()
        invariant
            i <= cs@.len(),
            find_component(cs@, cid) == find_component(cs@.skip(i as int), cid),
        decreases cs@.len() - i,
    {
        assert(cs@.skip(i as int)[0] == cs@[i as int]);
        assert(cs@.skip(i as int).drop_first() == cs@.skip(i + 1));
        if Some(cs[i].id) == cid {
            return Some(i);
        }
        i = i + 1;
    }
    None
}

fn on_day_exec(date: &str, day: i32) -> (r: bool)
    ensures
        r == on_day(date@, day as int),
{
    let cs = chars_of(date);
    match parse_ymd(cs.as_slice()) {
        Some((_, _, d)) => d == day,
        None => false,
    }
}

/// The pills of the cell for `day`: one per event of the component filter
/// whose planned or actual date falls on that day.
pub fn day_pills(
    events: &[CalendarEvent],
    components: &[CalendarComponent],
    day: i32,
    filter_component: Option<i64>,
    selected_event: Option<i64>,
) -> (r: Vec<DayPill>)
    ensures
        r@.map_values(|p: DayPill| pill_view(p)) == day_pills_spec(
            events@,
            components@,
            day as int,
            filter_component,
            selected_event,
        ),
{
    let mut r: Vec<DayPill> = Vec::new();
    let mut i: usize = 0;
    while i < events.len()
        invariant
            i <= events@.len(),
            r@.map_values(|p: DayPill| pill_view(p)) == day_pills_spec(
                events@.take(i as int),
                components@,
                day as int,
                filter_component,
                selected_event,
            ),
        decreases events@.len() - i,
    {
        let ev = &events[i];
        assert(events@.take(i + 1).drop_last() == events@.take(i as int));
        assert(events@.take(i + 1).last() == *ev);
        let comp_match = match filter_component {
            Some(fc) => ev.component_id == Some(fc),
            None => true,
        };
        if comp_match {
            let ci = find_component_exec(components, ev.component_id);
            let color = match ci {
                Some(k) => components[k].color.clone(),
                None => string_from("#8b949e"),
            };
            let name = match ci {
                Some(k) => match &components[k].short_name {
                    Some(sn) => sn.clone(),
                    None => components[k].name.clone(),
                },
                None => String::new(),
            };
            let is_sel = selected_event == Some(ev.id);
            let has_actual = ev.actual_release_date.is_some();
            let planned = on_day_exec(ev.release_date.as_str(), day);
            let actual = match &ev.actual_release_date {
                Some(a) => on_day_exec(a.as_str(), day),
                None => false,
            };
            let ghost old_r = r@;
            if planned || actual {
                let pill = DayPill {
                    event_id: ev.id,
                    color,
                    comp_name: name,
                    version: ev.version.clone(),
                    is_selected: is_sel,
                    is_actual: if planned { actual } else { true },
                    has_actual,
                };
                r.push(pill);
                assert(r@.map_values(|p: DayPill| pill_view(p)) =~= old_r.map_values(
                    |p: DayPill| pill_view(p),
                ).push(pill_view(pill)));
            }
        }
        i = i + 1;
    }
    assert(events@.take(events@.len() as int) == events@);
    r
}

pub open spec fn pill_class_spec(is_actual: bool, is_sel: bool, has_actual: bool) -> Seq<char> {
    if is_actual && is_sel {
        "cal-event-pill actual selected"@
    } else if is_actual {
        "cal-event-pill actual"@
    } else if is_sel && has_actual {
        "cal-event-pill planned-done selected"@
    } else if is_sel {
        "cal-event-pill selected"@
    } else if has_actual {
        "cal-event-pill planned-done"@
    } else {
        "cal-event-pill"@
    }
}

/// CSS class of a day pill.
pub fn pill_class(is_actual: bool, is_sel: bool, has_actual: bool) -> (r: &'static str)
    ensures
        r@ == pill_class_spec(is_actual, is_sel, has_actual),
{
    if is_actual && is_sel {
        "cal-event-pill actual selected"
    } else if is_actual {
        "cal-event-pill actual"
    } else if is_sel && has_actual {
        "cal-event-pill planned-done selected"
    } else if is_sel {
        "cal-event-pill selected"
    } else if has_actual {
        "cal-event-pill planned-done"
    } else {
        "cal-event-pill"
    }
}

pub open spec fn pill_label_spec(
    is_center: bool,
    is_actual: bool,
    comp_name: Seq<char>,
    version: Seq<char>,
) -> Seq<char> {
    if is_center {
        let prefix = if is_actual {
            "✓ "@
        } else {
            Seq::empty()
        };
        if comp_name.len() > 0 {
            prefix + comp_name + " "@ + version
        } else {
            prefix + version
        }
    } else {
        Seq::empty()
    }
}

/// Text of a day pill: only the centre month labels its pills, a confirmed
/// (actual) pill with a check mark.
pub fn pill_label(is_center: bool, is_actual: bool, comp_name: &str, version: &str) -> (r: String)
    ensures
        r@ == pill_label_spec(is_center, is_actual, comp_name@, version@),
{
    let mut s = String::new();
    if is_center {
        if is_actual {
            push_str(&mut s, "✓ ");
        }
        if !comp_name.is_empty() {
            push_str(&mut s, comp_name);
            push_str(&mut s, " ");
        }
        push_str(&mut s, version);
    }
    s
}

/// Key of a day pill: the event id and `a` (actual) or `p` (planned).
pub fn pill_key(event_id: i64, is_actual: bool) -> (r: String)
    ensures
        r@ == decimal(event_id as int) + "-"@ + if is_actual {
            "a"@
        } else {
            "p"@
        },
{
    let mut s = String::new();
    push_decimal(&mut s, event_id);
    push_str(&mut s, "-");
    if is_actual {
        push_str(&mut s, "a");
    } else {
        push_str(&mut s, "p");
    }
    s
}

// ---------------------------------------------------------------------------
// Month navigation
// ---------------------------------------------------------------------------

/// The month offset, from today's month, of month `m` of year `y`.
pub open spec fn month_offset_spec(y: int, m: int, ty: int, tm: int) -> int {
    y * 12 + m - (ty * 12 + tm)
}

/// The offset computes in `i32` without overflow.
pub open spec fn month_offset_fits(y: int, m: int, ty: int, tm: int) -> bool {
    &&& fits_i32(y * 12)
    &&& fits_i32(y * 12 + m)
    &&& fits_i32(ty * 12)
    &&& fits_i32(ty * 12 + tm)
    &&& fits_i32(month_offset_spec(y, m, ty, tm))
}

/// Checks [`month_offset_fits`] at run time.
pub fn month_offset_fits_exec(y: i32, m: i32, ty: i32, tm: i32) -> (r: bool)
    ensures
        r == month_offset_fits(y as int, m as int, ty as int, tm as int),
{
    let a = y as i64 * 12;
    let b = ty as i64 * 12;
    let lo = i32::MIN as i64;
    let hi = i32::MAX as i64;
    lo <= a && a <= hi && lo <= a + m as i64 && a + m as i64 <= hi && lo <= b && b <= hi && lo
        <= b + tm as i64 && b + tm as i64 <= hi && lo <= (a + m as i64) - (b + tm as i64) && (a
        + m as i64) - (b + tm as i64) <= hi
}

/// How many months from today's month the calendar moves to show month `m`
/// of year `y` (clicking an event row shows its planned month).
pub fn month_offset(y: i32, m: i32, ty: i32, tm: i32) -> (r: i32)
    requires
        month_offset_fits(y as int, m as int, ty as int, tm as int),
    ensures
        r == month_offset_spec(y as int, m as int, ty as int, tm as int),
{
    y * 12 + m - (ty * 12 + tm)
}

/// The sort key of a date: `y * 10000 + m * 100 + d`.
pub open spec fn date_key(d: (i32, i32, i32)) -> int {
    d.0 * 10000 + d.1 * 100 + d.2
}

/// The planned dates (that parse) of the events of component `comp`, in
/// order.
pub open spec fn planned_dates(events: Seq<CalendarEvent>, comp: i64) -> Seq<(i32, i32, i32)>
    decreases events.len(),
{
    if events.len() == 0 {
        Seq::empty()
    } else {
        let rest = planned_dates(events.drop_last(), comp);
        let ev = events.last();
        if ev.component_id == Some(comp) {
            match parse_ymd_spec(ev.release_date@) {
                Some(d) => rest.push(d),
                None => rest,
            }
        } else {
            rest
        }
    }
}

/// The first date with the smallest key not below `t`.
pub open spec fn earliest_from(ds: Seq<(i32, i32, i32)>, t: int) -> Option<(i32, i32, i32)>
    decreases ds.len(),
{
    if ds.len() == 0 {
        None
    } else {
        let r = earliest_from(ds.drop_last(), t);
        let d = ds.last();
        if date_key(d) >= t && (r is None || date_key(d) < date_key(r->0)) {
            Some(d)
        } else {
            r
        }
    }
}

/// The last date with the largest key.
pub open spec fn latest(ds: Seq<(i32, i32, i32)>) -> Option<(i32, i32, i32)>
    decreases ds.len(),
{
    if ds.len() == 0 {
        None
    } else {
        let r = latest(ds.drop_last());
        let d = ds.last();
        if r is None || date_key(d) >= date_key(r->0) {
            Some(d)
        } else {
            r
        }
    }
}

/// Where selecting a component's chip moves the calendar: its next planned
/// release from today on, else its latest one.
pub open spec fn jump_target_spec(events: Seq<CalendarEvent>, comp: i64, today: (i32, i32, i32)) -> Option<
    (i32, i32, i32),
> {
    let ds = planned_dates(events, comp);
    match earliest_from(ds, date_key(today)) {
        Some(d) => Some(d),
        None => latest(ds),
    }
}

/// Every key involved computes in `i32` without overflow.
pub open spec fn jump_keys_fit(events: Seq<CalendarEvent>, comp: i64, today: (i32, i32, i32)) -> bool {
    &&& fits_i32(date_key(today))
    &&& fits_i32(today.0 * 10000)
    &&& fits_i32(today.1 * 100)
    &&& fits_i32(today.0 * 10000 + today.1 * 100)
    &&& forall|i: int|
        0 <= i < planned_dates(events, comp).len() ==> {
            let d = #[trigger] planned_dates(events, comp)[i];
            fits_i32(d.0 * 10000) && fits_i32(d.1 * 100) && fits_i32(d.0 * 10000 + d.1 * 100)
                && fits_i32(date_key(d))
        }
}

fn key_fits(d: (i32, i32, i32)) -> (r: bool)
    ensures
        r == (fits_i32(d.0 * 10000) && fits_i32(d.1 * 100) && fits_i32(d.0 * 10000 + d.1 * 100)
            && fits_i32(date_key(d))),
{
    let a = d.0 as i64 * 10000;
    let m = d.1 as i64 * 100;
    let b = a + m;
    let c = b + d.2 as i64;
    let lo = i32::MIN as i64;
    let hi = i32::MAX as i64;
    lo <= a && a <= hi && lo <= m && m <= hi && lo <= b && b <= hi && lo <= c && c <= hi
}

fn key_of(d: (i32, i32, i32)) -> (k: i32)
    requires
        fits_i32(d.0 * 10000),
        fits_i32(d.1 * 100),
        fits_i32(d.0 * 10000 + d.1 * 100),
        fits_i32(date_key(d)),
    ensures
        k == date_key(d),
{
    d.0 * 10000 + d.1 * 100 + d.2
}

fn planned_dates_exec(events: &[CalendarEvent], comp: i64) -> (r: Vec<(i32, i32, i32)>)
    ensures
        r@ == planned_dates(events@, comp),
{
    let mut r: Vec<(i32, i32, i32)> = Vec::new();
    let mut i: usize = 0;
    while i < events.len()
        invariant
            i <= events@.len(),
            r@ == planned_dates(events@.take(i as int), comp),
        decreases events@.len() - i,
    {
        assert(events@.take(i + 1).drop_last() == events@.take(i as int));
        assert(events@.take(i + 1).last() == events@[i as int]);
        if events[i].component_id == Some(comp) {
            let cs = chars_of(events[i].release_date.as_str());
            if let Some(d) = parse_ymd(cs.as_slice()) {
                r.push(d);
            }
        }
        i = i + 1;
    }
    assert(events@.take(events@.len() as int) == events@);
    r
}

/// Checks [`jump_keys_fit`] at run time.
pub fn jump_keys_fit_exec(events: &[CalendarEvent], comp: i64, today: (i32, i32, i32)) -> (r: bool)
    ensures
        r == jump_keys_fit(events@, comp, today),
{
    if !key_fits(today) {
        return false;
    }
    let ds = planned_dates_exec(events, comp);
    let mut i: usize = 0;
    while i < ds.len()
        invariant
            i <= ds@.len(),
            ds@ == planned_dates(events@, comp),
            forall|j: int|
                0 <= j < i ==> {
                    let d = #[trigger] ds@[j];
                    fits_i32(d.0 * 10000) && fits_i32(d.1 * 100) && fits_i32(d.0 * 10000 + d.1
                        * 100) && fits_i32(date_key(d))
                },
        decreases ds@.len() - i,
    {
        if !key_fits(ds[i]) {
            return false;
        }
        i = i + 1;
    }
    true
}

/// The date whose month the calendar shows after selecting component
/// `comp`: its next planned release from `today` on, else its latest.
pub fn jump_target(events: &[CalendarEvent], comp: i64, today: (i32, i32, i32)) -> (r: Option<
    (i32, i32, i32),
>)
    requires
        jump_keys_fit(events@, comp, today),
    ensures
        r == jump_target_spec(events@, comp, today),
{
    let ds = planned_dates_exec(events, comp);
    let t = key_of(today);
    let mut best: Option<(i32, i32, i32)> = None;
    let mut last: Option<(i32, i32, i32)> = None;
    let mut i: usize = 0;
    while i < ds.len()
        invariant
            i <= ds@.len(),
            ds@ == planned_dates(events@, comp),
            t == date_key(today),
            jump_keys_fit(events@, comp, today),
            best == earliest_from(ds@.take(i as int), t as int),
            last == latest(ds@.take(i as int)),
        decreases ds@.len() - i,
    {
        assert(ds@.take(i + 1).drop_last() == ds@.take(i as int));
        assert(ds@.take(i + 1).last() == ds@[i as int]);
        let d = ds[i];
        assert(planned_dates(events@, comp)[i as int] == d);
        let k = key_of(d);
        let better = match best {
            Some(b) => {
                proof {
                    lemma_earliest_in(ds@.take(i as int), t as int);
                    let j = choose|j: int|
                        0 <= j < ds@.take(i as int).len() && ds@.take(i as int)[j] == b;
                    assert(planned_dates(events@, comp)[j] == b);
                }
                k < key_of(b)
            },
            None => true,
        };
        if k >= t && better {
            best = Some(d);
        }
        let later = match last {
            Some(l) => {
                proof {
                    lemma_latest_in(ds@.take(i as int));
                    let j = choose|j: int|
                        0 <= j < ds@.take(i as int).len() && ds@.take(i as int)[j] == l;
                    assert(planned_dates(events@, comp)[j] == l);
                }
                k >= key_of(l)
            },
            None => true,
        };
        if later {
            last = Some(d);
        }
        i = i + 1;
    }
    assert(ds@.take(ds@.len() as int) == ds@);
    match best {
        Some(b) => Some(b),
        None => last,
    }
}

proof fn lemma_earliest_in(ds: Seq<(i32, i32, i32)>, t: int)
    ensures
        earliest_from(ds, t) matches Some(d) ==> exists|j: int| 0 <= j < ds.len() && ds[j] == d,
    decreases ds.len(),
{
    if ds.len() > 0 {
        lemma_earliest_in(ds.drop_last(), t);
        if let Some(d) = earliest_from(ds, t) {
            if d == ds.last() {
                assert(ds[ds.len() - 1] == d);
            } else {
                let j = choose|j: int| 0 <= j < ds.drop_last().len() && ds.drop_last()[j] == d;
                assert(ds[j] == d);
            }
        }
    }
}

proof fn lemma_latest_in(ds: Seq<(i32, i32, i32)>)
    ensures
        latest(ds) matches Some(d) ==> exists|j: int| 0 <= j < ds.len() && ds[j] == d,
    decreases ds.len(),
{
    if ds.len() > 0 {
        lemma_latest_in(ds.drop_last());
        if let Some(d) = latest(ds) {
            if d == ds.last() {
                assert(ds[ds.len() - 1] == d);
            } else {
                let j = choose|j: int| 0 <= j < ds.drop_last().len() && ds.drop_last()[j] == d;
                assert(ds[j] == d);
            }
        }
    }
}

/// Event `i` of `events` belongs to component `comp` and is planned on `d`.
pub open spec fn planned_on(events: Seq<CalendarEvent>, comp: i64, i: int, d: (i32, i32, i32)) -> bool {
    &&& 0 <= i < events.len()
    &&& events[i].component_id == Some(comp)
    &&& parse_ymd_spec(events[i].release_date@) == Some(d)
}

/// Some event of component `comp` is planned on `d`.
pub open spec fn is_planned_date(events: Seq<CalendarEvent>, comp: i64, d: (i32, i32, i32)) -> bool {
    exists|i: int| planned_on(events, comp, i, d)
}

proof fn lemma_planned_dates_members(events: Seq<CalendarEvent>, comp: i64)
    ensures
        forall|i: int, d: (i32, i32, i32)| #[trigger]
            planned_on(events, comp, i, d) ==> planned_dates(events, comp).contains(d),
        forall|j: int|
            0 <= j < planned_dates(events, comp).len() ==> is_planned_date(
                events,
                comp,
                #[trigger] planned_dates(events, comp)[j],
            ),
    decreases events.len(),
{
    if events.len() > 0 {
        let prev = events.drop_last();
        lemma_planned_dates_members(prev, comp);
        let ds = planned_dates(events, comp);
        let ps = planned_dates(prev, comp);
        assert forall|i: int, d: (i32, i32, i32)| #[trigger]
            planned_on(events, comp, i, d) implies ds.contains(d) by {
            if i < events.len() - 1 {
                assert(planned_on(prev, comp, i, d));
                let j = choose|j: int| 0 <= j < ps.len() && ps[j] == d;
                assert(ds[j] == d);
            } else {
                assert(ds[ds.len() - 1] == d);
            }
        }
        assert forall|j: int| 0 <= j < ds.len() implies is_planned_date(events, comp, #[trigger] ds[j]) by {
            let ev = events.last();
            if j < ps.len() {
                assert(ds[j] == ps[j]);
                let i = choose|i: int| planned_on(prev, comp, i, ps[j]);
                assert(events[i] == prev[i]);
                assert(planned_on(events, comp, i, ds[j]));
            } else {
                assert(ev.component_id == Some(comp));
                assert(parse_ymd_spec(ev.release_date@) is Some);
                assert(ds == ps.push(parse_ymd_spec(ev.release_date@)->0));
                assert(events[events.len() - 1] == ev);
                assert(planned_on(events, comp, events.len() - 1, ds[j]));
            }
        }
    } else {
        assert(planned_dates(events, comp).len() == 0);
    }
}

proof fn lemma_earliest_is_least(ds: Seq<(i32, i32, i32)>, t: int)
    ensures
        (exists|j: int| 0 <= j < ds.len() && date_key(#[trigger] ds[j]) >= t) ==> (earliest_from(
            ds,
            t,
        ) matches Some(r) && date_key(r) >= t && ds.contains(r) && forall|j: int|
            0 <= j < ds.len() && date_key(#[trigger] ds[j]) >= t ==> date_key(r) <= date_key(ds[j])),
        !(exists|j: int| 0 <= j < ds.len() && date_key(#[trigger] ds[j]) >= t) ==> earliest_from(
            ds,
            t,
        ) is None,
    decreases ds.len(),
{
    if ds.len() > 0 {
        let prev = ds.drop_last();
        lemma_earliest_is_least(prev, t);
        lemma_earliest_in(ds, t);
        assert forall|j: int| 0 <= j < prev.len() implies prev[j] == ds[j] by {}
        if exists|j: int| 0 <= j < prev.len() && date_key(#[trigger] prev[j]) >= t {
            let j0 = choose|j: int| 0 <= j < prev.len() && date_key(#[trigger] prev[j]) >= t;
            assert(date_key(ds[j0]) >= t);
        }
        if exists|j: int| 0 <= j < ds.len() && date_key(#[trigger] ds[j]) >= t {
            let r = earliest_from(ds, t)->0;
            let jr = choose|j: int| 0 <= j < ds.len() && ds[j] == r;
            assert(ds.contains(r));
            assert forall|j: int| 0 <= j < ds.len() && date_key(#[trigger] ds[j]) >= t implies date_key(r)
                <= date_key(ds[j]) by {
                if j < prev.len() {
                    assert(date_key(prev[j]) >= t);
                }
            }
        } else {
            assert forall|j: int| 0 <= j < prev.len() implies date_key(#[trigger] prev[j]) < t by {
                assert(date_key(ds[j]) < t);
            }
            assert(date_key(ds[ds.len() - 1]) < t);
        }
    }
}

proof fn lemma_latest_is_greatest(ds: Seq<(i32, i32, i32)>)
    ensures
        ds.len() > 0 ==> (latest(ds) matches Some(r) && ds.contains(r) && forall|j: int|
            0 <= j < ds.len() ==> date_key(#[trigger] ds[j]) <= date_key(r)),
        ds.len() == 0 ==> latest(ds) is None,
    decreases ds.len(),
{
    if ds.len() > 0 {
        let prev = ds.drop_last();
        lemma_latest_is_greatest(prev);
        lemma_latest_in(ds);
        let r = latest(ds)->0;
        let jr = choose|j: int| 0 <= j < ds.len() && ds[j] == r;
        assert(ds.contains(r));
        assert forall|j: int| 0 <= j < ds.len() implies date_key(#[trigger] ds[j]) <= date_key(r) by {
            if j < prev.len() {
                assert(ds[j] == prev[j]);
            }
        }
    }
}

/// Selecting a component moves the calendar to its next release: when some
/// planned date of the component lies on or after today, the target is such
/// a planned date with the smallest key (a release planned today is next);
/// otherwise it is the latest planned date, and nothing when there is none.
pub proof fn lemma_jump_to_next_release(events: Seq<CalendarEvent>, comp: i64, today: (i32, i32, i32))
    ensures
        (exists|i: int, d: (i32, i32, i32)|
            #[trigger] planned_on(events, comp, i, d) && date_key(d) >= date_key(today)) ==> (
        jump_target_spec(events, comp, today) matches Some(r) && date_key(r) >= date_key(today)
            && (exists|i: int| planned_on(events, comp, i, r)) && forall|i: int, d: (i32, i32, i32)|
            #[trigger] planned_on(events, comp, i, d) && date_key(d) >= date_key(today) ==> date_key(r)
                <= date_key(d)),
        !(exists|i: int, d: (i32, i32, i32)|
            #[trigger] planned_on(events, comp, i, d) && date_key(d) >= date_key(today)) ==> (
        match jump_target_spec(events, comp, today) {
            Some(r) => (exists|i: int| planned_on(events, comp, i, r)) && forall|
                i: int,
                d: (i32, i32, i32),
            | #[trigger] planned_on(events, comp, i, d) ==> date_key(d) <= date_key(r),
            None => forall|i: int, d: (i32, i32, i32)| !#[trigger] planned_on(events, comp, i, d),
        }),
{
    let ds = planned_dates(events, comp);
    let t = date_key(today);
    lemma_planned_dates_members(events, comp);
    lemma_earliest_is_least(ds, t);
    lemma_latest_is_greatest(ds);
    if exists|i: int, d: (i32, i32, i32)| #[trigger] planned_on(events, comp, i, d) && date_key(d) >= t {
        let (i0, d0) = choose|i: int, d: (i32, i32, i32)|
            #[trigger] planned_on(events, comp, i, d) && date_key(d) >= t;
        assert(ds.contains(d0));
        let j0 = choose|j: int| 0 <= j < ds.len() && ds[j] == d0;
        assert(date_key(ds[j0]) >= t);
        let r = earliest_from(ds, t)->0;
        let jr = choose|j: int| 0 <= j < ds.len() && ds[j] == r;
        assert(exists|i: int| planned_on(events, comp, i, ds[jr]));
        assert forall|i: int, d: (i32, i32, i32)|
            #[trigger] planned_on(events, comp, i, d) && date_key(d) >= t implies date_key(r) <= date_key(d) by {
            assert(ds.contains(d));
            let j = choose|j: int| 0 <= j < ds.len() && ds[j] == d;
            assert(date_key(ds[j]) >= t);
        }
    } else {
        assert forall|j: int| 0 <= j < ds.len() implies date_key(#[trigger] ds[j]) < t by {
            let i = choose|i: int| planned_on(events, comp, i, ds[j]);
            if date_key(ds[j]) >= t {
                assert(planned_on(events, comp, i, ds[j]) && date_key(ds[j]) >= t);
            }
        }
        match latest(ds) {
            Some(r) => {
                let jr = choose|j: int| 0 <= j < ds.len() && ds[j] == r;
                assert(exists|i: int| planned_on(events, comp, i, ds[jr]));
                assert forall|i: int, d: (i32, i32, i32)| #[trigger]
                    planned_on(events, comp, i, d) implies date_key(d) <= date_key(r) by {
                    assert(ds.contains(d));
                    let j = choose|j: int| 0 <= j < ds.len() && ds[j] == d;
                    assert(date_key(ds[j]) <= date_key(r));
                }
            },
            None => {
                assert forall|i: int, d: (i32, i32, i32)| !#[trigger] planned_on(events, comp, i, d) by {
                    if planned_on(events, comp, i, d) {
                        assert(ds.contains(d));
                    }
                }
            },
        }
    }
}

/// The event belongs to the selected component, or no component is selected.
pub open spec fn passes_component(fc: Option<i64>, ev: CalendarEvent) -> bool {
    match fc {
        Some(c) => ev.component_id == Some(c),
        None => true,
    }
}

/// How many events the list shows under the component filter.
pub fn shown_event_count(events: &[CalendarEvent], filter_component: Option<i64>) -> (n: usize)
    ensures
        n == events@.filter(|ev: CalendarEvent| passes_component(filter_component, ev)).len(),
{
    let mut n: usize = 0;
    let mut i: usize = 0;
    while i < events.len()
        invariant
            i <= events@.len(),
            n == events@.take(i as int).filter(
                |ev: CalendarEvent| passes_component(filter_component, ev),
            ).len(),
            n <= i,
        decreases events@.len() - i,
    {
        proof {
            events@.take(i as int).lemma_filter_push(
                events@[i as int],
                |ev: CalendarEvent| passes_component(filter_component, ev),
            );
            assert(events@.take(i + 1) == events@.take(i as int).push(events@[i as int]));
        }
        let keep = match filter_component {
            Some(fc) => events[i].component_id == Some(fc),
            None => true,
        };
        if keep {
            n = n + 1;
        }
        i = i + 1;
    }
    assert(events@.take(events@.len() as int) == events@);
    n
}

} // verus!
