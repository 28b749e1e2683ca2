//! Fixtures of the club, read from calendar entries.

use crate::text::{
    chars_of, contains, contains_text, is_white_space, replace, replaced, split, split_on,
    string_of, trim, trimmed, views, white_space,
};
use vstd::prelude::*;

verus! {

/// The opponent named in a fixture title of the form `Home vs Away`: the
/// part after the separator for a home game, the part before it for an away
/// game, without surrounding white space. A title that does not consist of
/// exactly two such parts names no opponent.
pub open spec fn opponent_in(summary: Seq<char>, is_home: bool) -> Option<Seq<char>> {
    let parts = split_on(summary, " vs "@);
    if parts.len() == 2 {
        Some(
            trimmed(
                if is_home {
                    parts[1]
                } else {
                    parts[0]
                },
            ),
        )
    } else {
        None
    }
}

/// Reads the opponent out of the characters of a fixture title.
fn opponent_of(title: &Vec<char>, is_home: bool) -> (opponent: Option<String>)
    ensures
        match opponent {
            Some(name) => opponent_in(title@, is_home) == Some(name@),
            None => opponent_in(title@, is_home) is None,
        },
{
    let separator: Vec<char> = chars_of(" vs ");
    let parts: Vec<Vec<char>> = split(title, &separator);
    if parts.len() == 2 {
        let side: usize = if is_home {
            1
        } else {
            0
        };
        let name: Vec<char> = trim(&parts[side]);
        assert(views(parts@)[side as int] == parts@[side as int]@);
        Some(string_of(&name))
    } else {
        None
    }
}

/// Reads the opponent out of a fixture title.
pub fn extract_opponent(summary: &str, is_home: bool) -> (opponent: Option<String>)
    ensures
        match opponent {
            Some(name) => opponent_in(summary@, is_home) == Some(name@),
            None => opponent_in(summary@, is_home) is None,
        },
{
    let title: Vec<char> = chars_of(summary);
    opponent_of(&title, is_home)
}

/// One game. `date` is the kick-off as the calendar gives it, counted in
/// seconds from the start of 1970 without regard to any time zone.
#[derive(Debug, Clone, PartialEq, Eq)]
pub struct Fixture {
    pub date: i64,
    pub opponent: String,
}

/// A fixture as plain values.
pub struct FixtureView {
    pub date: i64,
    pub opponent: Seq<char>,
}

impl View for Fixture {
    type V = FixtureView;

    open spec fn view(&self) -> FixtureView {
        FixtureView { date: self.date, opponent: self.opponent@ }
    }
}

/// The fixtures of a list as plain values, in order.
pub open spec fn fixture_views(fixtures: Seq<Fixture>) -> Seq<FixtureView> {
    Seq::new(fixtures.len(), |i: int| fixtures[i]@)
}

/// One property of a calendar entry: its name and, if it has one, its value.
#[derive(Debug, Clone, PartialEq, Eq)]
pub struct CalendarProperty {
    pub name: String,
    pub value: Option<String>,
}

/// A calendar property as plain values.
pub struct PropertyView {
    pub name: Seq<char>,
    pub value: Option<Seq<char>>,
}

impl View for CalendarProperty {
    type V = PropertyView;

    open spec fn view(&self) -> PropertyView {
        PropertyView {
            name: self.name@,
            value: match self.value {
                Some(v) => Some(v@),
                None => None,
            },
        }
    }
}

/// The properties of one calendar entry as plain values, in order.
pub open spec fn property_views(properties: Seq<CalendarProperty>) -> Seq<PropertyView> {
    Seq::new(properties.len(), |i: int| properties[i]@)
}

/// The entries of a calendar as plain values, in order.
pub open spec fn event_views(events: Seq<Vec<CalendarProperty>>) -> Seq<Seq<PropertyView>> {
    Seq::new(events.len(), |i: int| property_views(events[i]@))
}

/// The events that the `ical` crate reads out of calendar text, each as the
/// list of its properties, all calendars of the text one after the other;
/// `None` where the crate reports the text as malformed.
pub uninterp spec fn ical_events(data: Seq<char>) -> Option<Seq<Seq<PropertyView>>>;

/// Reads calendar text with `ical::IcalParser` (`new` on the bytes of the
/// text, then its iterator to the end) and hands out the properties of every
/// event as name and value. The result is a function of the text alone; a
/// calendar that the parser reports as an error gives `None`.
#[verifier::external_body]
fn read_ical_events(data: &str) -> (events: Option<Vec<Vec<CalendarProperty>>>)
    ensures
        match events {
            Some(e) => ical_events(data@) == Some(event_views(e@)),
            None => ical_events(data@) is None,
        },
{
    let calendars: Result<Vec<_>, _> = ical::IcalParser::new(data.as_bytes()).collect();
    let events = calendars.ok()?.into_iter().flat_map(|calendar| calendar.events);
    Some(
        events.map(
            |e| e.properties.into_iter().map(
                |p| CalendarProperty { name: p.name, value: p.value },
            ).collect(),
        ).collect(),
    )
}

/// The moment that `chrono` reads out of `text` under `format`, in seconds
/// from the start of 1970; `None` where the text does not fit the format.
pub uninterp spec fn naive_timestamp(text: Seq<char>, format: Seq<char>) -> Option<i64>;

/// Parses a date and time without zone with
/// `chrono::NaiveDateTime::parse_from_str` and counts its seconds with
/// `and_utc().timestamp()`. The result is a function of the two texts alone;
/// a parse error gives `None`.
#[verifier::external_body]
fn parse_naive_timestamp(text: &str, format: &str) -> (seconds: Option<i64>)
    ensures
        seconds == naive_timestamp(text@, format@),
{
    chrono::NaiveDateTime::parse_from_str(text, format).ok().map(|t| t.and_utc().timestamp())
}

/// The value of the first property with the given name; `None` where no
/// property has the name or the first that has it has no value.
pub open spec fn first_value(properties: Seq<PropertyView>, name: Seq<char>) -> Option<Seq<char>>
    decreases properties.len(),
{
    if properties.len() == 0 {
        None
    } else if properties.first().name == name {
        properties.first().value
    } else {
        first_value(properties.drop_first(), name)
    }
}

/// Looks up the value of the first property with the given name.
pub fn property_value(properties: &Vec<CalendarProperty>, name: &str) -> (value: Option<String>)
    ensures
        match value {
            Some(v) => first_value(property_views(properties@), name@) == Some(v@),
            None => first_value(property_views(properties@), name@) is None,
        },
{
    let wanted: String = name.to_owned();
    let ghost all = property_views(properties@);
    let mut k: usize = 0;
    assert(all.skip(0) =~= all);
    while k < properties.len()
        invariant
            k <= properties.len(),
            all == property_views(properties@),
            wanted@ == name@,
            first_value(all, name@) == first_value(all.skip(k as int), name@),
        decreases properties.len() - k,
    {
        proof {
            assert(all.skip(k as int).drop_first() =~= all.skip(k + 1));
            assert(all.skip(k as int).first() == properties@[k as int]@);
        }
        if properties[k].name == wanted {
            return match &properties[k].value {
                Some(v) => Some(v.clone()),
                None => None,
            };
        }
        k = k + 1;
    }
    None
}

/// A character of the basic Latin range.
pub open spec fn is_ascii_char(c: char) -> bool {
    c as u32 <= 0x7F
}

/// The characters that are basic Latin or white space, in order.
pub open spec fn plain_chars(s: Seq<char>) -> Seq<char>
    decreases s.len(),
{
    if s.len() == 0 {
        Seq::empty()
    } else if is_ascii_char(s.last()) || is_white_space(s.last()) {
        plain_chars(s.drop_last()).push(s.last())
    } else {
        plain_chars(s.drop_last())
    }
}

/// Keeps the characters that are basic Latin or white space.
pub fn keep_plain_chars(s: &Vec<char>) -> (out: Vec<char>)
    ensures
        out@ == plain_chars(s@),
{
    let mut out: Vec<char> = Vec::new();
    let mut k: usize = 0;
    assert(s@.take(0) =~= Seq::<char>::empty());
    while k < s.len()
        invariant
            k <= s.len(),
            out@ == plain_chars(s@.take(k as int)),
        decreases s.len() - k,
    {
        proof {
            assert(s@.take(k + 1).drop_last() =~= s@.take(k as int));
        }
        let c: char = s[k];
        if c as u32 <= 0x7F || white_space(c) {
            out.push(c);
        }
        k = k + 1;
    }
    assert(s@.take(k as int) =~= s@);
    out
}

/// The fixture that a calendar entry describes. The entry needs a title, a
/// location and a start with values; the start, without any `Z`, has to
/// read as year, month, day, `T`, hour, minute, second; and the title, cut
/// down to basic Latin and white space and trimmed, has to name an opponent.
/// A game is a home game where the location mentions Anfield.
pub open spec fn fixture_of(properties: Seq<PropertyView>) -> Option<FixtureView> {
    match (
        first_value(properties, "SUMMARY"@),
        first_value(properties, "LOCATION"@),
        first_value(properties, "DTSTART"@),
    ) {
        (Some(summary), Some(location), Some(start)) => match naive_timestamp(
            replaced(start, "Z"@, ""@),
            "%Y%m%dT%H%M%S"@,
        ) {
            Some(date) => match opponent_in(
                trimmed(plain_chars(summary)),
                contains_text(location, "Anfield"@),
            ) {
                Some(opponent) => Some(FixtureView { date, opponent }),
                None => None,
            },
            None => None,
        },
        _ => None,
    }
}

/// Reads the fixture that a calendar entry describes, if it describes one.
pub fn fixture_of_event(properties: &Vec<CalendarProperty>) -> (fixture: Option<Fixture>)
    ensures
        match fixture {
            Some(f) => fixture_of(property_views(properties@)) == Some(f@),
            None => fixture_of(property_views(properties@)) is None,
        },
{
    let summary: Option<String> = property_value(properties, "SUMMARY");
    let location: Option<String> = property_value(properties, "LOCATION");
    let start: Option<String> = property_value(properties, "DTSTART");
    match (summary, location, start) {
        (Some(summary), Some(location), Some(start)) => {
            let start_chars: Vec<char> = chars_of(start.as_str());
            let zone_mark: Vec<char> = chars_of("Z");
            let nothing: Vec<char> = chars_of("");
            let bare: String = string_of(&replace(&start_chars, &zone_mark, &nothing));
            let date: i64 = match parse_naive_timestamp(bare.as_str(), "%Y%m%dT%H%M%S") {
                Some(t) => t,
                None => {
                    return None;
                },
            };
            let place: Vec<char> = chars_of(location.as_str());
            let home_ground: Vec<char> = chars_of("Anfield");
            let is_home: bool = contains(&place, &home_ground);
            let title: Vec<char> = chars_of(summary.as_str());
            let clean: Vec<char> = trim(&keep_plain_chars(&title));
            match opponent_of(&clean, is_home) {
                Some(opponent) => Some(Fixture { date, opponent }),
                None => None,
            }
        },
        _ => None,
    }
}

/// The fixtures that the entries describe, in the order of the entries.
pub open spec fn fixtures_found(events: Seq<Seq<PropertyView>>) -> Seq<FixtureView>
    decreases events.len(),
{
    if events.len() == 0 {
        Seq::empty()
    } else {
        match fixture_of(events.last()) {
            Some(f) => fixtures_found(events.drop_last()).push(f),
            None => fixtures_found(events.drop_last()),
        }
    }
}

/// `sorted` with `fixture` put in after every fixture that does not start
/// later than it.
pub open spec fn inserted_by_date(sorted: Seq<FixtureView>, fixture: FixtureView) -> Seq<
    FixtureView,
>
    decreases sorted.len(),
{
    if sorted.len() == 0 {
        seq![fixture]
    } else if sorted.last().date <= fixture.date {
        sorted.push(fixture)
    } else {
        inserted_by_date(sorted.drop_last(), fixture).push(sorted.last())
    }
}

/// The fixtures in the order of their start; fixtures that start at the
/// same moment keep the order in which they were given.
pub open spec fn sorted_by_date(fixtures: Seq<FixtureView>) -> Seq<FixtureView>
    decreases fixtures.len(),
{
    if fixtures.len() == 0 {
        Seq::empty()
    } else {
        inserted_by_date(sorted_by_date(fixtures.drop_last()), fixtures.last())
    }
}

/// No fixture of the list starts later than one that follows it.
pub open spec fn is_sorted_by_date(fixtures: Seq<FixtureView>) -> bool {
    forall|i: int, j: int|
        0 <= i < j < fixtures.len() ==> (#[trigger] fixtures[i]).date <= (#[trigger] fixtures[j]).date
}

/// Putting a fixture into a sorted list at position `at` is what
/// `inserted_by_date` does, where `at` is behind every fixture that does not
/// start later and before every fixture that does.
pub proof fn lemma_inserted_at(sorted: Seq<FixtureView>, fixture: FixtureView, at: int)
    requires
        0 <= at <= sorted.len(),
        forall|i: int| at <= i < sorted.len() ==> (#[trigger] sorted[i]).date > fixture.date,
        at > 0 ==> sorted[at - 1].date <= fixture.date,
    ensures
        inserted_by_date(sorted, fixture) == sorted.insert(at, fixture),
    decreases sorted.len(),
{
    if sorted.len() == 0 {
        assert(sorted.insert(at, fixture) =~= seq![fixture]);
    } else if at == sorted.len() {
        assert(sorted.insert(at, fixture) =~= sorted.push(fixture));
    } else {
        let front = sorted.drop_last();
        assert(sorted.last().date > fixture.date);
        assert forall|i: int| at <= i < front.len() implies (#[trigger] front[i]).date
            > fixture.date by {
            assert(front[i] == sorted[i]);
        }
        lemma_inserted_at(front, fixture, at);
        assert(front.insert(at, fixture).push(sorted.last()) =~= sorted.insert(at, fixture));
    }
}

/// Putting a fixture into a sorted list leaves the list sorted, one longer.
pub proof fn lemma_inserted_is_sorted(sorted: Seq<FixtureView>, fixture: FixtureView)
    requires
        is_sorted_by_date(sorted),
    ensures
        is_sorted_by_date(inserted_by_date(sorted, fixture)),
        inserted_by_date(sorted, fixture).len() == sorted.len() + 1,
        inserted_by_date(sorted, fixture).to_multiset() == sorted.to_multiset().insert(fixture),
    decreases sorted.len(),
{
    broadcast use vstd::seq_lib::group_to_multiset_ensures;

    let out = inserted_by_date(sorted, fixture);
    if sorted.len() == 0 {
        assert(seq![fixture] =~= Seq::<FixtureView>::empty().push(fixture));
        assert(sorted =~= Seq::<FixtureView>::empty());
    } else if sorted.last().date <= fixture.date {
    } else {
        let front = sorted.drop_last();
        assert forall|i: int, j: int| 0 <= i < j < front.len() implies (#[trigger] front[i]).date
            <= (#[trigger] front[j]).date by {
            assert(front[i] == sorted[i] && front[j] == sorted[j]);
        }
        lemma_inserted_is_sorted(front, fixture);
        let inner = inserted_by_date(front, fixture);
        assert(sorted =~= front.push(sorted.last()));
        assert forall|i: int| 0 <= i < inner.len() implies (#[trigger] inner[i]).date
            <= sorted.last().date by {
            assert(inner.to_multiset().count(inner[i]) > 0);
            if inner[i] != fixture {
                assert(front.to_multiset().count(inner[i]) > 0);
                let w = choose|w: int| 0 <= w < front.len() && front[w] == inner[i];
                assert(sorted[w] == front[w]);
            }
        }
        assert forall|i: int, j: int| 0 <= i < j < out.len() implies (#[trigger] out[i]).date <= (
        #[trigger] out[j]).date by {
            if j < inner.len() {
                assert(out[i] == inner[i] && out[j] == inner[j]);
            } else {
                assert(out[i] == inner[i]);
            }
        }
    }
}

/// Sorting keeps every fixture and puts them in the order of their start.
pub proof fn lemma_sorted_by_date(fixtures: Seq<FixtureView>)
    ensures
        is_sorted_by_date(sorted_by_date(fixtures)),
        sorted_by_date(fixtures).len() == fixtures.len(),
        sorted_by_date(fixtures).to_multiset() == fixtures.to_multiset(),
    decreases fixtures.len(),
{
    broadcast use vstd::seq_lib::group_to_multiset_ensures;

    if fixtures.len() > 0 {
        lemma_sorted_by_date(fixtures.drop_last());
        lemma_inserted_is_sorted(sorted_by_date(fixtures.drop_last()), fixtures.last());
        assert(fixtures =~= fixtures.drop_last().push(fixtures.last()));
    }
}

/// Puts the fixtures in the order of their start, keeping the given order
/// among fixtures that start at the same moment.
pub fn sort_by_date(fixtures: Vec<Fixture>) -> (sorted: Vec<Fixture>)
    ensures
        fixture_views(sorted@) == sorted_by_date(fixture_views(fixtures@)),
        is_sorted_by_date(fixture_views(sorted@)),
        sorted@.len() == fixtures@.len(),
        fixture_views(sorted@).to_multiset() == fixture_views(fixtures@).to_multiset(),
{
    let ghost all = fixture_views(fixtures@);
    let mut sorted: Vec<Fixture> = Vec::new();
    let n: usize = fixtures.len();
    let mut k: usize = 0;
    assert(all.take(0) =~= Seq::<FixtureView>::empty());
    assert(fixture_views(sorted@) =~= Seq::<FixtureView>::empty());
    while k < n
        invariant
            k <= n,
            n == fixtures.len(),
            all == fixture_views(fixtures@),
            fixture_views(sorted@) == sorted_by_date(all.take(k as int)),
        decreases n - k,
    {
        let next = Fixture { date: fixtures[k].date, opponent: fixtures[k].opponent.clone() };
        proof {
            assert(next@ == all[k as int]);
            assert(all.take(k + 1).drop_last() =~= all.take(k as int));
            lemma_sorted_by_date(all.take(k as int));
        }
        let mut at: usize = sorted.len();
        while at > 0 && sorted[at - 1].date > next.date
            invariant
                at <= sorted.len(),
                forall|i: int|
                    at <= i < sorted@.len() ==> (#[trigger] fixture_views(sorted@)[i]).date
                        > next.date,
            decreases at,
        {
            at = at - 1;
        }
        let ghost before = fixture_views(sorted@);
        proof {
            if at > 0 {
                assert(before[at - 1] == sorted@[at - 1]@);
            }
            lemma_inserted_at(before, next@, at as int);
        }
        sorted.insert(at, next);
        assert(fixture_views(sorted@) =~= before.insert(at as int, next@));
        k = k + 1;
    }
    proof {
        assert(all.take(k as int) =~= all);
        lemma_sorted_by_date(all);
    }
    sorted
}

/// Why no fixtures could be read.
#[derive(Debug, Clone, Copy, PartialEq, Eq)]
pub enum CalendarError {
    /// The calendar text is malformed.
    Malformed,
}

/// Reads the fixtures out of calendar text: one for every entry that
/// describes a game, in the order of their start. Text that the calendar
/// parser reports as malformed is an error.
pub fn parse_ical(ical_data: &str) -> (fixtures: Result<Vec<Fixture>, CalendarError>)
    ensures
        match fixtures {
            Ok(found) => {
                &&& ical_events(ical_data@) matches Some(events)
                &&& fixture_views(found@) == sorted_by_date(fixtures_found(events))
                &&& is_sorted_by_date(fixture_views(found@))
            },
            Err(CalendarError::Malformed) => ical_events(ical_data@) is None,
        },
{
    let events: Vec<Vec<CalendarProperty>> = match read_ical_events(ical_data) {
        Some(e) => e,
        None => {
            return Err(CalendarError::Malformed);
        },
    };
    let ghost all = event_views(events@);
    let mut found: Vec<Fixture> = Vec::new();
    let mut k: usize = 0;
    assert(all.take(0) =~= Seq::<Seq<PropertyView>>::empty());
    assert(fixture_views(found@) =~= Seq::<FixtureView>::empty());
    while k < events.len()
        invariant
            k <= events.len(),
            all == event_views(events@),
            fixture_views(found@) == fixtures_found(all.take(k as int)),
        decreases events.len() - k,
    {
        let ghost before = fixture_views(found@);
        proof {
            assert(all.take(k + 1).drop_last() =~= all.take(k as int));
            assert(all.take(k + 1).last() == property_views(events@[k as int]@));
        }
        match fixture_of_event(&events[k]) {
            Some(f) => {
                found.push(f);
                assert(fixture_views(found@) =~= before.push(found@[found@.len() - 1]@));
            },
            None => {},
        }
        k = k + 1;
    }
    assert(all.take(k as int) =~= all);
    Ok(sort_by_date(found))
}

/// The day on which a moment falls, counted from the start of 1970.
pub open spec fn day_of(seconds: i64) -> int {
    seconds as int / 86400
}

/// The day on which a moment falls.
pub fn day_number(seconds: i64) -> (day: i64)
    ensures
        day as int == day_of(seconds),
{
    if seconds >= 0 {
        seconds / 86400
    } else {
        let back: i64 = -(seconds + 1);
        -(back / 86400) - 1
    }
}

/// Position of the first fixture of the list that falls on the given day.
pub open spec fn first_on_day(fixtures: Seq<FixtureView>, day: int) -> Option<int>
    decreases fixtures.len(),
{
    if fixtures.len() == 0 {
        None
    } else {
        match first_on_day(fixtures.drop_last(), day) {
            Some(i) => Some(i),
            None => if day_of(fixtures.last().date) == day {
                Some(fixtures.len() - 1)
            } else {
                None
            },
        }
    }
}

/// Finds today's fixture: the first of the list that falls on the day of
/// `now`.
pub fn fixture_on_day_of(fixtures: &Vec<Fixture>, now: i64) -> (fixture: Option<Fixture>)
    ensures
        match fixture {
            Some(f) => first_on_day(fixture_views(fixtures@), day_of(now)) matches Some(i) && f@
                == fixtures@[i]@,
            None => first_on_day(fixture_views(fixtures@), day_of(now)) is None,
        },
{
    let today: i64 = day_number(now);
    let ghost all = fixture_views(fixtures@);
    let mut k: usize = 0;
    assert(all.take(0) =~= Seq::<FixtureView>::empty());
    while k < fixtures.len()
        invariant
            k <= fixtures.len(),
            all == fixture_views(fixtures@),
            today as int == day_of(now),
            first_on_day(all.take(k as int), today as int) is None,
        decreases fixtures.len() - k,
    {
        proof {
            assert(all.take(k + 1).drop_last() =~= all.take(k as int));
            assert(all.take(k + 1).last() == fixtures@[k as int]@);
        }
        if day_number(fixtures[k].date) == today {
            proof {
                lemma_first_on_day_prefix(all, today as int, k + 1);
            }
            return Some(
                Fixture { date: fixtures[k].date, opponent: fixtures[k].opponent.clone() },
            );
        }
        k = k + 1;
    }
    assert(all.take(k as int) =~= all);
    None
}

/// What is first on a day in a beginning of the list is first in the list.
pub proof fn lemma_first_on_day_prefix(fixtures: Seq<FixtureView>, day: int, k: int)
    requires
        0 <= k <= fixtures.len(),
        first_on_day(fixtures.take(k), day) is Some,
    ensures
        first_on_day(fixtures, day) == first_on_day(fixtures.take(k), day),
    decreases fixtures.len(),
{
    if k == fixtures.len() {
        assert(fixtures.take(k) =~= fixtures);
    } else {
        assert(fixtures.drop_last().take(k) =~= fixtures.take(k));
        lemma_first_on_day_prefix(fixtures.drop_last(), day, k);
    }
}


/// Finds today's fixture in calendar text: the first game, in the order of
/// their start, that falls on the day of `now`. Text that the calendar
/// parser reports as malformed is an error.
pub fn check_today_fixture(ical_data: &str, now: i64) -> (fixture: Result<
    Option<Fixture>,
    CalendarError,
>)
    ensures
        match fixture {
            Ok(found) => {
                &&& ical_events(ical_data@) matches Some(events)
                &&& match found {
                    Some(f) => first_on_day(
                        sorted_by_date(fixtures_found(events)),
                        day_of(now),
                    ) matches Some(i) && f@ == sorted_by_date(fixtures_found(events))[i],
                    None => first_on_day(sorted_by_date(fixtures_found(events)), day_of(now))
                        is None,
                }
            },
            Err(CalendarError::Malformed) => ical_events(ical_data@) is None,
        },
{
    let fixtures: Vec<Fixture> = match parse_ical(ical_data) {
        Ok(f) => f,
        Err(e) => {
            return Err(e);
        },
    };
    let found: Option<Fixture> = fixture_on_day_of(&fixtures, now);
    proof {
        lemma_first_on_day(fixture_views(fixtures@), day_of(now));
        if found is Some {
            let i = first_on_day(fixture_views(fixtures@), day_of(now))->0;
            assert(fixture_views(fixtures@)[i] == fixtures@[i]@);
        }
    }
    Ok(found)
}

/// What is first on a day lies within the list.
pub proof fn lemma_first_on_day(fixtures: Seq<FixtureView>, day: int)
    ensures
        match first_on_day(fixtures, day) {
            Some(i) => 0 <= i < fixtures.len() && day_of(fixtures[i].date) == day && forall|j: int|
                0 <= j < i ==> day_of((#[trigger] fixtures[j]).date) != day,
            None => forall|j: int|
                0 <= j < fixtures.len() ==> day_of((#[trigger] fixtures[j]).date) != day,
        },
    decreases fixtures.len(),
{
    if fixtures.len() > 0 {
        let front = fixtures.drop_last();
        lemma_first_on_day(front, day);
        assert forall|j: int| 0 <= j < front.len() implies front[j] == fixtures[j] by {}
        match first_on_day(fixtures, day) {
            Some(i) => {
                assert forall|j: int| 0 <= j < i implies day_of((#[trigger] fixtures[j]).date)
                    != day by {
                    assert(front[j] == fixtures[j]);
                }
            },
            None => {
                assert forall|j: int| 0 <= j < fixtures.len() implies day_of(
                    (#[trigger] fixtures[j]).date,
                ) != day by {
                    if j < front.len() {
                        assert(front[j] == fixtures[j]);
                    }
                }
            },
        }
    }
}

} // verus!
