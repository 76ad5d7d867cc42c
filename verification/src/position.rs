//! From the groups that a pattern search found to day, start hour and
//! duration.
//!
//! A value that cannot be decoded is 0. For the day that is also Monday's
//! index: the two cannot be told apart.

use crate::pattern::{regex_captures, Groups, GroupsView, Patterns, DAY_PATTERN, ROW_SPAN_PATTERN};
use crate::text::{
    is_short_number, optional_text, parse_short_number, short_number, text_equals,
};
use vstd::prelude::*;

verus! {

/// The hour of the day at which row 0 of the grid would start.
pub const FIRST_HOUR: usize = 6;

/// The day, the start hour or the duration that could not be decoded.
pub const UNKNOWN: usize = 0;

/// Where an entry stands in the week: the day's index from Monday, the hour
/// of the day at which it starts, and the number of hours it lasts.
#[derive(Debug, Clone, Copy, PartialEq, Eq, Structural)]
pub struct Position {
    pub day: usize,
    pub time: usize,
    pub duration: usize,
}

/// A position as three numbers.
pub struct PositionView {
    pub day: nat,
    pub time: nat,
    pub duration: nat,
}

impl View for Position {
    type V = PositionView;

    open spec fn view(&self) -> PositionView {
        PositionView {
            day: self.day as nat,
            time: self.time as nat,
            duration: self.duration as nat,
        }
    }
}

/// The index of the day that a three-letter token names, Monday being 0 and
/// Friday 4; `UNKNOWN` for any other token.
pub open spec fn day_index(token: Seq<char>) -> nat {
    if token == "MON"@ {
        0
    } else if token == "TUE"@ {
        1
    } else if token == "WED"@ {
        2
    } else if token == "THU"@ {
        3
    } else if token == "FRI"@ {
        4
    } else {
        UNKNOWN as nat
    }
}

/// Group `k` of a search, where the search found a match and the group took
/// part in it.
pub open spec fn group(groups: GroupsView, k: int) -> Option<Seq<char>> {
    match groups {
        Some(found) => if 0 <= k < found.len() {
            found[k]
        } else {
            None
        },
        None => None,
    }
}

/// The start hour and the duration that the groups of a row and span search
/// stand for: where groups 1 and 2 are numbers of one or two digits, the
/// row plus `FIRST_HOUR`, and the span; else `UNKNOWN` twice.
pub open spec fn row_span_of(groups: GroupsView) -> (nat, nat) {
    match (group(groups, 1), group(groups, 2)) {
        (Some(row), Some(span)) => if is_short_number(row) && is_short_number(span) {
            (FIRST_HOUR as nat + short_number(row), short_number(span))
        } else {
            (UNKNOWN as nat, UNKNOWN as nat)
        },
        _ => (UNKNOWN as nat, UNKNOWN as nat),
    }
}

/// The day that the groups of a day search stand for: the index of the token
/// in group 1, or `UNKNOWN`.
pub open spec fn day_of(groups: GroupsView) -> nat {
    match group(groups, 1) {
        Some(token) => day_index(token),
        None => UNKNOWN as nat,
    }
}

/// What a search for `pattern` in a style gives; nothing where there is no
/// style.
pub open spec fn search(pattern: Seq<char>, style: Option<Seq<char>>) -> GroupsView {
    match style {
        Some(text) => regex_captures(pattern, text),
        None => None,
    }
}

/// The position that an entry's style and its parent's style declare.
pub open spec fn position_of(
    style: Option<Seq<char>>,
    parent_style: Option<Seq<char>>,
) -> PositionView {
    let (time, duration) = row_span_of(search(ROW_SPAN_PATTERN@, style));
    PositionView { day: day_of(search(DAY_PATTERN@, parent_style)), time, duration }
}

/// The index of the day that a three-letter token names, Monday being 0 and
/// Friday 4; `UNKNOWN` for any other token.
pub fn map_day(token: &str) -> (day: usize)
    ensures
        day == day_index(token@),
        day <= 4,
{
    if text_equals(token, "MON") {
        0
    } else if text_equals(token, "TUE") {
        1
    } else if text_equals(token, "WED") {
        2
    } else if text_equals(token, "THU") {
        3
    } else if text_equals(token, "FRI") {
        4
    } else {
        UNKNOWN
    }
}

/// Group `k` of a search, where the search found a match and the group took
/// part in it.
pub fn group_text(groups: &Groups, k: usize) -> (text: Option<&String>)
    ensures
        optional_text(text) == group(groups.deep_view(), k as int),
{
    match groups {
        Some(found) => {
            if k < found.len() {
                assert(found.deep_view()[k as int] == found@[k as int].deep_view());
                match &found[k] {
                    Some(t) => Some(t),
                    None => None,
                }
            } else {
                None
            }
        },
        None => None,
    }
}

/// The start hour and the duration that the groups of a row and span search
/// stand for.
pub fn row_span_from(groups: &Groups) -> (hours: (usize, usize))
    ensures
        (hours.0 as nat, hours.1 as nat) == row_span_of(groups.deep_view()),
        hours.0 == UNKNOWN || FIRST_HOUR <= hours.0 <= FIRST_HOUR + 99,
        hours.1 <= 99,
{
    match (group_text(groups, 1), group_text(groups, 2)) {
        (Some(row), Some(span)) => match (
            parse_short_number(row.as_str()),
            parse_short_number(span.as_str()),
        ) {
            (Some(r), Some(s)) => (FIRST_HOUR + r, s),
            _ => (UNKNOWN, UNKNOWN),
        },
        _ => (UNKNOWN, UNKNOWN),
    }
}

/// The day that the groups of a day search stand for.
pub fn day_from(groups: &Groups) -> (day: usize)
    ensures
        day == day_of(groups.deep_view()),
        day <= 4,
{
    match group_text(groups, 1) {
        Some(token) => map_day(token.as_str()),
        None => UNKNOWN,
    }
}

/// The position that an entry's style and its parent's style declare.
pub fn position(patterns: &Patterns, style: Option<&String>, parent_style: Option<&String>) -> (at:
    Position)
    ensures
        at@ == position_of(optional_text(style), optional_text(parent_style)),
        at.day <= 4,
        at.time == UNKNOWN || FIRST_HOUR <= at.time <= FIRST_HOUR + 99,
        at.duration <= 99,
{
    let (time, duration) = match style {
        Some(s) => row_span_from(&patterns.row_span_groups(s.as_str())),
        None => (UNKNOWN, UNKNOWN),
    };
    let day = match parent_style {
        Some(s) => day_from(&patterns.day_groups(s.as_str())),
        None => UNKNOWN,
    };
    Position { day, time, duration }
}

/// Where a row and span search found two numbers of one or two digits, the
/// start hour is the row plus 6 and the duration is the span.
pub proof fn lemma_row_span_decodes(groups: GroupsView, row: Seq<char>, span: Seq<char>)
    requires
        group(groups, 1) == Some(row),
        group(groups, 2) == Some(span),
        is_short_number(row),
        is_short_number(span),
    ensures
        row_span_of(groups) == (6 + short_number(row), short_number(span)),
        short_number(row) <= 99,
        short_number(span) <= 99,
{
}

/// The tokens `MON`, `TUE`, `WED`, `THU` and `FRI` name the days 0 to 4, and
/// every other token names `UNKNOWN`.
pub proof fn lemma_day_table(token: Seq<char>)
    ensures
        token == "MON"@ ==> day_index(token) == 0,
        token == "TUE"@ ==> day_index(token) == 1,
        token == "WED"@ ==> day_index(token) == 2,
        token == "THU"@ ==> day_index(token) == 3,
        token == "FRI"@ ==> day_index(token) == 4,
        token != "MON"@ && token != "TUE"@ && token != "WED"@ && token != "THU"@ && token
            != "FRI"@ ==> day_index(token) == UNKNOWN,
        day_index(token) <= 4,
{
    reveal_strlit("MON");
    reveal_strlit("TUE");
    reveal_strlit("WED");
    reveal_strlit("THU");
    reveal_strlit("FRI");
    assert("MON"@[0] != "TUE"@[0]);
    assert("MON"@[0] != "WED"@[0]);
    assert("MON"@[0] != "THU"@[0]);
    assert("MON"@[0] != "FRI"@[0]);
    assert("TUE"@[0] != "WED"@[0]);
    assert("TUE"@[1] != "THU"@[1]);
    assert("TUE"@[0] != "FRI"@[0]);
    assert("WED"@[0] != "THU"@[0]);
    assert("WED"@[0] != "FRI"@[0]);
    assert("THU"@[0] != "FRI"@[0]);
}

} // verus!
