use fri_timetable::pattern::{Groups, Patterns, DAY_PATTERN, ROW_SPAN_PATTERN};
use fri_timetable::position::{
    day_from, group_text, map_day, position, row_span_from, Position, FIRST_HOUR, UNKNOWN,
};

fn found(groups: &[Option<&str>]) -> Groups {
    Some(groups.iter().map(|g| g.map(|text| text.to_string())).collect())
}

#[test]
fn map_day_knows_the_five_days() {
    assert_eq!(map_day("MON"), 0);
    assert_eq!(map_day("TUE"), 1);
    assert_eq!(map_day("WED"), 2);
    assert_eq!(map_day("THU"), 3);
    assert_eq!(map_day("FRI"), 4);
}

#[test]
fn map_day_gives_unknown_for_any_other_token() {
    assert_eq!(map_day("SAT"), UNKNOWN);
    assert_eq!(map_day("SUN"), UNKNOWN);
    assert_eq!(map_day("mon"), UNKNOWN);
    assert_eq!(map_day("MO"), UNKNOWN);
    assert_eq!(map_day("MOND"), UNKNOWN);
    assert_eq!(map_day(""), UNKNOWN);
}

#[test]
fn the_sentinel_and_the_first_hour() {
    assert_eq!(UNKNOWN, 0);
    assert_eq!(FIRST_HOUR, 6);
}

#[test]
fn group_text_reads_a_group_that_took_part() {
    let groups = found(&[Some("ab"), Some("a"), None]);
    assert_eq!(group_text(&groups, 0), Some(&"ab".to_string()));
    assert_eq!(group_text(&groups, 1), Some(&"a".to_string()));
    assert_eq!(group_text(&groups, 2), None);
    assert_eq!(group_text(&groups, 3), None);
    assert_eq!(group_text(&None, 0), None);
}

#[test]
fn row_span_from_adds_six_to_the_row() {
    let groups = found(&[Some("grid-row: 2 / span 3;"), Some("2"), Some("3")]);
    assert_eq!(row_span_from(&groups), (8, 3));
    let groups = found(&[Some("grid-row: 14 / span 1;"), Some("14"), Some("1")]);
    assert_eq!(row_span_from(&groups), (20, 1));
    let groups = found(&[Some("grid-row: 99 / span 99;"), Some("99"), Some("99")]);
    assert_eq!(row_span_from(&groups), (105, 99));
    let groups = found(&[Some("grid-row: 0 / span 0;"), Some("0"), Some("0")]);
    assert_eq!(row_span_from(&groups), (6, 0));
}

#[test]
fn row_span_from_gives_unknown_without_two_numbers() {
    assert_eq!(row_span_from(&None), (UNKNOWN, UNKNOWN));
    assert_eq!(row_span_from(&found(&[])), (UNKNOWN, UNKNOWN));
    assert_eq!(row_span_from(&found(&[Some("x"), Some("2")])), (UNKNOWN, UNKNOWN));
    assert_eq!(row_span_from(&found(&[Some("x"), Some("2"), None])), (UNKNOWN, UNKNOWN));
    assert_eq!(row_span_from(&found(&[Some("x"), None, Some("3")])), (UNKNOWN, UNKNOWN));
    assert_eq!(row_span_from(&found(&[Some("x"), Some("2"), Some("x")])), (UNKNOWN, UNKNOWN));
    assert_eq!(row_span_from(&found(&[Some("x"), Some("٢"), Some("3")])), (UNKNOWN, UNKNOWN));
    assert_eq!(row_span_from(&found(&[Some("x"), Some("123"), Some("3")])), (UNKNOWN, UNKNOWN));
}

#[test]
fn day_from_reads_the_token_in_group_one() {
    assert_eq!(day_from(&found(&[Some("grid-area: dayWED"), Some("WED")])), 2);
    assert_eq!(day_from(&found(&[Some("grid-area: dayFRI"), Some("FRI")])), 4);
    assert_eq!(day_from(&found(&[Some("grid-area: dayXYZ"), Some("XYZ")])), UNKNOWN);
    assert_eq!(day_from(&found(&[Some("grid-area: dayWED"), None])), UNKNOWN);
    assert_eq!(day_from(&found(&[Some("grid-area: dayWED")])), UNKNOWN);
    assert_eq!(day_from(&None), UNKNOWN);
}

#[test]
fn the_patterns_compile() {
    assert!(Patterns::compile().is_some());
}

#[test]
fn the_patterns_are_the_grid_declarations() {
    assert_eq!(ROW_SPAN_PATTERN, r"grid-row: (\d?\d) / span (\d?\d);");
    assert_eq!(DAY_PATTERN, r"grid-area: day(...)");
}

#[test]
fn row_span_groups_are_those_of_the_leftmost_match() {
    let patterns = Patterns::compile().unwrap();
    assert_eq!(
        patterns.row_span_groups("grid-row: 2 / span 3;"),
        found(&[Some("grid-row: 2 / span 3;"), Some("2"), Some("3")])
    );
    assert_eq!(
        patterns.row_span_groups("color: red; grid-row: 11 / span 2; grid-row: 5 / span 1;"),
        found(&[Some("grid-row: 11 / span 2;"), Some("11"), Some("2")])
    );
    assert_eq!(patterns.row_span_groups("grid-row: 2 / span 3"), None);
    assert_eq!(patterns.row_span_groups("grid-row: 123 / span 3;"), None);
    assert_eq!(patterns.row_span_groups("grid-row:2 / span 3;"), None);
    assert_eq!(patterns.row_span_groups(""), None);
}

#[test]
fn day_groups_are_those_of_the_leftmost_match() {
    let patterns = Patterns::compile().unwrap();
    assert_eq!(
        patterns.day_groups("grid-area: dayTUE"),
        found(&[Some("grid-area: dayTUE"), Some("TUE")])
    );
    assert_eq!(
        patterns.day_groups("x; grid-area: dayTHU; y"),
        found(&[Some("grid-area: dayTHU"), Some("THU")])
    );
    assert_eq!(
        patterns.day_groups("grid-area: daySATURDAY"),
        found(&[Some("grid-area: daySAT"), Some("SAT")])
    );
    assert_eq!(patterns.day_groups("grid-area: dayMO"), None);
    assert_eq!(patterns.day_groups("grid-area: day\nMON"), None);
    assert_eq!(patterns.day_groups("grid-area:dayMON"), None);
}

#[test]
fn position_decodes_both_styles() {
    let patterns = Patterns::compile().unwrap();
    let style = "grid-row: 2 / span 3;".to_string();
    let parent = "grid-area: dayMON".to_string();
    assert_eq!(
        position(&patterns, Some(&style), Some(&parent)),
        Position { day: 0, time: 8, duration: 3 }
    );
    let style = "grid-row: 10 / span 12; background: #fff".to_string();
    let parent = "width: 20%; grid-area: dayTHU;".to_string();
    assert_eq!(
        position(&patterns, Some(&style), Some(&parent)),
        Position { day: 3, time: 16, duration: 12 }
    );
}

#[test]
fn position_keeps_the_two_parts_apart() {
    let patterns = Patterns::compile().unwrap();
    let style = "grid-row: 4 / span 2;".to_string();
    let parent = "grid-area: dayWED".to_string();
    let unknown = Position { day: UNKNOWN, time: UNKNOWN, duration: UNKNOWN };
    assert_eq!(position(&patterns, None, None), unknown);
    assert_eq!(
        position(&patterns, Some(&style), None),
        Position { day: UNKNOWN, time: 10, duration: 2 }
    );
    assert_eq!(
        position(&patterns, None, Some(&parent)),
        Position { day: 2, time: UNKNOWN, duration: UNKNOWN }
    );
    // each style is searched for its own declaration only
    assert_eq!(position(&patterns, Some(&parent), Some(&style)), unknown);
}

#[test]
fn position_gives_unknown_for_digits_that_are_not_decimal() {
    let patterns = Patterns::compile().unwrap();
    let style = "grid-row: ٢ / span 3;".to_string();
    assert_eq!(
        position(&patterns, Some(&style), None),
        Position { day: UNKNOWN, time: UNKNOWN, duration: UNKNOWN }
    );
}

#[test]
fn position_gives_unknown_for_a_day_outside_the_table() {
    let patterns = Patterns::compile().unwrap();
    let parent = "grid-area: daySAT".to_string();
    assert_eq!(position(&patterns, None, Some(&parent)).day, UNKNOWN);
}
