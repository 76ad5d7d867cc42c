use fri_timetable::extract::{
    block, field, kind, or_missing_text, parent_style, style, subject_name, timetable, LOCATION,
};
use fri_timetable::model::{Subject, TimeBlock, MISSING};
use fri_timetable::page::{Attribute, Element, Page, Selector};
use fri_timetable::pattern::Patterns;
use fri_timetable::position::UNKNOWN;
use fri_timetable::upstream::allocations_url;
use soup::{NodeExt, QueryBuilderExt, Soup};

fn attribute(name: &str, value: &str) -> Attribute {
    Attribute { name: name.to_string(), value: value.to_string() }
}

fn element(name: &str, attributes: Vec<Attribute>, text: &str, extent: usize) -> Element {
    Element { name: name.to_string(), attributes, text: text.to_string(), extent }
}

/// The elements of the document that the parser builds from `html`, in
/// document order.
fn parse(html: &str) -> Page {
    let document = Soup::new(html);
    let elements = document
        .tag(true)
        .find_all()
        .map(|node| Element {
            name: node.name().to_string(),
            attributes: node
                .attrs()
                .into_iter()
                .map(|(name, value)| Attribute { name, value })
                .collect(),
            text: node.text(),
            extent: node.tag(true).find_all().count(),
        })
        .collect();
    Page { elements }
}

fn time_block(
    day: usize,
    time: usize,
    duration: usize,
    professor: &str,
    classroom: &str,
    name: &str,
    kind: &str,
) -> TimeBlock {
    TimeBlock {
        day,
        time,
        duration,
        professor: professor.to_string(),
        classroom: classroom.to_string(),
        subject: Subject {
            name: name.to_string(),
            abbreviation: name.to_string(),
            location: "FRI".to_string(),
            kind: kind.to_string(),
        },
    }
}

const TWO_ENTRIES: &str = r#"<html><body>
<div style="grid-area: dayMON">
  <div class="grid-entry" style="grid-row: 2 / span 3;">
    <a class="link-subject">Algorithms</a>
    <span class="entry-type">| LAB</span>
    <a class="link-teacher">J. Smith</a>
    <a class="link-classroom">P02</a>
  </div>
</div>
<div>
  <div class="grid-entry" data-style="none"></div>
</div>
</body></html>"#;

const WEEK: &str = r#"<!doctype html>
<html>
  <head><title>Timetable</title></head>
  <body>
    <div class="grid-outer">
      <div class="grid-day-column" style="grid-area: dayMON">
        <div class="grid-entry" style="grid-row: 2 / span 3; background: #eee">
          <div class="row"><a class="link-subject" href="/s/1">Algorithms</a><span class="entry-type">| LAB</span></div>
          <div class="row"><a class="link-classroom" href="/c/2">P02</a></div>
          <div class="row"><a class="link-teacher" href="/t/3">J. Smith</a></div>
        </div>
        <div class="wide grid-entry" style="grid-row: 11 / span 2;">
          <a class="link-subject">Databases</a>
        </div>
      </div>
      <div class="grid-day-column" style="grid-area: dayTHU">
        <div class="grid-entry">
          <span class="entry-type"> | P </span>
          <a class="link-teacher">A. Novak</a>
        </div>
        <div class="grid-entry-wide" style="grid-row: 1 / span 1;"><a>not an entry</a></div>
      </div>
      <div class="grid-day-column" style="grid-area: daySAT">
        <div class="grid-entry" style="grid-row: 7 / span 1;"><a class="link-classroom"> </a></div>
      </div>
    </div>
  </body>
</html>"#;

#[test]
fn two_entries_end_to_end() {
    let patterns = Patterns::compile().unwrap();
    assert_eq!(
        timetable(&patterns, &parse(TWO_ENTRIES)),
        vec![
            time_block(0, 8, 3, "J. Smith", "P02", "Algorithms", "LAB"),
            time_block(UNKNOWN, UNKNOWN, UNKNOWN, "N/A", "N/A", "N/A", "N/A"),
        ]
    );
}

#[test]
fn two_entries_from_the_elements_written_out() {
    let patterns = Patterns::compile().unwrap();
    let page = Page {
        elements: vec![
            element("html", vec![], "", 11),
            element("head", vec![], "", 1),
            element("body", vec![], "", 9),
            element("div", vec![attribute("style", "grid-area: dayMON")], "", 6),
            element(
                "div",
                vec![attribute("class", "grid-entry"), attribute("style", "grid-row: 2 / span 3;")],
                "",
                5,
            ),
            element("a", vec![attribute("class", "link-subject")], "Algorithms", 1),
            element("span", vec![attribute("class", "entry-type")], "| LAB", 1),
            element("a", vec![attribute("class", "link-teacher")], "J. Smith", 1),
            element("a", vec![attribute("class", "link-classroom")], "P02", 1),
            element("div", vec![], "", 2),
            element("div", vec![attribute("class", "grid-entry")], "", 1),
        ],
    };
    assert!(page.is_well_nested());
    assert_eq!(
        timetable(&patterns, &page),
        vec![
            time_block(0, 8, 3, "J. Smith", "P02", "Algorithms", "LAB"),
            time_block(UNKNOWN, UNKNOWN, UNKNOWN, "N/A", "N/A", "N/A", "N/A"),
        ]
    );
    let parsed = parse(TWO_ENTRIES);
    assert_eq!(parsed.len(), page.len());
    for (found, written) in parsed.elements.iter().zip(&page.elements) {
        assert_eq!(found.name, written.name);
        assert_eq!(found.extent, written.extent);
    }
}

#[test]
fn a_week_end_to_end() {
    let patterns = Patterns::compile().unwrap();
    assert_eq!(
        timetable(&patterns, &parse(WEEK)),
        vec![
            time_block(0, 8, 3, "J. Smith", "P02", "Algorithms", "LAB"),
            time_block(0, 17, 2, "N/A", "N/A", "Databases", "N/A"),
            time_block(3, UNKNOWN, UNKNOWN, "A. Novak", "N/A", "A. Novak", "P"),
            time_block(UNKNOWN, 13, 1, "N/A", "", "N/A", "N/A"),
        ]
    );
}

#[test]
fn a_present_but_empty_professor_or_classroom_stays_empty() {
    let patterns = Patterns::compile().unwrap();
    let html = r#"<div class="grid-entry"><span class="link-teacher"> </span><span class="link-classroom"></span></div>"#;
    assert_eq!(
        timetable(&patterns, &parse(html)),
        vec![time_block(UNKNOWN, UNKNOWN, UNKNOWN, "", "", "N/A", "N/A")]
    );
}

#[test]
fn an_empty_subject_or_kind_is_missing() {
    let patterns = Patterns::compile().unwrap();
    let html = r#"<div class="grid-entry"><a> </a><span class="entry-type"> | </span><b class="link-teacher">T</b></div>"#;
    assert_eq!(
        timetable(&patterns, &parse(html)),
        vec![time_block(UNKNOWN, UNKNOWN, UNKNOWN, "T", "N/A", "N/A", "N/A")]
    );
}

#[test]
fn a_page_without_entries_has_an_empty_timetable() {
    let patterns = Patterns::compile().unwrap();
    assert_eq!(timetable(&patterns, &parse("")), Vec::<TimeBlock>::new());
    assert_eq!(timetable(&patterns, &parse("<html><body><p>closed</p></body></html>")), Vec::<TimeBlock>::new());
    assert_eq!(timetable(&patterns, &Page { elements: vec![] }), Vec::<TimeBlock>::new());
}

#[test]
fn one_block_for_each_entry_in_document_order() {
    let patterns = Patterns::compile().unwrap();
    let page = parse(WEEK);
    let entries = page.all(Selector::Class("grid-entry"));
    let blocks = timetable(&patterns, &page);
    assert_eq!(blocks.len(), 4);
    assert_eq!(blocks.len(), entries.len());
    for (k, entry) in entries.into_iter().enumerate() {
        assert_eq!(blocks[k], block(&patterns, &page, entry));
    }
}

#[test]
fn extraction_twice_gives_the_same_blocks() {
    let patterns = Patterns::compile().unwrap();
    let first = timetable(&patterns, &parse(WEEK));
    let second = timetable(&patterns, &parse(WEEK));
    assert_eq!(first, second);
    let page = parse(WEEK);
    assert_eq!(timetable(&patterns, &page), timetable(&patterns, &page));
    assert_eq!(timetable(&patterns, &page), first);
}

#[test]
fn nested_entries_each_give_a_block() {
    let patterns = Patterns::compile().unwrap();
    let html = r#"<div style="grid-area: dayTUE"><div class="grid-entry" style="grid-row: 1 / span 4; grid-area: dayFRI"><a>Outer</a><div class="grid-entry" style="grid-row: 3 / span 1;"><a>Inner</a></div></div></div>"#;
    assert_eq!(
        timetable(&patterns, &parse(html)),
        vec![
            time_block(1, 7, 4, "N/A", "N/A", "Outer", "N/A"),
            time_block(4, 9, 1, "N/A", "N/A", "Inner", "N/A"),
        ]
    );
}

fn entry_page() -> Page {
    Page {
        elements: vec![
            element("div", vec![attribute("style", "grid-area: dayWED")], "", 6),
            element(
                "div",
                vec![attribute("class", "grid-entry"), attribute("style", "grid-row: 12 / span 10;")],
                "",
                5,
            ),
            element("a", vec![], "\n  Physics \t", 1),
            element("span", vec![attribute("class", "entry-type")], " || AV | ", 1),
            element("a", vec![attribute("class", "link-teacher")], "   ", 1),
            element("a", vec![attribute("class", "link-classroom")], "P|19", 1),
        ],
    }
}

#[test]
fn block_reads_position_and_fields() {
    let patterns = Patterns::compile().unwrap();
    let page = entry_page();
    assert_eq!(block(&patterns, &page, 1), time_block(2, 18, 10, "", "P|19", "Physics", "AV"));
}

#[test]
fn block_of_an_element_without_anything_is_unknown_but_for_the_location() {
    let patterns = Patterns::compile().unwrap();
    let page = entry_page();
    let unknown = time_block(UNKNOWN, UNKNOWN, UNKNOWN, "N/A", "N/A", "N/A", "N/A");
    assert_eq!(block(&patterns, &page, 4), TimeBlock { professor: String::new(), ..unknown.clone() });
    assert_eq!(block(&patterns, &page, 6), unknown);
    assert_eq!(block(&patterns, &Page { elements: vec![] }, 0), unknown);
    assert_eq!(unknown.subject.location, LOCATION);
}

#[test]
fn field_is_the_trimmed_text_or_missing_without_an_element() {
    let page = entry_page();
    assert_eq!(field(&page, 1, Selector::Tag("a")), "Physics");
    assert_eq!(field(&page, 1, Selector::Class("link-classroom")), "P|19");
    assert_eq!(field(&page, 1, Selector::Class("link-teacher")), "");
    assert_eq!(field(&page, 1, Selector::Class("link-group")), MISSING);
    assert_eq!(field(&page, 3, Selector::Tag("a")), MISSING);
    assert_eq!(field(&page, 9, Selector::Tag("a")), MISSING);
}

#[test]
fn subject_name_is_never_empty() {
    let page = entry_page();
    assert_eq!(subject_name(&page, 1), "Physics");
    assert_eq!(subject_name(&page, 4), MISSING);
    assert_eq!(subject_name(&page, 3), MISSING);
    assert_eq!(subject_name(&page, 9), MISSING);
}

#[test]
fn kind_loses_separators_and_outer_white_space() {
    let page = entry_page();
    assert_eq!(kind(&page, 1), "AV");
    assert_eq!(kind(&page, 3), "AV");
    assert_eq!(kind(&page, 2), MISSING);
    let page = Page { elements: vec![element("span", vec![attribute("class", "entry-type")], " | ", 1)] };
    assert_eq!(kind(&page, 0), MISSING);
    let page = Page { elements: vec![element("span", vec![attribute("class", "entry-type")], "L|V 2", 1)] };
    assert_eq!(kind(&page, 0), "LV 2");
}

#[test]
fn or_missing_text_replaces_the_empty_text_only() {
    assert_eq!(or_missing_text(String::new()), "N/A");
    assert_eq!(or_missing_text(" ".to_string()), " ");
    assert_eq!(or_missing_text("P02".to_string()), "P02");
}

#[test]
fn style_and_parent_style() {
    let page = entry_page();
    assert_eq!(style(&page, 0), Some(&"grid-area: dayWED".to_string()));
    assert_eq!(style(&page, 1), Some(&"grid-row: 12 / span 10;".to_string()));
    assert_eq!(style(&page, 2), None);
    assert_eq!(style(&page, 6), None);
    assert_eq!(parent_style(&page, 0), None);
    assert_eq!(parent_style(&page, 1), Some(&"grid-area: dayWED".to_string()));
    assert_eq!(parent_style(&page, 2), Some(&"grid-row: 12 / span 10;".to_string()));
    assert_eq!(parent_style(&page, 6), None);
}

#[test]
fn the_style_of_a_descendant_is_not_the_entry_s() {
    let patterns = Patterns::compile().unwrap();
    let html = r#"<div><div class="grid-entry"><a style="grid-row: 2 / span 3; grid-area: dayFRI">Logic</a></div></div>"#;
    assert_eq!(
        timetable(&patterns, &parse(html)),
        vec![time_block(UNKNOWN, UNKNOWN, UNKNOWN, "N/A", "N/A", "Logic", "N/A")]
    );
}

#[test]
fn default_records_hold_the_sentinels() {
    let subject = Subject::default();
    assert_eq!(subject.name, "N/A");
    assert_eq!(subject.abbreviation, "N/A");
    assert_eq!(subject.location, "N/A");
    assert_eq!(subject.kind, "N/A");
    let block = TimeBlock::default();
    assert_eq!(block.day, 0);
    assert_eq!(block.time, 0);
    assert_eq!(block.duration, 0);
    assert_eq!(block.professor, "N/A");
    assert_eq!(block.classroom, "N/A");
    assert_eq!(block.subject, subject);
    assert_eq!(MISSING, "N/A");
}

#[test]
fn allocations_url_appends_the_group_as_it_is() {
    assert_eq!(
        allocations_url("43889"),
        "https://urnik.fri.uni-lj.si/timetable/fri-2024_2025-letni/allocations?group=43889"
    );
    assert_eq!(
        allocations_url("a b&c"),
        "https://urnik.fri.uni-lj.si/timetable/fri-2024_2025-letni/allocations?group=a b&c"
    );
    assert_eq!(
        allocations_url(""),
        "https://urnik.fri.uni-lj.si/timetable/fri-2024_2025-letni/allocations?group="
    );
}
