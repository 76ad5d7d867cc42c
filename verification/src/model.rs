//! The timetable's two records.

use vstd::prelude::*;

verus! {

/// The text that stands for a field the page does not give.
pub const MISSING: &'static str = "N/A";

/// A subject: its name, its abbreviation, the campus it is taught at, and
/// the kind of class.
#[derive(Debug, Clone, PartialEq, Eq)]
pub struct Subject {
    pub name: String,
    pub abbreviation: String,
    pub location: String,
    pub kind: String,
}

/// A subject as four texts.
pub struct SubjectView {
    pub name: Seq<char>,
    pub abbreviation: Seq<char>,
    pub location: Seq<char>,
    pub kind: Seq<char>,
}

impl View for Subject {
    type V = SubjectView;

    open spec fn view(&self) -> SubjectView {
        SubjectView {
            name: self.name@,
            abbreviation: self.abbreviation@,
            location: self.location@,
            kind: self.kind@,
        }
    }
}

impl SubjectView {
    /// No field is empty.
    pub open spec fn well_formed(self) -> bool {
        &&& self.name.len() > 0
        &&& self.abbreviation.len() > 0
        &&& self.location.len() > 0
        &&& self.kind.len() > 0
    }
}

/// One scheduled class: the day's index from Monday, the hour of the day at
/// which it starts, the number of hours it lasts, who teaches it and where,
/// and the subject.
#[derive(Debug, Clone, PartialEq, Eq)]
pub struct TimeBlock {
    pub day: usize,
    pub time: usize,
    pub duration: usize,
    pub professor: String,
    pub classroom: String,
    pub subject: Subject,
}

/// A time block as numbers and texts.
pub struct TimeBlockView {
    pub day: nat,
    pub time: nat,
    pub duration: nat,
    pub professor: Seq<char>,
    pub classroom: Seq<char>,
    pub subject: SubjectView,
}

impl View for TimeBlock {
    type V = TimeBlockView;

    open spec fn view(&self) -> TimeBlockView {
        TimeBlockView {
            day: self.day as nat,
            time: self.time as nat,
            duration: self.duration as nat,
            professor: self.professor@,
            classroom: self.classroom@,
            subject: self.subject@,
        }
    }
}

impl TimeBlockView {
    /// The day is one of Monday to Friday, the start hour is 0 or an hour
    /// from 6 on that a two-digit row can give, the duration has at most two
    /// digits, and no field of the subject is empty. The professor and the
    /// classroom may be empty: the page may name none.
    pub open spec fn well_formed(self) -> bool {
        &&& self.day <= 4
        &&& (self.time == 0 || 6 <= self.time <= 105)
        &&& self.duration <= 99
        &&& self.subject.well_formed()
    }
}

/// The subject of which nothing is known: `MISSING` in every field.
pub open spec fn unknown_subject() -> SubjectView {
    SubjectView { name: MISSING@, abbreviation: MISSING@, location: MISSING@, kind: MISSING@ }
}

/// The time block of which nothing is known: 0 in every number, `MISSING`
/// in every text.
pub open spec fn unknown_block() -> TimeBlockView {
    TimeBlockView {
        day: 0,
        time: 0,
        duration: 0,
        professor: MISSING@,
        classroom: MISSING@,
        subject: unknown_subject(),
    }
}

/// `MISSING` is the three characters `N/A`.
pub proof fn lemma_missing_text()
    ensures
        MISSING@ == seq!['N', '/', 'A'],
        MISSING@.len() == 3,
{
    reveal_strlit("N/A");
    assert(MISSING@ =~= seq!['N', '/', 'A']);
}

impl Default for Subject {
    fn default() -> (subject: Subject)
        ensures
            subject@ == unknown_subject(),
            subject@.well_formed(),
    {
        proof {
            lemma_missing_text();
        }
        Subject {
            name: MISSING.to_string(),
            abbreviation: MISSING.to_string(),
            location: MISSING.to_string(),
            kind: MISSING.to_string(),
        }
    }
}

impl Default for TimeBlock {
    fn default() -> (block: TimeBlock)
        ensures
            block@ == unknown_block(),
            block@.well_formed(),
    {
        proof {
            lemma_missing_text();
        }
        TimeBlock {
            day: 0,
            time: 0,
            duration: 0,
            professor: MISSING.to_string(),
            classroom: MISSING.to_string(),
            subject: Subject::default(),
        }
    }
}

} // verus!
