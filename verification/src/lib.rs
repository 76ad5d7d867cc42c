//! The weekly timetable of a group of the faculty, read from the HTML page
//! that shows it as a grid.
//!
//! The page places each class by CSS declarations: the column it stands in
//! names the day, the rows it covers give the start hour and the duration.
//! [`extract::timetable`] turns the elements of such a page, parsed
//! elsewhere and handed over as a [`page::Page`], into one
//! [`model::TimeBlock`] for each class, in the order of the page.

pub mod extract;
pub mod model;
pub mod page;
pub mod pattern;
pub mod position;
pub mod text;
pub mod upstream;
