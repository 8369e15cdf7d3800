//! Weekly timetables for school classes and their teachers.
//!
//! A school owns a catalog of lessons, a registry of teachers and a list of
//! classes. Generating the timetables binds a teacher to every lesson of every
//! class and books the lesson's weekly occurrences into free slots that the
//! class and the teacher share.

pub mod assignment;
pub mod class;
pub mod error;
pub mod grid;
pub mod laws;
pub mod lesson;
pub mod placement;
pub mod school;
pub mod teacher;
