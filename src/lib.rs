//! An in-memory registry of students, classes, clubs and courses whose
//! cross-references are kept consistent in both directions.

pub mod entities;
pub mod laws;
pub mod model;
pub mod registry;
