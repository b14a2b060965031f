//! A command-line argument picker: parser styles, the matchers that tag the words an
//! argument claims, and the readers that turn tagged words into values.

pub mod text;
pub mod style;
pub mod arg;
pub mod parselib;
pub mod pickable;
pub mod duration;
pub mod derive;
pub mod attr;

