//! A recursive person record and its validating conversion to and from a
//! loosely typed, ordered key-value document.
//!
//! A [`Person`] has a name, an age and an ordered list of children, each a
//! person again. [`Person::to_dict`] writes a person as a [`Document`],
//! [`Person::from_dict`] reads one back and says exactly why a document is
//! refused, and [`Person::validate`] is the one entry point for input of
//! unknown kind.
//!
//! The functions that walk a tree call themselves once per level, as the
//! dropping of a tree does. Trees of up to 1,000 levels are supported;
//! a tree that is far deeper can exhaust the stack of the caller.

pub mod codec;
pub mod document;
pub mod error;
pub mod generate;
pub mod record;
pub mod render;

pub use codec::Input;
pub use document::{Document, Value};
pub use error::{DecodeError, Field};
pub use generate::create_nested_person;
pub use record::{create_random_person, new_person, Person};
