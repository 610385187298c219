//! Typed parsing of desktop-entry files: INI-like text in which bracketed
//! section headers group `key=value` lines, and in which the name of a key
//! decides the type of its value.
//!
//! A file is read with [`XdgDesktopFile::from_str`], one line with
//! [`XdgDesktopValue::from_kv`]. A file is wrong only where an entry stands
//! before the first section header; a value that cannot be read is the
//! outcome of its entry and stops nothing.
//!
//! Everything here works on characters. What a line, a locale qualifier, a
//! list and a literal are is stated over `Seq<char>`, and each executable
//! function is proved to compute what is stated. One thing is asked of the
//! regex engine of the crate `onig` and taken on trust: which characters
//! beyond ASCII belong to the word class, of which the modifier of a locale
//! qualifier is made. Three choices are made here and kept throughout:
//!
//! - a section is found under its header as it stands in the file, brackets
//!   included;
//! - the value of a key that is not known is split first and probed then:
//!   one item is a scalar, several items are a list of one kind;
//! - a number is kept as the floating-point literal that was read, since no
//!   floating-point arithmetic is verified here.

pub mod lines;
pub mod list;
pub mod literal;
pub mod locale;
pub mod table;
pub mod text;
pub mod xdg_desktop_file;
pub mod xdg_desktop_value;
pub mod xdg_parse_error;

pub use xdg_desktop_file::{XdgDesktopFile, XdgDesktopSection};
pub use xdg_desktop_value::{Conversion, Scalar, XdgDesktopValue};
pub use xdg_parse_error::{FloatErrorKind, XdgParseError};
