//! Tokenizer for the comment tags and the functions of a shell script.
//!
//! A script declares a command line in comments: `# @cmd`, `# @option --foo`, `# @flag -f --foo`,
//! `# @arg foo!` and so on. [`parse`] reads a script line by line and gives one event for each
//! line that declares something or opens a function. What each line means is defined in
//! [`grammar`]; which arguments can be written and read again unchanged is proved in
//! [`notation`], and what holds of whole scripts in [`script`]. The forms of the text itself, piece
//! by piece, are in [`meaning`], [`forms`], [`lines`] and [`written`].

pub mod arg;
pub mod chars;
pub mod event;
pub mod forms;
pub mod grammar;
pub mod lines;
pub mod meaning;
pub mod notation;
pub mod parser;
pub mod script;
pub mod text;
pub mod written;

pub use arg::ArgData;
pub use arg::ArgKind;
pub use event::Event;
pub use event::EventData;
pub use parser::parse;
pub use parser::parse_flag_arg;
pub use parser::parse_line;
pub use parser::parse_option_arg;
pub use parser::parse_positional_arg;
pub use parser::ParseError;
