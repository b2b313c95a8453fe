//! The comment and string machinery of a formatter for Move source code, with its contracts
//! proved: classifying the characters of a text as code, string or comment; finding code
//! outside comments; rewriting comments and long strings to fit a width; parsing and printing
//! dot chains; line tables; and the decisions of the command line.

use vstd::prelude::*;

/// Characters, string positions and the line and trimming operations of `str`.
pub mod text;
/// The formatting options.
pub mod config;
/// Indentations and the room a piece of text has.
pub mod shape;
/// The classes of characters (code, string, comment) and the searches and slices built on them.
pub mod comment;
/// Comment styles, told by a comment's opening characters.
pub mod style;
/// Dot chains such as `a.b(x).c`: parsing and printing.
pub mod dot_chain;
/// Breaking strings into lines that fit a width.
pub mod string_fmt;
/// Trimming comments line by line.
pub mod rewrite;
/// Cutting a comment into groups and rewriting each.
pub mod identify;
/// Re-indenting lines while keeping their relative layout.
pub mod layout;
/// Properties that relate several functions of the library.
pub mod laws;
/// The decisions of the command line.
pub mod cli;
/// Move tokens and their classes, the spacing between token trees, line breaks kept when
/// blank lines are trimmed, and link accesses.
pub mod tok_type;
/// Rewriting a comment line by line, wrapping long lines.
pub mod comment_rewrite;
/// Line tables of files, from byte offsets to lines and columns.
pub mod line_mapping;
/// Paths as components: normal forms, joining, parents, and where a manifest is looked for.
pub mod paths;
/// Laying out the specifiers of a function header one per line.
pub mod fun_header;
/// Lines of a text, and batches of edits applied to it.
pub mod spec_edits;
/// Blank lines between neighbouring blocks.
pub mod big_block;
/// The decisions taken for each file when formatting a list of files.
pub mod format_run;
/// The line breaks kept before a token where the source has blank lines.
pub mod blank_lines;
/// The calls, argument lists and struct values that the rules for breaking calls look at.
pub mod call_extract;

verus! {

} // verus!
