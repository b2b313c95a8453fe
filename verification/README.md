# movefmt

The comment and string machinery of a formatter for Move source code, written in Verus.
The functions of the library state in their contracts what they compute, and Verus proves
it. Where a result goes through a call whose answer depends on the platform (splitting a
path text into components), the contract states it exactly for texts that split the same
way everywhere, and what holds of every answer otherwise; the functions that take the
components themselves are exact.

## Layout

- `src/` — the verified library.
  - `text.rs`: characters, UTF-8 lengths, lines and trimming as `str` does them.
  - `comment.rs`: the scanner that tells code, strings and comments apart; searching for
    code outside comments; cutting a text into code and comment slices; keeping code lines.
  - `style.rs`, `rewrite.rs`, `identify.rs`, `layout.rs`, `comment_rewrite.rs`: comment
    styles and the rewriting of comments (trimming, re-indenting, wrapping long lines).
  - `string_fmt.rs`: breaking long strings into lines that fit a width.
  - `dot_chain.rs`: parsing and printing dot chains.
  - `line_mapping.rs`: line tables, from byte offsets to lines and columns; positions in
    ranges.
  - `paths.rs`: paths as components: normal forms, joining, parent directories, and the
    directories where a package manifest is looked for.
  - `fun_header.rs`: laying out the specifiers of a function header one per line, from the
    header's tokens; line starts and indents.
  - `spec_edits.rs`: lines of a text, and batches of edits applied against the unedited
    offsets.
  - `big_block.rs`: blank lines between neighbouring blocks, from where the blocks stand.
  - `tok_type.rs`: Move tokens, their classes, and the spacing between token trees.
  - `blank_lines.rs`: the line breaks kept before a token where the source has blank
    lines.
  - `call_extract.rs`: the calls, argument lists, struct values and long call chains of a
    Move expression, modelled as plain values, that the rules for breaking calls look at.
  - `format_run.rs`: the decisions taken for each file of a run: which files are left alone
    (outside any package, or in a directory that the configuration skips), what is emitted,
    and where the run stops.
  - `cli.rs`, `config.rs`, `shape.rs`: options and the command line's
    decisions.
  - `laws.rs`: properties that relate several functions.
- `tests/` — tests of the library on concrete values.
- `app/` — the command-line program: options, configuration files, reading and writing;
  it runs the files of a run through the library's per-file decisions.

The functions that lay out function headers, spec edits and blocks take what the Move
parser and lexer produce (token and block positions) as arguments.

Calls into `regex`, `unicode-segmentation`, `unicode-width` and `unicode-properties` go
through small trusted wrappers whose contracts say what those crates document.
