use vstd::prelude::*;

verus! {

/// What the formatter should emit.
#[derive(Clone, Copy, Debug, PartialEq, Eq, Structural)]
pub enum EmitMode {
    /// Overwrite the source file
    Overwrite,
    /// Emits to new files, eg: xxx.fmt.move.
    NewFile,
    /// Writes the output to stdout.
    Stdout,
    /// Checks if a diff can be generated. If so, the formatter outputs a diff and
    /// quits with exit code 1.
    Diff,
}

impl Default for EmitMode {
    fn default() -> (r: EmitMode)
        ensures
            r == EmitMode::Overwrite,
    {
        EmitMode::Overwrite
    }
}

/// How chatty should the formatter be?
#[derive(Clone, Copy, Debug, PartialEq, Eq, Structural)]
pub enum Verbosity {
    /// Emit more.
    Verbose,
    /// Default.
    Normal,
    /// Emit as little as possible.
    Quiet,
}

/// The formatting options that the comment and string rewriting reads.
#[derive(Clone, Copy, Debug, PartialEq, Eq, Structural)]
pub struct Config {
    /// Maximum width of each line.
    pub max_width: usize,
    /// Use tab characters for indentation, spaces for alignment.
    pub hard_tabs: bool,
    /// Number of spaces per tab.
    pub tab_spaces: usize,
    /// Break comments to fit on the line.
    pub wrap_comments: bool,
    /// Maximum length of comments.
    pub comment_width: usize,
    /// Convert /* */ comments to // comments where possible.
    pub normalize_comments: bool,
    /// How much information to emit to the user.
    pub verbose: Verbosity,
    /// What emit mode to use when none is supplied.
    pub emit_mode: EmitMode,
}

impl Default for Config {
    fn default() -> (c: Config)
        ensures
            c == Config::spec_default(),
    {
        Config {
            max_width: 100,
            hard_tabs: false,
            tab_spaces: 4,
            wrap_comments: false,
            comment_width: 80,
            normalize_comments: false,
            verbose: Verbosity::Normal,
            emit_mode: EmitMode::Overwrite,
        }
    }
}

impl Config {
    pub open spec fn spec_default() -> Config {
        Config {
            max_width: 100,
            hard_tabs: false,
            tab_spaces: 4,
            wrap_comments: false,
            comment_width: 80,
            normalize_comments: false,
            verbose: Verbosity::Normal,
            emit_mode: EmitMode::Overwrite,
        }
    }

    pub fn max_width(&self) -> (r: usize)
        ensures
            r == self.max_width,
    {
        self.max_width
    }

    pub fn hard_tabs(&self) -> (r: bool)
        ensures
            r == self.hard_tabs,
    {
        self.hard_tabs
    }

    pub fn tab_spaces(&self) -> (r: usize)
        ensures
            r == self.tab_spaces,
    {
        self.tab_spaces
    }

    pub fn verbose(&self) -> (r: Verbosity)
        ensures
            r == self.verbose,
    {
        self.verbose
    }

    pub fn emit_mode(&self) -> (r: EmitMode)
        ensures
            r == self.emit_mode,
    {
        self.emit_mode
    }
}

} // verus!
