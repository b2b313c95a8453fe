use vstd::prelude::*;

use crate::config::Config;

verus! {

/// An indentation: a block part (made of tabs when the configuration asks for hard tabs) and
/// an alignment part (always spaces).
#[derive(Clone, Copy, Debug, PartialEq, Eq, Structural)]
pub struct Indent {
    /// Width of the block indent, in characters.
    pub block_indent: usize,
    /// Alignment in characters.
    pub alignment: usize,
}

/// The room that a piece of text has: its width, its indentation and its offset.
#[derive(Clone, Copy, Debug, PartialEq, Eq, Structural)]
pub struct Shape {
    pub width: usize,
    pub indent: Indent,
    pub offset: usize,
}

/// `n` copies of `c`.
pub open spec fn repeat_char(c: char, n: nat) -> Seq<char> {
    Seq::new(n, |_i: int| c)
}

impl Indent {
    pub fn new(block_indent: usize, alignment: usize) -> (r: Indent)
        ensures
            r.block_indent == block_indent,
            r.alignment == alignment,
    {
        Indent { block_indent, alignment }
    }

    pub open spec fn spec_width(self) -> int {
        self.block_indent + self.alignment
    }

    /// The number of tabs and of spaces that write this indentation.
    pub open spec fn tabs_and_spaces(self, config: Config) -> (nat, nat) {
        if config.hard_tabs && config.tab_spaces > 0 {
            ((self.block_indent / config.tab_spaces) as nat, self.alignment as nat)
        } else {
            (0, (self.block_indent + self.alignment) as nat)
        }
    }

    /// The text of this indentation.
    pub open spec fn spec_to_string(self, config: Config) -> Seq<char> {
        let (t, s) = self.tabs_and_spaces(config);
        repeat_char('\t', t) + repeat_char(' ', s)
    }

    /// The indentation of the given width: with hard tabs, as many tab stops as fit and the
    /// rest as alignment.
    pub open spec fn spec_from_width(config: Config, width: nat) -> Indent {
        if config.hard_tabs {
            Indent {
                block_indent: (config.tab_spaces * (width / config.tab_spaces as nat)) as usize,
                alignment: (width % config.tab_spaces as nat) as usize,
            }
        } else {
            Indent { block_indent: width as usize, alignment: 0 }
        }
    }

    pub fn from_width(config: &Config, width: usize) -> (r: Indent)
        requires
            config.hard_tabs ==> config.tab_spaces > 0,
        ensures
            r == Indent::spec_from_width(*config, width as nat),
            r.spec_width() == width,
    {
        if config.hard_tabs {
            let ts = config.tab_spaces;
            proof {
                vstd::arithmetic::div_mod::lemma_fundamental_div_mod(width as int, ts as int);
                assert(width % ts >= 0);
            }
            let tab_num = width / ts;
            let alignment = width % ts;
            Indent::new(ts * tab_num, alignment)
        } else {
            Indent::new(width, 0)
        }
    }

    pub fn width(&self) -> (r: usize)
        requires
            self.spec_width() <= usize::MAX,
        ensures
            r == self.spec_width(),
    {
        self.block_indent + self.alignment
    }

    /// The text of this indentation: tabs for the block part when `hard_tabs` is set, spaces
    /// otherwise.
    pub fn to_string(&self, config: &Config) -> (r: String)
        requires
            self.spec_width() <= usize::MAX,
            config.hard_tabs ==> config.tab_spaces > 0,
        ensures
            r@ == self.spec_to_string(*config),
    {
        let (num_tabs, num_spaces) = if config.hard_tabs && config.tab_spaces > 0 {
            (self.block_indent / config.tab_spaces, self.alignment)
        } else {
            (0, self.block_indent + self.alignment)
        };
        let mut s = String::new();
        let mut i: usize = 0;
        while i < num_tabs
            invariant
                i <= num_tabs,
                s@ == repeat_char('\t', i as nat),
            decreases num_tabs - i,
        {
            crate::text::string_push(&mut s, '\t');
            assert(s@ =~= repeat_char('\t', (i + 1) as nat));
            i = i + 1;
        }
        let mut j: usize = 0;
        while j < num_spaces
            invariant
                j <= num_spaces,
                s@ == repeat_char('\t', num_tabs as nat) + repeat_char(' ', j as nat),
            decreases num_spaces - j,
        {
            crate::text::string_push(&mut s, ' ');
            assert(s@ =~= repeat_char('\t', num_tabs as nat) + repeat_char(' ', (j + 1) as nat));
            j = j + 1;
        }
        s
    }

    /// A line feed followed by the text of this indentation.
    pub fn to_string_with_newline(&self, config: &Config) -> (r: String)
        requires
            self.spec_width() <= usize::MAX,
            config.hard_tabs ==> config.tab_spaces > 0,
        ensures
            r@ == seq!['\n'] + self.spec_to_string(*config),
    {
        let mut s = String::new();
        crate::text::string_push(&mut s, '\n');
        let rest = self.to_string(config);
        s.append(rest.as_str());
        assert(s@ =~= seq!['\n'] + self.spec_to_string(*config));
        s
    }
}

impl Shape {
    /// A shape of the given width whose offset is the indentation's alignment.
    pub fn legacy(width: usize, indent: Indent) -> (r: Shape)
        ensures
            r.width == width,
            r.indent == indent,
            r.offset == indent.alignment,
    {
        Shape { width, indent, offset: indent.alignment }
    }

    pub open spec fn spec_used_width(self) -> int {
        self.indent.block_indent + self.offset
    }
}

} // verus!
