//! A text buffer that indents the lines written into it.
use vstd::prelude::*;
use vstd::string::*;

verus! {

/// What a `Buffer` holds: its text, the indentation level, and whether the
/// next write starts a line.
pub struct TextState {
    pub text: Seq<char>,
    pub indent: nat,
    pub start: bool,
}

pub open spec fn spaces(n: nat) -> Seq<char> {
    Seq::new(n, |i: int| ' ')
}

/// `s` appended, after the indentation when a line starts.
pub open spec fn st_write(st: TextState, s: Seq<char>) -> TextState {
    TextState {
        text: if st.start { st.text + spaces(st.indent * 4) + s } else { st.text + s },
        indent: st.indent,
        start: false,
    }
}

/// `s` appended as the rest of a line: a lone `}` closes a level first, and a
/// line that ends with `{` opens one.
pub open spec fn st_writeln(st: TextState, s: Seq<char>) -> TextState {
    let a = if s.len() == 1 && s[0] == '}' {
        TextState { indent: (st.indent - 1) as nat, ..st }
    } else {
        st
    };
    let b = if s.len() > 0 { st_write(a, s) } else { a };
    TextState {
        text: b.text.push('\n'),
        indent: if s.len() > 0 && s.last() == '{' { b.indent + 1 } else { b.indent },
        start: true,
    }
}

/// `s` appended as it is, with no indentation.
pub open spec fn st_raw(st: TextState, s: Seq<char>) -> TextState {
    TextState { text: st.text + s, ..st }
}

/// Source text under construction, four spaces per indentation level.
pub struct Buffer {
    pub buf: String,
    pub indent: u8,
    pub start: bool,
}

impl View for Buffer {
    type V = TextState;

    open spec fn view(&self) -> TextState {
        TextState { text: self.buf@, indent: self.indent as nat, start: self.start }
    }
}

impl Buffer {
    pub fn new(indent: u8) -> (r: Buffer)
        ensures
            r@ == (TextState { text: seq![], indent: indent as nat, start: true }),
    {
        Buffer { buf: String::new(), indent, start: true }
    }

    /// Ends the current line with `s`; a lone `}` closes a block first and
    /// a line ending with `{` opens one.
    pub fn writeln(&mut self, s: &str)
        requires
            old(self).indent < 63,
            s@.len() == 1 && s@[0] == '}' ==> old(self).indent > 0,
        ensures
            final(self)@ == st_writeln(old(self)@, s@),
    {
        let n = s.unicode_len();
        let ghost mid = if s@.len() == 1 && s@[0] == '}' {
            TextState { indent: (old(self)@.indent - 1) as nat, ..old(self)@ }
        } else {
            old(self)@
        };
        if n == 1 && s.get_char(0) == '}' {
            self.dedent();
        }
        assert(self@ == mid);
        if n > 0 {
            self.write(s);
        }
        let ghost before = self.buf@;
        proof {
            reveal_strlit("\n");
        }
        self.buf.append("\n");
        assert(self.buf@ =~= before.push('\n'));
        if n > 0 && s.get_char(n - 1) == '{' {
            self.indent();
        }
        self.start = true;
    }

    /// Appends `s`, indenting first if a line starts here.
    pub fn write(&mut self, s: &str)
        requires
            old(self).indent < 64,
        ensures
            final(self)@ == st_write(old(self)@, s@),
    {
        if self.start {
            let n: u8 = self.indent * 4;
            let mut i: u8 = 0;
            while i < n
                invariant
                    i <= n,
                    n == self.indent * 4,
                    self.indent == old(self).indent,
                    self.buf@ == old(self).buf@ + spaces(i as nat),
                decreases n - i,
            {
                proof {
                    reveal_strlit(" ");
                }
                self.buf.append(" ");
                assert(self.buf@ =~= old(self).buf@ + spaces((i + 1) as nat));
                i = i + 1;
            }
            self.start = false;
        }
        self.buf.append(s);
    }

    /// Opens a block.
    pub fn indent(&mut self)
        requires
            old(self).indent < 255,
        ensures
            final(self)@ == (TextState { indent: old(self)@.indent + 1, ..old(self)@ }),
    {
        self.indent = self.indent + 1;
    }

    /// Closes a block.
    pub fn dedent(&mut self)
        requires
            old(self).indent > 0,
        ensures
            final(self)@ == (TextState { indent: (old(self)@.indent - 1) as nat, ..old(self)@ }),
    {
        self.indent = self.indent - 1;
    }
}

} // verus!
