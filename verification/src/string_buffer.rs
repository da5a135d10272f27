//! A cursor-tracking `String` buffer with soft word-wrapping, plus the
//! indentation helpers used throughout the DOT emitter.
//!
//! The buffer appears empty until it is marked as modified by a strong
//! push: weak pushes append text that is only revealed once some real
//! content arrives.

use vstd::prelude::*;
use vstd::string::StrSliceExecFns;
use vstd::string::StringExecFns;

verus! {

/// Relies on `String::push`: appends the given character to the string.
#[verifier::external_body]
pub(crate) fn push_char(s: &mut String, c: char)
    ensures
        final(s)@ == old(s)@.push(c),
{
    s.push(c)
}

/// The characters of `s`, as a vector.
pub fn chars_of(s: &str) -> (r: Vec<char>)
    ensures
        r@ == s@,
{
    let n = s.unicode_len();
    let mut r: Vec<char> = Vec::new();
    let mut i: usize = 0;
    while i < n
        invariant
            i <= n,
            n == s@.len(),
            r@ == s@.take(i as int),
        decreases n - i,
    {
        r.push(s.get_char(i));
        i = i + 1;
        proof {
            assert(r@ =~= s@.take(i as int));
        }
    }
    proof {
        assert(r@ =~= s@);
    }
    r
}

/// The characters `chars[from..to]`, collected into a `String`.
pub fn string_from_chars_range(chars: &Vec<char>, from: usize, to: usize) -> (r: String)
    requires
        from <= to <= chars@.len(),
    ensures
        r@ == chars@.subrange(from as int, to as int),
{
    let mut r = String::new();
    let mut i: usize = from;
    while i < to
        invariant
            from <= i <= to <= chars@.len(),
            r@ == chars@.subrange(from as int, i as int),
        decreases to - i,
    {
        push_char(&mut r, chars[i]);
        i = i + 1;
        proof {
            assert(r@ =~= chars@.subrange(from as int, i as int));
        }
    }
    r
}

/// Indentation style: level of the first line and of all later lines,
/// counted in 4-space units.
#[derive(Copy, Clone, Debug, PartialEq, Eq, Structural)]
pub struct Indent {
    /// Indentation of the first line
    pub first: u8,
    /// Indentation of all subsequent lines
    pub main: u8,
}

impl Indent {
    /// Indent the first line to its own absolute level.
    pub fn absolute_first_line(first_line_level: u8, main_indent_level: u8) -> (r: Indent)
        ensures
            r.first == first_line_level,
            r.main == main_indent_level,
    {
        Indent { first: first_line_level, main: main_indent_level }
    }

    /// Offset the indent level of the first line against the main level:
    /// the first line is indented to `main_indent_level - first_line_level`.
    pub fn relative_first_line(first_line_level: i8, main_indent_level: u8) -> (r: Indent)
        requires
            0 <= main_indent_level as int - first_line_level as int <= u8::MAX,
        ensures
            r.first as int == main_indent_level as int - first_line_level as int,
            r.main == main_indent_level,
    {
        Indent {
            first: (main_indent_level as i16 - first_line_level as i16) as u8,
            main: main_indent_level,
        }
    }

    /// Indent all lines to the same level.
    pub fn flat(indent_level: u8) -> (r: Indent)
        ensures
            r.first == indent_level,
            r.main == indent_level,
    {
        Indent { first: indent_level, main: indent_level }
    }

    /// Convenience function to get a flat zero indent.
    pub fn zero() -> (r: Indent)
        ensures
            r.first == 0,
            r.main == 0,
    {
        Indent { first: 0, main: 0 }
    }
}

/// `4 * level` spaces: one line's worth of indentation.
pub open spec fn spaces(level: nat) -> Seq<char> {
    Seq::new(4 * level, |i: int| ' ')
}

/// Get a `String` of spaces for indenting.
pub fn get_indent(level: u8) -> (r: String)
    ensures
        r@ == spaces(level as nat),
{
    let mut buf = String::new();
    let mut k: u8 = 0;
    while k < level
        invariant
            k <= level,
            buf@ == spaces(k as nat),
        decreases level - k,
    {
        buf.append("    ");
        k = k + 1;
        proof {
            reveal_strlit("    ");
            assert(buf@ =~= spaces(k as nat));
        }
    }
    buf
}

/// The state of a [`StringBuffer`], as seen by specifications: the exact
/// buffered text, the modification flag, and the word-wrap cursor.
pub ghost struct BufModel {
    /// The buffered text, leading newline and indentation included.
    pub text: Seq<char>,
    /// Whether the buffer has received real (strong-pushed) content.
    pub written: bool,
    /// Indent level of every line after the first.
    pub indent: nat,
    /// Soft wrap width, in characters.
    pub width: nat,
    /// Position on the current line, in characters.
    pub cursor: nat,
}

/// A buffer model is well formed when its cursor fits on a line and a
/// fresh line's indentation does too.
pub open spec fn bm_wf(m: BufModel) -> bool {
    m.cursor <= m.width && 4 * m.indent <= m.width
}

/// The state of a buffer newly created at `indent`, optionally starting
/// with a newline.
pub open spec fn bm_new(leading_newline: bool, indent_first: nat, indent_main: nat) -> BufModel {
    BufModel {
        text: (if leading_newline {
            seq!['\n']
        } else {
            Seq::<char>::empty()
        }) + spaces(indent_first),
        written: false,
        indent: indent_main,
        width: 80,
        cursor: 4 * indent_first,
    }
}

/// Effect of a line break: a newline plus the main indentation, with the
/// cursor reset to the start of the fresh line.
pub open spec fn bm_newline(m: BufModel) -> BufModel {
    BufModel {
        text: m.text + seq!['\n'] + spaces(m.indent),
        cursor: 4 * m.indent,
        ..m
    }
}

/// Effect of a weak push of `s`: break the line first if `s` does not fit
/// and the cursor is not already at the start of a fresh line; append `s`;
/// break the line afterwards if the cursor ran off the end.
pub open spec fn bm_weak_push(m: BufModel, s: Seq<char>) -> BufModel {
    let before = if m.cursor + s.len() > m.width && m.cursor > 4 * m.indent {
        bm_newline(m)
    } else {
        m
    };
    let appended = BufModel { text: before.text + s, ..before };
    if appended.cursor + s.len() <= appended.width {
        BufModel { cursor: appended.cursor + s.len(), ..appended }
    } else {
        bm_newline(appended)
    }
}

/// Effect of a strong push: a weak push that also marks the buffer as
/// holding real content.
pub open spec fn bm_push(m: BufModel, s: Seq<char>) -> BufModel {
    bm_weak_push(BufModel { written: true, ..m }, s)
}

/// The visible contents of a buffer: its text once it holds real content,
/// and nothing before that.
pub open spec fn bm_contents(m: BufModel) -> Seq<char> {
    if m.written {
        m.text
    } else {
        Seq::<char>::empty()
    }
}

/// The visible length of a buffer, in characters.
pub open spec fn bm_len(m: BufModel) -> nat {
    bm_contents(m).len()
}

/// A `String` buffer that appears to be empty until it has been marked as
/// modified by a strong push, and that soft-wraps its contents against a
/// line width at a fixed indent.
#[derive(Clone, Debug)]
pub struct StringBuffer {
    buf: String,
    has_been_written_to: bool,
    indent_level: u8,
    line_width: u32,
    cursor_position: u32,
}

impl View for StringBuffer {
    type V = BufModel;

    closed spec fn view(&self) -> BufModel {
        BufModel {
            text: self.buf@,
            written: self.has_been_written_to,
            indent: self.indent_level as nat,
            width: self.line_width as nat,
            cursor: self.cursor_position as nat,
        }
    }
}

impl StringBuffer {
    /// Create a new `StringBuffer` holding the (still invisible) leading
    /// newline and first-line indentation. The capacity argument is an
    /// allocation hint only and does not affect the contents.
    pub fn new(leading_newline: bool, indent: Indent, _capacity: usize) -> (r: StringBuffer)
        requires
            indent.first <= 20,
            indent.main <= 20,
        ensures
            r@ == bm_new(leading_newline, indent.first as nat, indent.main as nat),
            bm_wf(r@),
    {
        let mut buf = String::new();
        if leading_newline {
            push_char(&mut buf, '\n');
        }
        let ind = get_indent(indent.first);
        buf.append(ind.as_str());
        proof {
            assert(buf@ =~= bm_new(leading_newline, indent.first as nat, indent.main as nat).text);
        }
        StringBuffer {
            buf,
            has_been_written_to: false,
            indent_level: indent.main,
            line_width: 80,
            cursor_position: (indent.first as u32) * 4,
        }
    }

    /// Get the position of the cursor at the beginning of a blank line.
    pub fn newline_cursor_position(&self) -> (r: u32)
        ensures
            r == 4 * self@.indent,
    {
        (self.indent_level as u32) * 4
    }

    /// Get the remaining amount of space on the current line.
    pub fn remaining_space_on_line(&self) -> (r: u32)
        requires
            bm_wf(self@),
        ensures
            r == self@.width - self@.cursor,
    {
        self.line_width - self.cursor_position
    }

    /// Insert a line break followed by the main indentation.
    ///
    /// Does not mark the buffer as modified.
    pub fn newline(&mut self)
        requires
            bm_wf(old(self)@),
        ensures
            final(self)@ == bm_newline(old(self)@),
            bm_wf(final(self)@),
    {
        push_char(&mut self.buf, '\n');
        let ind = get_indent(self.indent_level);
        self.buf.append(ind.as_str());
        self.cursor_position = (self.indent_level as u32) * 4;
        proof {
            assert(self.buf@ =~= bm_newline(old(self)@).text);
        }
    }

    /// Push `string` onto the end of the buffer without flagging it as
    /// modified, wrapping to a fresh line when `string` would run past the
    /// line width.
    pub fn weak_push_str(&mut self, string: &str)
        requires
            bm_wf(old(self)@),
        ensures
            final(self)@ == bm_weak_push(old(self)@, string@),
            bm_wf(final(self)@),
    {
        let len = string.unicode_len();

        // Start on a new line if we will run out of room on the current
        // one, unless we're already at the start of a line.
        if len > self.remaining_space_on_line() as usize
            && self.cursor_position > self.newline_cursor_position() {
            self.newline();
        }

        self.buf.append(string);

        // Update the cursor; if it went off the end of the line, go to a
        // new line.
        if len <= self.remaining_space_on_line() as usize {
            self.cursor_position = self.cursor_position + (len as u32);
        } else {
            self.newline();
        }
    }

    /// Push `string` onto the end of the buffer.
    ///
    /// Note: this will mark the buffer as modified.
    pub fn push_str(&mut self, string: &str)
        requires
            bm_wf(old(self)@),
        ensures
            final(self)@ == bm_push(old(self)@, string@),
            bm_wf(final(self)@),
    {
        self.has_been_written_to = true;
        self.weak_push_str(string);
    }

    /// Get the contents of the buffer.
    ///
    /// Returns an empty `String` if the buffer has not been marked as
    /// modified.
    pub fn to_string(&self) -> (r: String)
        ensures
            r@ == bm_contents(self@),
    {
        if self.has_been_written_to {
            self.buf.clone()
        } else {
            String::new()
        }
    }

    /// Borrow the contents of the buffer; empty unless the buffer has been
    /// marked as modified.
    pub fn as_str(&self) -> (r: &str)
        ensures
            r@ == bm_contents(self@),
    {
        if self.has_been_written_to {
            self.buf.as_str()
        } else {
            proof {
                reveal_strlit("");
            }
            ""
        }
    }

    /// Get the visible length of the buffer, in characters.
    pub fn len(&self) -> (r: usize)
        ensures
            r == bm_len(self@),
    {
        if self.has_been_written_to {
            self.buf.as_str().unicode_len()
        } else {
            0
        }
    }

    /// Change the soft wrap width. The new width must leave both the
    /// cursor and a fresh line's indentation on a line.
    pub fn set_line_width(&mut self, width: u32)
        requires
            old(self)@.cursor <= width,
            4 * old(self)@.indent <= width,
        ensures
            final(self)@ == (BufModel { width: width as nat, ..old(self)@ }),
            bm_wf(final(self)@),
    {
        self.line_width = width;
    }
}

} // verus!
