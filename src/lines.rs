//! Lines of text: the terminator of a line read from a stream, and lines
//! taken one at a time from text held in memory.
use vstd::prelude::*;

verus! {

/// `s` without its line terminator: a final `'\n'`, and then a `'\r'` just
/// before it. Text that does not end in `'\n'` is left as it is.
pub open spec fn without_terminator(s: Seq<char>) -> Seq<char> {
    if s.len() > 0 && s.last() == '\n' {
        let t = s.drop_last();
        if t.len() > 0 && t.last() == '\r' {
            t.drop_last()
        } else {
            t
        }
    } else {
        s
    }
}

/// The number of characters before the first `'\n'` of `s`, or its length
/// when it holds none.
pub open spec fn line_len(s: Seq<char>) -> nat
    decreases s.len(),
{
    if s.len() == 0 || s[0] == '\n' {
        0
    } else {
        1 + line_len(s.drop_first())
    }
}

/// The first line of `s`, without its terminator (`"\n"` or `"\r\n"`).
pub open spec fn first_line(s: Seq<char>) -> Seq<char> {
    let k = line_len(s) as int;
    if k < s.len() && k > 0 && s[k - 1] == '\r' {
        s.take(k - 1)
    } else {
        s.take(k as int)
    }
}

/// What follows the first line of `s` and its terminator.
pub open spec fn after_first_line(s: Seq<char>) -> Seq<char> {
    let k = line_len(s) as int;
    if k < s.len() {
        s.skip(k + 1 as int)
    } else {
        Seq::empty()
    }
}

/// Removes the line terminator that reading a line keeps at its end.
pub fn strip_line_terminator(raw: &str) -> (line: &str)
    ensures
        line@ == without_terminator(raw@),
{
    let n = raw.unicode_len();
    if n > 0 && raw.get_char(n - 1) == '\n' {
        if n > 1 && raw.get_char(n - 2) == '\r' {
            raw.substring_char(0, n - 2)
        } else {
            raw.substring_char(0, n - 1)
        }
    } else {
        raw
    }
}

/// The lines of a text held in memory, taken one at a time.
pub struct TextLines<'a> {
    text: &'a str,
    chars: Vec<char>,
    ascii: bool,
    pos: usize,
}

impl<'a> TextLines<'a> {
    pub closed spec fn wf(&self) -> bool {
        &&& self.chars@ == self.text@
        &&& self.ascii == self.text.is_ascii()
        &&& self.pos <= self.chars@.len()
    }

    /// The text not taken yet.
    pub closed spec fn rest(&self) -> Seq<char> {
        self.text@.skip(self.pos as int)
    }

    /// Lines over `text`, none of them taken yet.
    pub fn new(text: &'a str) -> (lines: TextLines<'a>)
        ensures
            lines.wf(),
            lines.rest() == text@,
    {
        let mut chars: Vec<char> = Vec::new();
        for c in it: text.chars()
            invariant
                chars@ == it.seq().take(it.index() as int),
        {
            chars.push(c);
        }
        let ascii = text.is_ascii();
        let lines = TextLines { text, chars, ascii, pos: 0 };
        assert(lines.rest() =~= text@);
        lines
    }

    /// The next line without its terminator, or `None` once the text is
    /// exhausted. A final `'\n'` ends the last line and starts none.
    pub fn next_line(&mut self) -> (line: Option<&'a str>)
        requires
            old(self).wf(),
        ensures
            final(self).wf(),
            old(self).rest().len() == 0 ==> line is None && final(self).rest() == old(self).rest(),
            old(self).rest().len() > 0 ==> line is Some && line->0@ == first_line(old(self).rest())
                && final(self).rest() == after_first_line(old(self).rest()),
    {
        let n = self.chars.len();
        let start = self.pos;
        if start >= n {
            return None;
        }
        let ghost rest = self.rest();
        let mut i: usize = start;
        while i < n && self.chars[i] != '\n'
            invariant
                self.wf(),
                n == self.chars@.len(),
                self.pos == start,
                start <= i <= n,
                rest == self.text@.skip(start as int),
                line_len(rest) == (i - start) + line_len(self.text@.skip(i as int)),
                forall|j: int| start <= j < i ==> self.text@[j] != '\n',
            decreases n - i,
        {
            assert(self.text@.skip(i as int).drop_first() =~= self.text@.skip(i + 1));
            i = i + 1;
        }
        assert(line_len(self.text@.skip(i as int)) == 0);
        let mut end = i;
        if i < n && i > start && self.chars[i - 1] == '\r' {
            end = i - 1;
        }
        let line = if self.ascii {
            self.text.substring_ascii(start, end)
        } else {
            self.text.substring_char(start, end)
        };
        if i < n {
            self.pos = i + 1;
            assert(self.rest() =~= rest.skip(i - start + 1));
        } else {
            self.pos = n;
            assert(self.rest() =~= Seq::<char>::empty());
        }
        assert(line@ =~= first_line(rest));
        Some(line)
    }
}

} // verus!
