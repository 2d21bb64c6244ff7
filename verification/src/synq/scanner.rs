//! Byte-level cursor over a source text, with line and column tracking and
//! the skipping of blanks and comments.
use vstd::prelude::*;
use vstd::string::*;
use vstd::utf8::*;

verus! {

/// Where a scanner stands: byte offset, zero-based line and column.
pub struct ScanState {
    pub pos: int,
    pub line: int,
    pub col: int,
}

/// One byte consumed on the current line.
pub open spec fn bump_state(s: ScanState) -> ScanState {
    ScanState { pos: s.pos + 1, line: s.line, col: s.col + 1 }
}

/// A line feed consumed: the next line starts at column zero.
pub open spec fn bump_nl_state(s: ScanState) -> ScanState {
    ScanState { pos: s.pos + 1, line: s.line + 1, col: 0 }
}

/// Space, tab and carriage return: the blanks that separate tokens.
pub open spec fn is_blank(c: u8) -> bool {
    c == 32u8 || c == 9u8 || c == 13u8
}

/// The state after a `//` comment body: everything up to, not including,
/// the next line feed (or the end of input).
pub open spec fn skip_line_comment(b: Seq<u8>, s: ScanState) -> ScanState
    decreases b.len() - s.pos,
{
    if s.pos < 0 || s.pos >= b.len() || b[s.pos] == 10u8 {
        s
    } else {
        skip_line_comment(b, bump_state(s))
    }
}

/// The state after a `/*` comment body: everything up to and including the
/// first `*/` (or the end of input).
pub open spec fn skip_block_comment(b: Seq<u8>, s: ScanState) -> ScanState
    decreases b.len() - s.pos,
{
    if s.pos < 0 || s.pos >= b.len() {
        s
    } else {
        let t = bump_state(s);
        if b[s.pos] == 42u8 && t.pos < b.len() && b[t.pos] == 47u8 {
            bump_state(t)
        } else {
            skip_block_comment(b, t)
        }
    }
}

pub proof fn lemma_skip_line_comment_bounds(b: Seq<u8>, s: ScanState)
    requires
        0 <= s.pos <= b.len(),
    ensures
        s.pos <= skip_line_comment(b, s).pos <= b.len(),
        skip_line_comment(b, s).line == s.line,
        skip_line_comment(b, s).pos < b.len() ==> b[skip_line_comment(b, s).pos] == 10u8,
    decreases b.len() - s.pos,
{
    if s.pos < b.len() && b[s.pos] != 10u8 {
        lemma_skip_line_comment_bounds(b, bump_state(s));
    }
}

pub proof fn lemma_skip_block_comment_bounds(b: Seq<u8>, s: ScanState)
    requires
        0 <= s.pos <= b.len(),
    ensures
        s.pos <= skip_block_comment(b, s).pos <= b.len(),
        skip_block_comment(b, s).line == s.line,
        skip_block_comment(b, s).pos < b.len() ==> skip_block_comment(b, s).pos > s.pos && b[skip_block_comment(b, s).pos - 1] == 47u8,
    decreases b.len() - s.pos,
{
    if s.pos < b.len() {
        let t = bump_state(s);
        if !(b[s.pos] == 42u8 && t.pos < b.len() && b[t.pos] == 47u8) {
            lemma_skip_block_comment_bounds(b, t);
        }
    }
}

/// The state after the blanks and comments that precede the next token.
pub open spec fn skip_spec(b: Seq<u8>, s: ScanState) -> ScanState
    decreases b.len() - s.pos,
{
    if s.pos < 0 || s.pos >= b.len() {
        s
    } else if is_blank(b[s.pos]) {
        skip_spec(b, bump_state(s))
    } else if b[s.pos] == 47u8 && s.pos + 1 < b.len() && b[s.pos + 1] == 47u8 {
        let t = bump_state(bump_state(s));
        proof {
            lemma_skip_line_comment_bounds(b, t);
        }
        skip_spec(b, skip_line_comment(b, t))
    } else if b[s.pos] == 47u8 && s.pos + 1 < b.len() && b[s.pos + 1] == 42u8 {
        let t = bump_state(bump_state(s));
        proof {
            lemma_skip_block_comment_bounds(b, t);
        }
        skip_spec(b, skip_block_comment(b, t))
    } else {
        s
    }
}

/// A byte offset at which a token may begin or end: the end of input, or a
/// byte that is not the continuation of a multi-byte character.
pub open spec fn at_boundary(b: Seq<u8>, p: int) -> bool {
    p == b.len() || (0 <= p < b.len() && !is_continuation_byte(b[p]))
}

/// In valid UTF-8, the byte after an ASCII byte starts a character.
pub proof fn lemma_after_ascii_is_boundary(b: Seq<u8>, p: int)
    requires
        valid_utf8(b),
        0 < p <= b.len(),
        b[p - 1] < 0x80u8,
    ensures
        at_boundary(b, p),
    decreases b.len(),
{
    if p < b.len() {
        let k = length_of_first_scalar(b);
        let rest = pop_first_scalar(b);
        assert(valid_first_scalar(b));
        assert(valid_utf8(rest));
        assert(1 <= k <= 4);
        assert(rest.len() == b.len() - k);
        if p - 1 < k {
            if p - 1 == 0 {
                assert(k == 1);
                assert(rest[0] == b[p]);
                assert(rest.len() > 0);
                assert(valid_first_scalar(rest));
            } else {
                assert(is_continuation_byte(b[p - 1]));
            }
        } else {
            assert(rest[p - k - 1] == b[p - 1]);
            lemma_after_ascii_is_boundary(rest, p - k);
            assert(rest[p - k] == b[p]);
        }
    }
}

/// A cursor over the bytes of a source text.
pub struct Scanner<'a> {
    src: &'a str,
    input: &'a [u8],
    pos: usize,
    line: usize,
    col: usize,
}

impl<'a> Scanner<'a> {
    /// The bytes being scanned.
    pub closed spec fn bytes(&self) -> Seq<u8> {
        self.input@
    }

    /// The source text being scanned.
    pub closed spec fn source(&self) -> &'a str {
        self.src
    }

    /// Current offset, line and column.
    pub closed spec fn state(&self) -> ScanState {
        ScanState { pos: self.pos as int, line: self.line as int, col: self.col as int }
    }

    /// The bytes are the UTF-8 encoding of the source, and the cursor is
    /// within them; the line and column never exceed the offset.
    pub closed spec fn wf(&self) -> bool {
        &&& self.input@ == self.src.spec_bytes()
        &&& self.pos <= self.input@.len()
        &&& self.line <= self.pos
        &&& self.col <= self.pos
    }

    /// A scanner at the start of `input`.
    pub fn new(input: &'a str) -> (res: Self)
        ensures
            res.wf(),
            res.bytes() == input.spec_bytes(),
            res.source() == input,
            res.state() == (ScanState { pos: 0, line: 0, col: 0 }),
    {
        Self { src: input, input: input.as_bytes(), pos: 0, line: 0, col: 0 }
    }

    pub proof fn lemma_wf_valid_utf8(&self)
        requires
            self.wf(),
        ensures
            valid_utf8(self.bytes()),
            self.bytes() == self.source().spec_bytes(),
            0 <= self.state().line <= self.state().pos <= self.bytes().len(),
            0 <= self.state().col <= self.state().pos,
            self.bytes().len() <= usize::MAX,
    {
        encode_utf8_valid_utf8(self.src@);
        assert(self.input.len() == self.input@.len());
    }

    /// The byte under the cursor, if any.
    pub(crate) fn current(&self) -> (res: Option<u8>)
        requires
            self.wf(),
        ensures
            res == (if self.state().pos < self.bytes().len() {
                Some(self.bytes()[self.state().pos])
            } else {
                None::<u8>
            }),
    {
        if self.pos < self.input.len() {
            Some(self.input[self.pos])
        } else {
            None
        }
    }

    /// The byte one past the cursor, if any.
    fn peek_next(&self) -> (res: Option<u8>)
        requires
            self.wf(),
        ensures
            res == (if self.state().pos + 1 < self.bytes().len() {
                Some(self.bytes()[self.state().pos + 1])
            } else {
                None::<u8>
            }),
    {
        if self.pos < self.input.len() && self.pos + 1 < self.input.len() {
            Some(self.input[self.pos + 1])
        } else {
            None
        }
    }

    /// Moves past one byte of the current line; does nothing at the end.
    pub(crate) fn bump(&mut self)
        requires
            old(self).wf(),
        ensures
            final(self).wf(),
            final(self).bytes() == old(self).bytes(),
            final(self).source() == old(self).source(),
            final(self).state() == (if old(self).state().pos < old(self).bytes().len() {
                bump_state(old(self).state())
            } else {
                old(self).state()
            }),
    {
        if self.pos < self.input.len() {
            self.pos = self.pos + 1;
            self.col = self.col + 1;
        }
    }

    /// Moves past a line feed; does nothing at the end.
    pub(crate) fn bump_nl(&mut self)
        requires
            old(self).wf(),
        ensures
            final(self).wf(),
            final(self).bytes() == old(self).bytes(),
            final(self).source() == old(self).source(),
            final(self).state() == (if old(self).state().pos < old(self).bytes().len() {
                bump_nl_state(old(self).state())
            } else {
                old(self).state()
            }),
    {
        if self.pos < self.input.len() {
            self.pos = self.pos + 1;
            self.line = self.line + 1;
            self.col = 0;
        }
    }

    fn skip_line_comment(&mut self)
        requires
            old(self).wf(),
        ensures
            final(self).wf(),
            final(self).bytes() == old(self).bytes(),
            final(self).source() == old(self).source(),
            final(self).state() == skip_line_comment(old(self).bytes(), old(self).state()),
        decreases old(self).bytes().len() - old(self).state().pos,
    {
        match self.current() {
            Some(c) => {
                if c != 10u8 {
                    self.bump();
                    self.skip_line_comment();
                }
            },
            None => {},
        }
    }

    fn skip_block_comment(&mut self)
        requires
            old(self).wf(),
        ensures
            final(self).wf(),
            final(self).bytes() == old(self).bytes(),
            final(self).source() == old(self).source(),
            final(self).state() == skip_block_comment(old(self).bytes(), old(self).state()),
        decreases old(self).bytes().len() - old(self).state().pos,
    {
        match self.current() {
            Some(c) => {
                self.bump();
                if c == 42u8 && self.current() == Some(47u8) {
                    self.bump();
                } else {
                    self.skip_block_comment();
                }
            },
            None => {},
        }
    }

    /// Skips blanks (space, tab, carriage return), `//` comments up to the
    /// line feed, and `/* */` comments.
    pub(crate) fn skip(&mut self)
        requires
            old(self).wf(),
        ensures
            final(self).wf(),
            final(self).bytes() == old(self).bytes(),
            final(self).source() == old(self).source(),
            final(self).state() == skip_spec(old(self).bytes(), old(self).state()),
        decreases old(self).bytes().len() - old(self).state().pos,
    {
        match self.current() {
            Some(b) => {
                if b == 32u8 || b == 9u8 || b == 13u8 {
                    self.bump();
                    self.skip();
                } else if b == 47u8 {
                    let next = self.peek_next();
                    if next == Some(47u8) {
                        self.bump();
                        self.bump();
                        proof {
                            lemma_skip_line_comment_bounds(self.bytes(), self.state());
                        }
                        self.skip_line_comment();
                        self.skip();
                    } else if next == Some(42u8) {
                        self.bump();
                        self.bump();
                        proof {
                            lemma_skip_block_comment_bounds(self.bytes(), self.state());
                        }
                        self.skip_block_comment();
                        self.skip();
                    }
                }
            },
            None => {},
        }
    }

    /// Current line and column.
    pub(crate) fn curr_loc(&self) -> (res: (usize, usize))
        ensures
            res.0 == self.state().line,
            res.1 == self.state().col,
    {
        (self.line, self.col)
    }

    /// Current byte offset.
    pub(crate) fn current_pos(&self) -> (res: usize)
        ensures
            res == self.state().pos,
    {
        self.pos
    }

    /// The source text between two byte offsets, both on character
    /// boundaries.
    pub(crate) fn slice(&self, start: usize, end: usize) -> (res: &'a str)
        requires
            self.wf(),
            start <= end <= self.bytes().len(),
            at_boundary(self.bytes(), start as int),
            at_boundary(self.bytes(), end as int),
        ensures
            res.spec_bytes() == self.bytes().subrange(start as int, end as int),
    {
        let b = Ghost(self.input@);
        proof {
            self.lemma_wf_valid_utf8();
            if end == b@.len() {
                is_char_boundary_start_end_of_seq(b@);
            } else {
                is_char_boundary_iff_not_is_continuation_byte(b@, end as int);
            }
        }
        let (head, _) = self.src.split_at(end);
        proof {
            let h = b@.subrange(0, end as int);
            valid_utf8_split(b@, end as int);
            assert(head.spec_bytes() =~= h);
            if start == end {
                is_char_boundary_start_end_of_seq(h);
            } else {
                assert(h[start as int] == b@[start as int]);
                is_char_boundary_iff_not_is_continuation_byte(h, start as int);
            }
        }
        let (_, mid) = head.split_at(start);
        assert(mid.spec_bytes() =~= b@.subrange(start as int, end as int));
        mid
    }
}

} // verus!
