//! Tokens of the `.synq` language and the function that reads them.
use crate::error::{ParseError, ParseErrorView};
use crate::synq::scanner::{
    at_boundary, bump_nl_state, bump_state, is_blank, lemma_after_ascii_is_boundary,
    lemma_skip_block_comment_bounds, lemma_skip_line_comment_bounds, skip_block_comment,
    skip_line_comment, skip_spec, ScanState, Scanner,
};
use crate::text::{char_to_string, lemma_chars_of_bytes, str_eq};
use vstd::prelude::*;
use vstd::string::*;
use vstd::utf8::*;

verus! {

/// The kinds of token.
#[derive(Debug, Clone, Copy, PartialEq, Eq, Structural)]
pub enum TokenType {
    Attribute,
    Const,
    Enum,
    Eof,
    Equal,
    Frame,
    /// A number, possibly with dots and underscores, such as `1.2.3`.
    Index,
    Import,
    Ident,
    /// Equivalent of `rpc` in proto.
    Message,
    Newline,
    Option,
    Package,
    /// Equivalent of `service` in proto; spelled `synq`.
    Photon,
    Quote,
    Use,
    Lbrace,
    Rbrace,
    Lparen,
    Rparen,
    Dot,
    Greater,
    Less,
    GreaterThan,
    LessThan,
    Star,
    Slash,
}

/// A token: its kind, the source text it covers, and where it starts.
#[derive(Debug, Clone, Copy, PartialEq)]
pub struct Token<'a> {
    pub typ: TokenType,
    pub lexeme: &'a str,
    pub line: usize,
    pub col: usize,
}

/// The mathematical value of a [`Token`].
pub struct TokenView {
    pub typ: TokenType,
    pub text: Seq<char>,
    pub line: usize,
    pub col: usize,
}

impl<'a> View for Token<'a> {
    type V = TokenView;

    open spec fn view(&self) -> TokenView {
        TokenView { typ: self.typ, text: self.lexeme@, line: self.line, col: self.col }
    }
}

impl<'a> DeepView for Token<'a> {
    type V = TokenView;

    open spec fn deep_view(&self) -> TokenView {
        self@
    }
}

pub open spec fn is_digit(c: u8) -> bool {
    48u8 <= c <= 57u8
}

pub open spec fn is_alpha(c: u8) -> bool {
    (65u8 <= c <= 90u8) || (97u8 <= c <= 122u8)
}

/// Bytes that continue a number: digits, `.` and `_`.
pub open spec fn is_index_byte(c: u8) -> bool {
    is_digit(c) || c == 46u8 || c == 95u8
}

/// Bytes that continue a word: letters, digits and `_`.
pub open spec fn is_word_byte(c: u8) -> bool {
    is_alpha(c) || is_digit(c) || c == 95u8
}

/// The state after the longest run of number bytes.
pub open spec fn scan_index_spec(b: Seq<u8>, s: ScanState) -> ScanState
    decreases b.len() - s.pos,
{
    if 0 <= s.pos < b.len() && is_index_byte(b[s.pos]) {
        scan_index_spec(b, bump_state(s))
    } else {
        s
    }
}

/// The state after the longest run of word bytes.
pub open spec fn scan_word_spec(b: Seq<u8>, s: ScanState) -> ScanState
    decreases b.len() - s.pos,
{
    if 0 <= s.pos < b.len() && is_word_byte(b[s.pos]) {
        scan_word_spec(b, bump_state(s))
    } else {
        s
    }
}

/// The kind of a word: a keyword, or an identifier.
pub open spec fn keyword_type(w: Seq<char>) -> TokenType {
    if w == "package"@ {
        TokenType::Package
    } else if w == "import"@ {
        TokenType::Import
    } else if w == "const"@ {
        TokenType::Const
    } else if w == "option"@ {
        TokenType::Option
    } else if w == "enum"@ {
        TokenType::Enum
    } else if w == "frame"@ {
        TokenType::Frame
    } else if w == "synq"@ {
        TokenType::Photon
    } else if w == "message"@ {
        TokenType::Message
    } else if w == "use"@ {
        TokenType::Use
    } else {
        TokenType::Ident
    }
}

/// The kind of a one-byte token other than `>` and `<`, if `c` starts one.
pub open spec fn punct_type(c: u8) -> Option<TokenType> {
    if c == 64u8 {
        Some(TokenType::Attribute)
    } else if c == 61u8 {
        Some(TokenType::Equal)
    } else if c == 123u8 {
        Some(TokenType::Lbrace)
    } else if c == 125u8 {
        Some(TokenType::Rbrace)
    } else if c == 40u8 {
        Some(TokenType::Lparen)
    } else if c == 41u8 {
        Some(TokenType::Rparen)
    } else if c == 42u8 {
        Some(TokenType::Star)
    } else if c == 46u8 {
        Some(TokenType::Dot)
    } else if c == 47u8 {
        Some(TokenType::Slash)
    } else if c == 34u8 {
        Some(TokenType::Quote)
    } else {
        None
    }
}

/// The outcome of reading one token.
pub enum LexStep {
    /// A token of kind `typ` covering the bytes `start..end`, found at
    /// `line`:`col`.
    Tok { typ: TokenType, start: int, end: int, line: int, col: int },
    /// The byte `c` starts no token; found at `line`:`col`.
    Fail { c: u8, line: int, col: int },
    /// Reading panics: a `>` or `<` is followed by a byte that starts no
    /// token.
    Panic,
}

/// What reading one token from state `s` gives, and the state after it.
///
/// Blanks and comments are skipped first. Then: the end of input gives
/// `Eof`; a line feed gives `Newline`; a digit starts a number (digits, `.`,
/// `_`); a letter or `_` starts a word, whose kind is that of its keyword or
/// `Ident`; one of `@ = { } ( ) * . / "` is a token of one byte. After `>`
/// or `<` the next token is read too: if it is `=`, the kind is
/// `GreaterThan` or `LessThan`, else `Greater` or `Less`, and the token
/// covers both. Any other byte is an error.
pub open spec fn lex_step(b: Seq<u8>, s: ScanState) -> (LexStep, ScanState)
    decreases b.len() - s.pos,
{
    let s0 = skip_spec(b, s);
    let start = s0.pos;
    if s0.pos < 0 || s0.pos >= b.len() {
        (LexStep::Tok { typ: TokenType::Eof, start, end: start, line: s0.line, col: s0.col }, s0)
    } else {
        let c = b[s0.pos];
        if c == 10u8 {
            (
                LexStep::Tok {
                    typ: TokenType::Newline,
                    start,
                    end: start + 1,
                    line: s0.line,
                    col: s0.col,
                },
                bump_nl_state(s0),
            )
        } else if is_digit(c) {
            let s1 = scan_index_spec(b, s0);
            (
                LexStep::Tok { typ: TokenType::Index, start, end: s1.pos, line: s0.line, col: s0.col },
                s1,
            )
        } else if is_alpha(c) || c == 95u8 {
            let s1 = scan_word_spec(b, s0);
            (
                LexStep::Tok {
                    typ: keyword_type(decode_utf8(b.subrange(start, s1.pos))),
                    start,
                    end: s1.pos,
                    line: s0.line,
                    col: s0.col,
                },
                s1,
            )
        } else {
            let s1 = bump_state(s0);
            if c == 62u8 || c == 60u8 {
                proof {
                    lemma_skip_bounds(b, s);
                }
                let (r, s2) = lex_step(b, s1);
                match r {
                    LexStep::Tok { typ, .. } => (
                        LexStep::Tok {
                            typ: if typ == TokenType::Equal {
                                if c == 62u8 {
                                    TokenType::GreaterThan
                                } else {
                                    TokenType::LessThan
                                }
                            } else if c == 62u8 {
                                TokenType::Greater
                            } else {
                                TokenType::Less
                            },
                            start,
                            end: s2.pos,
                            line: s0.line,
                            col: s0.col,
                        },
                        s2,
                    ),
                    _ => (LexStep::Panic, s2),
                }
            } else {
                match punct_type(c) {
                    Some(t) => (
                        LexStep::Tok { typ: t, start, end: start + 1, line: s0.line, col: s0.col },
                        s1,
                    ),
                    None => (LexStep::Fail { c, line: s0.line, col: s0.col }, s1),
                }
            }
        }
    }
}

pub proof fn lemma_skip_bounds(b: Seq<u8>, s: ScanState)
    requires
        0 <= s.pos <= b.len(),
    ensures
        s.pos <= skip_spec(b, s).pos <= b.len(),
        skip_spec(b, s).line == s.line,
    decreases b.len() - s.pos,
{
    if s.pos < b.len() {
        if is_blank(b[s.pos]) {
            lemma_skip_bounds(b, bump_state(s));
        } else if b[s.pos] == 47u8 && s.pos + 1 < b.len() && b[s.pos + 1] == 47u8 {
            let t = bump_state(bump_state(s));
            lemma_skip_line_comment_bounds(b, t);
            lemma_skip_bounds(b, skip_line_comment(b, t));
        } else if b[s.pos] == 47u8 && s.pos + 1 < b.len() && b[s.pos + 1] == 42u8 {
            let t = bump_state(bump_state(s));
            lemma_skip_block_comment_bounds(b, t);
            lemma_skip_bounds(b, skip_block_comment(b, t));
        }
    }
}

pub proof fn lemma_scan_index_bounds(b: Seq<u8>, s: ScanState)
    requires
        0 <= s.pos <= b.len(),
    ensures
        s.pos <= scan_index_spec(b, s).pos <= b.len(),
        scan_index_spec(b, s).line == s.line,
        scan_index_spec(b, s).pos > s.pos ==> b[scan_index_spec(b, s).pos - 1] < 0x80u8,
        s.pos < b.len() && is_index_byte(b[s.pos]) ==> scan_index_spec(b, s).pos > s.pos,
    decreases b.len() - s.pos,
{
    if 0 <= s.pos < b.len() && is_index_byte(b[s.pos]) {
        lemma_scan_index_bounds(b, bump_state(s));
    }
}

pub proof fn lemma_scan_word_bounds(b: Seq<u8>, s: ScanState)
    requires
        0 <= s.pos <= b.len(),
    ensures
        s.pos <= scan_word_spec(b, s).pos <= b.len(),
        scan_word_spec(b, s).line == s.line,
        scan_word_spec(b, s).pos > s.pos ==> b[scan_word_spec(b, s).pos - 1] < 0x80u8,
        s.pos < b.len() && is_word_byte(b[s.pos]) ==> scan_word_spec(b, s).pos > s.pos,
    decreases b.len() - s.pos,
{
    if 0 <= s.pos < b.len() && is_word_byte(b[s.pos]) {
        lemma_scan_word_bounds(b, bump_state(s));
    }
}

/// Reading a token moves forward and stays within the input; only `Eof`
/// leaves the offset where it was, and `Eof` is read only at the end.
pub proof fn lemma_lex_step_progress(b: Seq<u8>, s: ScanState)
    requires
        0 <= s.pos <= b.len(),
    ensures
        s.pos <= lex_step(b, s).1.pos <= b.len(),
        lex_step(b, s).0 matches LexStep::Tok { typ, start, end, .. } ==> {
            &&& s.pos <= start <= end == lex_step(b, s).1.pos
            &&& (typ == TokenType::Eof <==> start == b.len())
            &&& (typ == TokenType::Eof ==> end == start)
            &&& (typ != TokenType::Eof ==> end > s.pos)
        },
        !(lex_step(b, s).0 is Tok) ==> lex_step(b, s).1.pos > s.pos,
    decreases b.len() - s.pos,
{
    lemma_skip_bounds(b, s);
    let s0 = skip_spec(b, s);
    if 0 <= s0.pos < b.len() {
        let c = b[s0.pos];
        if c == 10u8 {
        } else if is_digit(c) {
            lemma_scan_index_bounds(b, s0);
        } else if is_alpha(c) || c == 95u8 {
            lemma_scan_word_bounds(b, s0);
        } else if c == 62u8 || c == 60u8 {
            lemma_lex_step_progress(b, bump_state(s0));
        }
    }
}

/// Whether an outcome of [`Scanner::try_next_token`] is the one that
/// `step` describes, on the bytes `b`.
pub open spec fn outcome_matches(
    res: Option<Result<Token, ParseError>>,
    step: LexStep,
    b: Seq<u8>,
) -> bool {
    match res {
        None => step is Panic,
        Some(Ok(t)) => match step {
            LexStep::Tok { typ, start, end, line, col } => {
                &&& t.typ == typ
                &&& t.lexeme.spec_bytes() == b.subrange(start, end)
                &&& t.lexeme@ == decode_utf8(b.subrange(start, end))
                &&& t.line == line
                &&& t.col == col
            },
            _ => false,
        },
        Some(Err(e)) => match step {
            LexStep::Fail { c, line, col } => e@ == ParseErrorView::Unexpected {
                typ: seq![c as char],
                line: line as usize,
                col: col as usize,
            } && line == line as usize && col == col as usize,
            _ => false,
        },
    }
}

fn is_digit_exec(c: u8) -> (res: bool)
    ensures
        res == is_digit(c),
{
    48u8 <= c && c <= 57u8
}

fn is_alpha_exec(c: u8) -> (res: bool)
    ensures
        res == is_alpha(c),
{
    (65u8 <= c && c <= 90u8) || (97u8 <= c && c <= 122u8)
}

fn keyword_type_exec(w: &str) -> (res: TokenType)
    ensures
        res == keyword_type(w@),
{
    if str_eq(w, "package") {
        TokenType::Package
    } else if str_eq(w, "import") {
        TokenType::Import
    } else if str_eq(w, "const") {
        TokenType::Const
    } else if str_eq(w, "option") {
        TokenType::Option
    } else if str_eq(w, "enum") {
        TokenType::Enum
    } else if str_eq(w, "frame") {
        TokenType::Frame
    } else if str_eq(w, "synq") {
        TokenType::Photon
    } else if str_eq(w, "message") {
        TokenType::Message
    } else if str_eq(w, "use") {
        TokenType::Use
    } else {
        TokenType::Ident
    }
}

fn punct_type_exec(c: u8) -> (res: Option<TokenType>)
    ensures
        res == punct_type(c),
{
    if c == 64u8 {
        Some(TokenType::Attribute)
    } else if c == 61u8 {
        Some(TokenType::Equal)
    } else if c == 123u8 {
        Some(TokenType::Lbrace)
    } else if c == 125u8 {
        Some(TokenType::Rbrace)
    } else if c == 40u8 {
        Some(TokenType::Lparen)
    } else if c == 41u8 {
        Some(TokenType::Rparen)
    } else if c == 42u8 {
        Some(TokenType::Star)
    } else if c == 46u8 {
        Some(TokenType::Dot)
    } else if c == 47u8 {
        Some(TokenType::Slash)
    } else if c == 34u8 {
        Some(TokenType::Quote)
    } else {
        None
    }
}

impl<'a> Scanner<'a> {
    fn scan_index(&mut self)
        requires
            old(self).wf(),
        ensures
            final(self).wf(),
            final(self).bytes() == old(self).bytes(),
            final(self).source() == old(self).source(),
            final(self).state() == scan_index_spec(old(self).bytes(), old(self).state()),
        decreases old(self).bytes().len() - old(self).state().pos,
    {
        proof {
            self.lemma_wf_valid_utf8();
        }
        match self.current() {
            Some(b) => {
                if is_digit_exec(b) || b == 46u8 || b == 95u8 {
                    self.bump();
                    self.scan_index();
                }
            },
            None => {},
        }
    }

    fn scan_word(&mut self)
        requires
            old(self).wf(),
        ensures
            final(self).wf(),
            final(self).bytes() == old(self).bytes(),
            final(self).source() == old(self).source(),
            final(self).state() == scan_word_spec(old(self).bytes(), old(self).state()),
        decreases old(self).bytes().len() - old(self).state().pos,
    {
        proof {
            self.lemma_wf_valid_utf8();
        }
        match self.current() {
            Some(b) => {
                if is_alpha_exec(b) || is_digit_exec(b) || b == 95u8 {
                    self.bump();
                    self.scan_word();
                }
            },
            None => {},
        }
    }

    /// Reads the next token, or says that reading it would panic (`None`).
    pub fn try_next_token(&mut self) -> (res: Option<Result<Token<'a>, ParseError>>)
        requires
            old(self).wf(),
        ensures
            final(self).wf(),
            final(self).bytes() == old(self).bytes(),
            final(self).source() == old(self).source(),
            final(self).state() == lex_step(old(self).bytes(), old(self).state()).1,
            outcome_matches(res, lex_step(old(self).bytes(), old(self).state()).0, old(self).bytes()),
            res matches Some(Ok(_)) ==> final(self).state().pos == final(self).bytes().len() || (
            0 < final(self).state().pos && final(self).bytes()[final(self).state().pos - 1]
                < 0x80u8),
        decreases old(self).bytes().len() - old(self).state().pos,
    {
        let ghost b = self.bytes();
        proof {
            self.lemma_wf_valid_utf8();
            lemma_skip_bounds(b, self.state());
        }
        self.skip();
        let (line, col) = self.curr_loc();
        let start = self.current_pos();
        let cur = self.current();
        match cur {
            None => {
                let lexeme = self.slice(start, start);
                proof {
                    lemma_chars_of_bytes(lexeme);
                }
                Some(Ok(Token { typ: TokenType::Eof, lexeme, line, col }))
            },
            Some(c) => {
                if c == 10u8 {
                    self.bump_nl();
                    proof {
                        lemma_after_ascii_is_boundary(b, start + 1);
                    }
                    let lexeme = self.slice(start, start + 1);
                    proof {
                        lemma_chars_of_bytes(lexeme);
                    }
                    return Some(Ok(Token { typ: TokenType::Newline, lexeme, line, col }));
                }
                if is_digit_exec(c) {
                    proof {
                        lemma_scan_index_bounds(b, self.state());
                    }
                    self.scan_index();
                    let end = self.current_pos();
                    proof {
                        lemma_after_ascii_is_boundary(b, end as int);
                    }
                    let lexeme = self.slice(start, end);
                    proof {
                        lemma_chars_of_bytes(lexeme);
                    }
                    return Some(Ok(Token { typ: TokenType::Index, lexeme, line, col }));
                }
                if is_alpha_exec(c) || c == 95u8 {
                    proof {
                        lemma_scan_word_bounds(b, self.state());
                    }
                    self.scan_word();
                    let end = self.current_pos();
                    proof {
                        lemma_after_ascii_is_boundary(b, end as int);
                    }
                    let lexeme = self.slice(start, end);
                    proof {
                        lemma_chars_of_bytes(lexeme);
                    }
                    let typ = keyword_type_exec(lexeme);
                    return Some(Ok(Token { typ, lexeme, line, col }));
                }
                self.bump();
                if c == 62u8 || c == 60u8 {
                    let inner = self.try_next_token();
                    match inner {
                        Some(Ok(t)) => {
                            let typ = if t.typ == TokenType::Equal {
                                if c == 62u8 {
                                    TokenType::GreaterThan
                                } else {
                                    TokenType::LessThan
                                }
                            } else if c == 62u8 {
                                TokenType::Greater
                            } else {
                                TokenType::Less
                            };
                            let end = self.current_pos();
                            proof {
                                lemma_lex_step_progress(b, bump_state(skip_spec(b, old(self).state())));
                                if end < b.len() {
                                    lemma_after_ascii_is_boundary(b, end as int);
                                }
                            }
                            let lexeme = self.slice(start, end);
                            proof {
                                lemma_chars_of_bytes(lexeme);
                            }
                            Some(Ok(Token { typ, lexeme, line, col }))
                        },
                        _ => None,
                    }
                } else {
                    match punct_type_exec(c) {
                        Some(typ) => {
                            proof {
                                lemma_after_ascii_is_boundary(b, start + 1);
                            }
                            let lexeme = self.slice(start, start + 1);
                            proof {
                                lemma_chars_of_bytes(lexeme);
                            }
                            Some(Ok(Token { typ, lexeme, line, col }))
                        },
                        None => Some(
                            Err(
                                ParseError::Unexpected {
                                    typ: char_to_string(c as char),
                                    line,
                                    col,
                                },
                            ),
                        ),
                    }
                }
            },
        }
    }

    /// Reads the next token: skips blanks and comments, then reads a token
    /// as [`lex_step`] describes, or reports the byte that starts none.
    pub fn next_token(&mut self) -> (res: Result<Token<'a>, ParseError>)
        requires
            old(self).wf(),
            !(lex_step(old(self).bytes(), old(self).state()).0 is Panic),
        ensures
            final(self).wf(),
            final(self).bytes() == old(self).bytes(),
            final(self).source() == old(self).source(),
            final(self).state() == lex_step(old(self).bytes(), old(self).state()).1,
            outcome_matches(
                Some(res),
                lex_step(old(self).bytes(), old(self).state()).0,
                old(self).bytes(),
            ),
    {
        match self.try_next_token() {
            Some(r) => r,
            None => Err(ParseError::Unexpected { typ: String::new(), line: 0, col: 0 }),
        }
    }
}


/// What reading a whole input gives: its tokens up to and including the
/// end-of-file token, the first failure, or a panic.
pub enum Lexed {
    Tokens(Seq<LexStep>),
    Failed(LexStep),
    Panic,
}

/// Reads tokens from state `s` until the end-of-file token.
pub open spec fn lex_all(b: Seq<u8>, s: ScanState) -> Lexed
    decreases b.len() - s.pos,
    when 0 <= s.pos <= b.len()
{
    let (r, s1) = lex_step(b, s);
    proof {
        lemma_lex_step_progress(b, s);
    }
    match r {
        LexStep::Tok { typ, .. } => if typ == TokenType::Eof {
            Lexed::Tokens(seq![r])
        } else {
            match lex_all(b, s1) {
                Lexed::Tokens(ts) => Lexed::Tokens(seq![r] + ts),
                other => other,
            }
        },
        LexStep::Fail { .. } => Lexed::Failed(r),
        LexStep::Panic => Lexed::Panic,
    }
}

/// Whether executable tokens are the ones that `steps` describe.
pub open spec fn tokens_match(toks: Seq<Token>, steps: Seq<LexStep>, b: Seq<u8>) -> bool {
    &&& toks.len() == steps.len()
    &&& forall|i: int| 0 <= i < toks.len() ==> outcome_matches(Some(Ok(#[trigger] toks[i])), steps[i], b)
}

/// The state at the start of an input.
pub open spec fn start_state() -> ScanState {
    ScanState { pos: 0, line: 0, col: 0 }
}

/// Reads all tokens of `input`, the last being end of file; or the first
/// error; or `None` where reading would panic.
pub fn try_tokenize<'a>(input: &'a str) -> (res: Option<Result<Vec<Token<'a>>, ParseError>>)
    ensures
        match res {
            None => lex_all(input.spec_bytes(), start_state()) is Panic,
            Some(Ok(v)) => match lex_all(input.spec_bytes(), start_state()) {
                Lexed::Tokens(steps) => tokens_match(v@, steps, input.spec_bytes()),
                _ => false,
            },
            Some(Err(e)) => match lex_all(input.spec_bytes(), start_state()) {
                Lexed::Failed(step) => outcome_matches(Some(Err(e)), step, input.spec_bytes()),
                _ => false,
            },
        },
{
    let mut scanner = Scanner::new(input);
    let ghost b = input.spec_bytes();
    let mut tokens: Vec<Token<'a>> = Vec::new();
    let ghost mut done: Seq<LexStep> = Seq::empty();
    loop
        invariant
            scanner.wf(),
            scanner.bytes() == b,
            b == input.spec_bytes(),
            0 <= scanner.state().pos <= b.len(),
            tokens_match(tokens@, done, b),
            match lex_all(b, scanner.state()) {
                Lexed::Tokens(rest) => lex_all(b, start_state()) == Lexed::Tokens(done + rest),
                other => lex_all(b, start_state()) == other,
            },
        decreases b.len() - scanner.state().pos,
    {
        let ghost s = scanner.state();
        proof {
            lemma_lex_step_progress(b, s);
            scanner.lemma_wf_valid_utf8();
        }
        let r = scanner.try_next_token();
        match r {
            None => return None,
            Some(Err(e)) => return Some(Err(e)),
            Some(Ok(t)) => {
                let ghost step = lex_step(b, s).0;
                let is_eof = t.typ == TokenType::Eof;
                let ghost old_tokens = tokens@;
                tokens.push(t);
                proof {
                    let old_done = done;
                    done = done.push(step);
                    assert forall|i: int| 0 <= i < tokens@.len() implies outcome_matches(
                        Some(Ok(#[trigger] tokens@[i])),
                        done[i],
                        b,
                    ) by {
                        if i < old_done.len() {
                            assert(tokens@[i] == old_tokens[i]);
                        }
                    }
                    if !is_eof {
                        match lex_all(b, scanner.state()) {
                            Lexed::Tokens(rest) => {
                                assert(seq![step] + rest =~= seq![step] + rest);
                                assert(old_done + (seq![step] + rest) =~= done + rest);
                            },
                            _ => {},
                        }
                    } else {
                        assert(old_done + seq![step] =~= done);
                    }
                }
                if is_eof {
                    return Some(Ok(tokens));
                }
            },
        }
    }
}

/// The kind of a token read, if a token was read.
pub open spec fn step_typ(st: LexStep) -> Option<TokenType> {
    match st {
        LexStep::Tok { typ, .. } => Some(typ),
        _ => None,
    }
}

/// Where a token read starts.
pub open spec fn step_start(st: LexStep) -> int {
    match st {
        LexStep::Tok { start, .. } => start,
        _ => 0,
    }
}

/// Where a token read ends.
pub open spec fn step_end(st: LexStep) -> int {
    match st {
        LexStep::Tok { end, .. } => end,
        _ => 0,
    }
}

/// Law: reading a whole input, when it succeeds, gives tokens in source
/// order that do not overlap and stay within the input, and ends with
/// exactly one end-of-file token, which covers nothing at the end of the
/// input.
pub proof fn law_tokens_in_order_ending_with_eof(b: Seq<u8>, s: ScanState)
    requires
        0 <= s.pos <= b.len(),
    ensures
        lex_all(b, s) matches Lexed::Tokens(ts) ==> {
            &&& ts.len() >= 1
            &&& step_typ(ts.last()) == Some(TokenType::Eof)
            &&& step_start(ts.last()) == b.len()
            &&& step_end(ts.last()) == b.len()
            &&& forall|i: int| 0 <= i < ts.len() ==> #[trigger] step_typ(ts[i]) is Some
            &&& forall|i: int| 0 <= i < ts.len() - 1 ==> #[trigger] step_typ(ts[i]) != Some(TokenType::Eof)
            &&& forall|i: int| 0 <= i < ts.len() ==> s.pos <= #[trigger] step_start(ts[i]) <= step_end(ts[i]) <= b.len()
            &&& forall|i: int| 0 <= i < ts.len() - 1 ==> #[trigger] step_end(ts[i]) <= step_start(ts[i + 1])
        },
    decreases b.len() - s.pos,
{
    lemma_lex_step_progress(b, s);
    let (r, s1) = lex_step(b, s);
    match r {
        LexStep::Tok { typ, .. } => {
            if typ != TokenType::Eof {
                law_tokens_in_order_ending_with_eof(b, s1);
                match lex_all(b, s1) {
                    Lexed::Tokens(rest) => {
                        let ts = seq![r] + rest;
                        assert forall|i: int| 0 <= i < ts.len() implies #[trigger] step_typ(ts[i]) is Some by {
                            if i > 0 {
                                assert(ts[i] == rest[i - 1]);
                            }
                        }
                        assert forall|i: int| 0 <= i < ts.len() - 1 implies #[trigger] step_typ(ts[i]) != Some(TokenType::Eof) by {
                            if i > 0 {
                                assert(ts[i] == rest[i - 1]);
                            }
                        }
                        assert forall|i: int| 0 <= i < ts.len() implies s.pos <= #[trigger] step_start(ts[i]) <= step_end(ts[i]) <= b.len() by {
                            if i > 0 {
                                assert(ts[i] == rest[i - 1]);
                            }
                        }
                        assert forall|i: int| 0 <= i < ts.len() - 1 implies #[trigger] step_end(ts[i]) <= step_start(ts[i + 1]) by {
                            assert(ts[i + 1] == rest[i]);
                            if i > 0 {
                                assert(ts[i] == rest[i - 1]);
                            }
                        }
                        assert(ts.last() == rest.last());
                    },
                    _ => {},
                }
            }
        },
        _ => {},
    }
}

/// Law: reading a token never moves back a line; a line feed token moves
/// to the next line, at column zero.
pub proof fn law_lines_advance_at_newlines(b: Seq<u8>, s: ScanState)
    requires
        0 <= s.pos <= b.len(),
    ensures
        lex_step(b, s).1.line >= s.line,
        lex_step(b, s).0 matches LexStep::Tok { typ, line, .. } ==> line >= s.line,
        lex_step(b, s).0 matches LexStep::Tok { typ, line, .. } ==> (typ == TokenType::Newline
            ==> lex_step(b, s).1.line == line + 1 && lex_step(b, s).1.col == 0),
    decreases b.len() - s.pos,
{
    lemma_skip_bounds(b, s);
    let s0 = skip_spec(b, s);
    if 0 <= s0.pos < b.len() {
        let c = b[s0.pos];
        if c == 10u8 {
        } else if is_digit(c) {
            lemma_scan_index_bounds(b, s0);
        } else if is_alpha(c) || c == 95u8 {
            lemma_scan_word_bounds(b, s0);
        } else if c == 62u8 || c == 60u8 {
            law_lines_advance_at_newlines(b, bump_state(s0));
        }
    }
}

/// The state after skipping is one from which nothing more is skipped.
pub proof fn lemma_skip_stops(b: Seq<u8>, s: ScanState)
    requires
        0 <= s.pos <= b.len(),
    ensures
        ({
            let r = skip_spec(b, s);
            r.pos == b.len() || !(is_blank(b[r.pos]) || (b[r.pos] == 47u8 && r.pos + 1 < b.len() && (
            b[r.pos + 1] == 47u8 || b[r.pos + 1] == 42u8)))
        }),
    decreases b.len() - s.pos,
{
    if s.pos < b.len() {
        if is_blank(b[s.pos]) {
            lemma_skip_stops(b, bump_state(s));
        } else if b[s.pos] == 47u8 && s.pos + 1 < b.len() && b[s.pos + 1] == 47u8 {
            let t = bump_state(bump_state(s));
            lemma_skip_line_comment_bounds(b, t);
            lemma_skip_stops(b, skip_line_comment(b, t));
        } else if b[s.pos] == 47u8 && s.pos + 1 < b.len() && b[s.pos + 1] == 42u8 {
            let t = bump_state(bump_state(s));
            lemma_skip_block_comment_bounds(b, t);
            lemma_skip_stops(b, skip_block_comment(b, t));
        }
    }
}

/// Law: skipping blanks and comments twice skips no more than once.
pub proof fn law_skip_idempotent(b: Seq<u8>, s: ScanState)
    requires
        0 <= s.pos <= b.len(),
    ensures
        skip_spec(b, skip_spec(b, s)) == skip_spec(b, s),
{
    lemma_skip_stops(b, s);
    lemma_skip_bounds(b, s);
}

} // verus!
