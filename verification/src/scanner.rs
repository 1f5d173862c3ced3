//! The lexical scanner: turns source text into tokens on demand, one per
//! call, against a full functional model of tokenization.

use vstd::prelude::*;

verus! {

/// The kinds of lexical token the scanner produces. `Error` carries a
/// message instead of a lexeme; `Eof` is produced forever once the source
/// is exhausted; `DefaultConstructed` only ever appears in the parser's
/// not-yet-primed lookahead slots.
#[derive(Debug, Clone, Copy, PartialEq, Eq, Structural)]
pub enum TokenType {
    LeftParen,
    RightParen,
    LeftBrace,
    RightBrace,
    Comma,
    Dot,
    Minus,
    Plus,
    Semicolon,
    Slash,
    Star,
    Bang,
    BangEqual,
    Equal,
    EqualEqual,
    Greater,
    GreaterEqual,
    Less,
    LessEqual,
    Identifier,
    String,
    Number,
    And,
    Class,
    Else,
    False,
    For,
    Fun,
    If,
    Nil,
    Or,
    Print,
    Return,
    Super,
    This,
    True,
    Var,
    While,
    Error,
    Eof,
    DefaultConstructed,
}

/// One lexical token: its kind, its text — the raw lexeme, or the message
/// for an `Error` token — and the source line it ends on.
pub struct Token {
    pub type_: TokenType,
    pub name: String,
    pub line: usize,
}

/// Whether `char::is_alphabetic` holds of a character: the result depends
/// on the character alone, so it is named here and never restated.
pub uninterp spec fn unicode_alphabetic(c: char) -> bool;

/// Relies on char::is_alphabetic: a fixed classification by the character
/// alone, used for the continuation characters of identifiers.
#[verifier::external_body]
fn char_is_alphabetic(c: char) -> (r: bool)
    ensures
        r == unicode_alphabetic(c),
{
    c.is_alphabetic()
}

/// Relies on String::push: appends exactly one character at the end.
#[verifier::external_body]
fn push_char(s: &mut String, c: char)
    ensures
        final(s)@ == old(s)@.push(c),
{
    s.push(c);
}

pub open spec fn is_digit_char(c: char) -> bool {
    '0' <= c && c <= '9'
}

pub open spec fn is_ident_start(c: char) -> bool {
    ('a' <= c && c <= 'z') || ('A' <= c && c <= 'Z') || c == '_'
}

pub open spec fn is_ident_continue(c: char) -> bool {
    unicode_alphabetic(c) || is_digit_char(c) || c == '_'
}

/// The index right after a line comment that starts before `pos`: the first
/// index at or past `pos` holding a newline, or the end of the source. The
/// newline itself is not part of the comment.
pub open spec fn comment_end(src: Seq<char>, pos: int) -> int
    decreases src.len() - pos,
{
    if pos < 0 || pos >= src.len() {
        src.len() as int
    } else if src[pos] == '\n' {
        pos
    } else {
        comment_end(src, pos + 1)
    }
}

proof fn lemma_comment_end(src: Seq<char>, pos: int)
    requires
        0 <= pos <= src.len(),
    ensures
        pos <= comment_end(src, pos) <= src.len(),
    decreases src.len() - pos,
{
    if pos < src.len() && src[pos] != '\n' {
        lemma_comment_end(src, pos + 1);
    }
}

/// The cursor and line after skipping whitespace and line comments from
/// `pos`: blanks, carriage returns and tabs are consumed, each newline is
/// consumed and counted, and `//` consumes the rest of its line.
pub open spec fn skip_ws(src: Seq<char>, pos: int, line: int) -> (int, int)
    decreases src.len() - pos,
        when 0 <= pos <= src.len()
        via skip_ws_decreases
{
    if pos >= src.len() {
        (pos, line)
    } else {
        let c = src[pos];
        if c == ' ' || c == '\r' || c == '\t' {
            skip_ws(src, pos + 1, line)
        } else if c == '\n' {
            skip_ws(src, pos + 1, line + 1)
        } else if c == '/' && pos + 1 < src.len() && src[pos + 1] == '/' {
            skip_ws(src, comment_end(src, pos + 2), line)
        } else {
            (pos, line)
        }
    }
}

#[via_fn]
proof fn skip_ws_decreases(src: Seq<char>, pos: int, line: int) {
    if 0 <= pos < src.len() && src[pos] == '/' && pos + 1 < src.len() && src[pos + 1] == '/' {
        lemma_comment_end(src, pos + 2);
    }
}

/// The first index at or past `pos` holding a closing double quote, or the
/// end of the source if the string literal never terminates.
pub open spec fn string_end(src: Seq<char>, pos: int) -> int
    decreases src.len() - pos,
{
    if pos < 0 || pos >= src.len() {
        src.len() as int
    } else if src[pos] == '"' {
        pos
    } else {
        string_end(src, pos + 1)
    }
}

/// How many newlines `src` holds in the index range `[from, to)`.
pub open spec fn newlines_between(src: Seq<char>, from: int, to: int) -> int
    decreases to - from,
{
    if to <= from || to < 0 || to > src.len() {
        0
    } else {
        newlines_between(src, from, to - 1) + if src[to - 1] == '\n' {
            1int
        } else {
            0int
        }
    }
}

/// The first index at or past `pos` holding a non-digit, or the end.
pub open spec fn digits_end(src: Seq<char>, pos: int) -> int
    decreases src.len() - pos,
{
    if pos < 0 || pos >= src.len() {
        src.len() as int
    } else if is_digit_char(src[pos]) {
        digits_end(src, pos + 1)
    } else {
        pos
    }
}

/// Where a number lexeme whose integer part continues at `pos` ends: the
/// digits of the integer part, then — when a dot follows them — the dot and
/// the digits of the fractional part. No exponents.
pub open spec fn number_end(src: Seq<char>, pos: int) -> int {
    let d = digits_end(src, pos);
    if d < src.len() && src[d] == '.' {
        digits_end(src, d + 1)
    } else {
        d
    }
}

/// The first index at or past `pos` where an identifier that is under way
/// stops: the first character that is not alphabetic, a digit, or `_`.
pub open spec fn ident_end(src: Seq<char>, pos: int) -> int
    decreases src.len() - pos,
{
    if pos < 0 || pos >= src.len() {
        src.len() as int
    } else if is_ident_continue(src[pos]) {
        ident_end(src, pos + 1)
    } else {
        pos
    }
}

/// The kind an identifier lexeme classifies as: one of the sixteen reserved
/// words exactly when the whole lexeme equals it, a plain identifier
/// otherwise.
pub open spec fn keyword_or_ident(text: Seq<char>) -> TokenType {
    if text == "and"@ {
        TokenType::And
    } else if text == "class"@ {
        TokenType::Class
    } else if text == "else"@ {
        TokenType::Else
    } else if text == "false"@ {
        TokenType::False
    } else if text == "for"@ {
        TokenType::For
    } else if text == "fun"@ {
        TokenType::Fun
    } else if text == "if"@ {
        TokenType::If
    } else if text == "nil"@ {
        TokenType::Nil
    } else if text == "or"@ {
        TokenType::Or
    } else if text == "print"@ {
        TokenType::Print
    } else if text == "return"@ {
        TokenType::Return
    } else if text == "super"@ {
        TokenType::Super
    } else if text == "this"@ {
        TokenType::This
    } else if text == "true"@ {
        TokenType::True
    } else if text == "var"@ {
        TokenType::Var
    } else if text == "while"@ {
        TokenType::While
    } else {
        TokenType::Identifier
    }
}

/// The model of one produced token: its kind, its text (the lexeme, or the
/// message for an `Error` token), the line it is tagged with, and the
/// cursor position after it. The scanner's line counter always equals the
/// token's line once the token is produced.
pub ghost struct TokenV {
    pub kind: TokenType,
    pub text: Seq<char>,
    pub line: int,
    pub end: int,
}

/// Classifying one- and two-character operator tokens: the two-character
/// kind when `=` immediately follows, the one-character kind otherwise.
pub open spec fn two_char_token(
    src: Seq<char>,
    p: int,
    l: int,
    two: TokenType,
    one: TokenType,
) -> TokenV {
    if p + 1 < src.len() && src[p + 1] == '=' {
        TokenV { kind: two, text: src.subrange(p, p + 2), line: l, end: p + 2 }
    } else {
        TokenV { kind: one, text: src.subrange(p, p + 1), line: l, end: p + 1 }
    }
}

/// The full functional model of `Scanner::scan_token`: what one scan
/// request from cursor `pos0` on line `line0` produces, and where it leaves
/// the cursor and line counter.
pub open spec fn scan_spec(src: Seq<char>, pos0: int, line0: int) -> TokenV {
    let p = skip_ws(src, pos0, line0).0;
    let l = skip_ws(src, pos0, line0).1;
    if p >= src.len() {
        TokenV { kind: TokenType::Eof, text: Seq::empty(), line: l, end: src.len() as int }
    } else {
        let c = src[p];
        if c == '(' {
            TokenV { kind: TokenType::LeftParen, text: src.subrange(p, p + 1), line: l, end: p + 1 }
        } else if c == ')' {
            TokenV {
                kind: TokenType::RightParen,
                text: src.subrange(p, p + 1),
                line: l,
                end: p + 1,
            }
        } else if c == '{' {
            TokenV { kind: TokenType::LeftBrace, text: src.subrange(p, p + 1), line: l, end: p + 1 }
        } else if c == '}' {
            TokenV {
                kind: TokenType::RightBrace,
                text: src.subrange(p, p + 1),
                line: l,
                end: p + 1,
            }
        } else if c == ';' {
            TokenV { kind: TokenType::Semicolon, text: src.subrange(p, p + 1), line: l, end: p + 1 }
        } else if c == ',' {
            TokenV { kind: TokenType::Comma, text: src.subrange(p, p + 1), line: l, end: p + 1 }
        } else if c == '.' {
            TokenV { kind: TokenType::Dot, text: src.subrange(p, p + 1), line: l, end: p + 1 }
        } else if c == '+' {
            TokenV { kind: TokenType::Plus, text: src.subrange(p, p + 1), line: l, end: p + 1 }
        } else if c == '-' {
            TokenV { kind: TokenType::Minus, text: src.subrange(p, p + 1), line: l, end: p + 1 }
        } else if c == '*' {
            TokenV { kind: TokenType::Star, text: src.subrange(p, p + 1), line: l, end: p + 1 }
        } else if c == '/' {
            TokenV { kind: TokenType::Slash, text: src.subrange(p, p + 1), line: l, end: p + 1 }
        } else if c == '!' {
            two_char_token(src, p, l, TokenType::BangEqual, TokenType::Bang)
        } else if c == '=' {
            two_char_token(src, p, l, TokenType::EqualEqual, TokenType::Equal)
        } else if c == '>' {
            two_char_token(src, p, l, TokenType::GreaterEqual, TokenType::Greater)
        } else if c == '<' {
            two_char_token(src, p, l, TokenType::LessEqual, TokenType::Less)
        } else if c == '"' {
            let e = string_end(src, p + 1);
            let l2 = l + newlines_between(src, p + 1, e);
            if e >= src.len() {
                TokenV {
                    kind: TokenType::Error,
                    text: "Unterminated string"@,
                    line: l2,
                    end: src.len() as int,
                }
            } else {
                TokenV { kind: TokenType::String, text: src.subrange(p, e + 1), line: l2, end: e + 1 }
            }
        } else if is_digit_char(c) {
            let e = number_end(src, p + 1);
            TokenV { kind: TokenType::Number, text: src.subrange(p, e), line: l, end: e }
        } else if is_ident_start(c) {
            let e = ident_end(src, p + 1);
            TokenV {
                kind: keyword_or_ident(src.subrange(p, e)),
                text: src.subrange(p, e),
                line: l,
                end: e,
            }
        } else {
            TokenV { kind: TokenType::Error, text: "Unexpected character."@, line: l, end: p + 1 }
        }
    }
}

/// The model of the scanner's cursor state.
pub ghost struct ScannerV {
    pub source: Seq<char>,
    pub start: int,
    pub current: int,
    pub line: int,
}

/// The lexical scanner: a cursor over the source characters plus the
/// current line counter. `scan_token` may be called repeatedly; once the
/// source is exhausted it produces `Eof` forever, and it never fails —
/// lexical errors come back as `Error` tokens.
pub struct Scanner {
    source: Vec<char>,
    start: usize,
    current: usize,
    line: usize,
}

impl View for Scanner {
    type V = ScannerV;

    closed spec fn view(&self) -> ScannerV {
        ScannerV {
            source: self.source@,
            start: self.start as int,
            current: self.current as int,
            line: self.line as int,
        }
    }
}

/// Builds the string holding the characters `v[from..to]`.
fn chars_to_string(v: &Vec<char>, from: usize, to: usize) -> (s: String)
    requires
        from <= to <= v@.len(),
    ensures
        s@ == v@.subrange(from as int, to as int),
{
    let mut s = String::new();
    let mut i: usize = from;
    while i < to
        invariant
            from <= i <= to <= v@.len(),
            s@ == v@.subrange(from as int, i as int),
        decreases to - i,
    {
        push_char(&mut s, v[i]);
        i += 1;
        proof {
            assert(s@ =~= v@.subrange(from as int, i as int));
        }
    }
    s
}

/// Whether the characters `v[from..to]` spell exactly `s`.
fn chars_eq_str(v: &Vec<char>, from: usize, to: usize, s: &str) -> (r: bool)
    requires
        from <= to <= v@.len(),
    ensures
        r == (v@.subrange(from as int, to as int) == s@),
{
    let n = s.unicode_len();
    if n != to - from {
        proof {
            assert(v@.subrange(from as int, to as int).len() == to - from);
        }
        return false;
    }
    let mut i: usize = 0;
    while i < n
        invariant
            from + n == to,
            to <= v@.len(),
            i <= n,
            n == s@.len(),
            forall|j: int| 0 <= j < i ==> v@[from + j] == s@[j],
        decreases n - i,
    {
        if v[from + i] != s.get_char(i) {
            proof {
                assert(v@.subrange(from as int, to as int)[i as int] == v@[from + i]);
            }
            return false;
        }
        i += 1;
    }
    proof {
        assert(v@.subrange(from as int, to as int) =~= s@);
    }
    true
}

impl Scanner {
    /// The scanner's well-formedness: the cursor and lexeme start stay
    /// inside the source, and the line counter starts at one and can have
    /// grown at most one per consumed character.
    pub open spec fn wf(&self) -> bool {
        &&& self@.source.len() < usize::MAX
        &&& self@.current <= self@.source.len()
        &&& self@.start <= self@.source.len()
        &&& 1 <= self@.line
        &&& self@.line <= self@.current + 1
    }

    pub fn new(source_code: &str) -> (r: Self)
        requires
            source_code@.len() < usize::MAX,
        ensures
            r.wf(),
            r@.source == source_code@,
            r@.start == 0,
            r@.current == 0,
            r@.line == 1,
    {
        let n = source_code.unicode_len();
        let mut chars: Vec<char> = Vec::new();
        let mut i: usize = 0;
        while i < n
            invariant
                i <= n,
                n == source_code@.len(),
                chars@ == source_code@.subrange(0, i as int),
            decreases n - i,
        {
            chars.push(source_code.get_char(i));
            i += 1;
            proof {
                assert(chars@ =~= source_code@.subrange(0, i as int));
            }
        }
        proof {
            assert(chars@ =~= source_code@);
        }
        Scanner { source: chars, start: 0, current: 0, line: 1 }
    }

    /// True when the cursor has consumed the whole source.
    fn is_at_end(&self) -> (r: bool)
        ensures
            r == (self@.current >= self@.source.len()),
    {
        self.current >= self.source.len()
    }

    /// Consumes and returns the character at the cursor.
    pub fn advance(&mut self) -> (c: char)
        requires
            old(self).wf(),
            old(self)@.current < old(self)@.source.len(),
        ensures
            final(self).wf(),
            c == old(self)@.source[old(self)@.current],
            final(self)@.current == old(self)@.current + 1,
            final(self)@.source == old(self)@.source,
            final(self)@.start == old(self)@.start,
            final(self)@.line == old(self)@.line,
    {
        let c = self.source[self.current];
        self.current += 1;
        c
    }

    /// Consumes the character at the cursor exactly when it is `expected`.
    fn next_matches(&mut self, expected: char) -> (r: bool)
        requires
            old(self).wf(),
        ensures
            final(self).wf(),
            r == (old(self)@.current < old(self)@.source.len() && old(self)@.source[old(
                self,
            )@.current] == expected),
            final(self)@.current == old(self)@.current + if r {
                1int
            } else {
                0int
            },
            final(self)@.source == old(self)@.source,
            final(self)@.start == old(self)@.start,
            final(self)@.line == old(self)@.line,
    {
        if self.current >= self.source.len() {
            return false;
        }
        if self.source[self.current] != expected {
            return false;
        }
        self.current += 1;
        true
    }

    /// The character at the cursor, or the null character at the end.
    fn peek(&self) -> (c: char)
        ensures
            c == if self@.current < self@.source.len() {
                self@.source[self@.current]
            } else {
                '\0'
            },
    {
        if self.current < self.source.len() {
            self.source[self.current]
        } else {
            '\0'
        }
    }

    /// The character after the cursor, or the null character past the end.
    fn peek_next(&self) -> (c: char)
        requires
            self@.current <= self@.source.len(),
        ensures
            c == if self@.current + 1 < self@.source.len() {
                self@.source[self@.current + 1]
            } else {
                '\0'
            },
    {
        let n = self.source.len();
        if self.current < n && self.current + 1 < n {
            self.source[self.current + 1]
        } else {
            '\0'
        }
    }

    /// Builds a token of the given kind whose lexeme is the character range
    /// from the lexeme start to the cursor, tagged with the current line.
    fn make_token(&self, token_type: TokenType) -> (t: Token)
        requires
            self.wf(),
            self@.start <= self@.current,
        ensures
            t.type_ == token_type,
            t.name@ == self@.source.subrange(self@.start, self@.current),
            t.line == self@.line,
    {
        Token {
            type_: token_type,
            name: chars_to_string(&self.source, self.start, self.current),
            line: self.line,
        }
    }

    /// Builds the `Error` token carrying `msg` at the current line.
    fn error_token(&self, msg: &str) -> (t: Token)
        ensures
            t.type_ == TokenType::Error,
            t.name@ == msg@,
            t.line == self@.line,
    {
        Token { type_: TokenType::Error, name: msg.to_owned(), line: self.line }
    }

    /// Consumes whitespace and line comments, counting consumed newlines.
    fn skip_whitespace_and_comments(&mut self)
        requires
            old(self).wf(),
        ensures
            final(self).wf(),
            final(self)@.source == old(self)@.source,
            final(self)@.start == old(self)@.start,
            (final(self)@.current, final(self)@.line) == skip_ws(
                old(self)@.source,
                old(self)@.current,
                old(self)@.line,
            ),
    {
        let ghost src = self@.source;
        let ghost c0 = self@.current;
        let ghost l0 = self@.line;
        let n = self.source.len();
        loop
            invariant
                self.wf(),
                self@.source == src,
                self@.start == old(self)@.start,
                n == src.len(),
                src == old(self)@.source,
                c0 == old(self)@.current,
                l0 == old(self)@.line,
                0 <= c0 <= src.len(),
                1 <= l0,
                skip_ws(src, c0, l0) == skip_ws(src, self@.current, self@.line),
            decreases src.len() - self@.current,
        {
            if self.current >= n {
                return ;
            }
            let c = self.peek();
            if c == ' ' || c == '\r' || c == '\t' {
                self.current += 1;
            } else if c == '\n' {
                self.line += 1;
                self.current += 1;
            } else if c == '/' && self.peek_next() == '/' {
                proof {
                    assert(self@.current + 1 < src.len() && src[self@.current + 1] == '/');
                }
                let ghost slash = self@.current;
                self.current += 2;
                let ghost target = comment_end(src, self@.current);
                proof {
                    lemma_comment_end(src, self@.current);
                }
                while self.current < n && self.source[self.current] != '\n'
                    invariant
                        self.wf(),
                        self@.source == src,
                        self@.start == old(self)@.start,
                        n == src.len(),
                        src == old(self)@.source,
                        c0 == old(self)@.current,
                        l0 == old(self)@.line,
                        0 <= c0 <= src.len(),
                        1 <= l0,
                        self@.current <= target <= src.len(),
                        comment_end(src, self@.current) == target,
                        self@.line <= slash + 1,
                        skip_ws(src, c0, l0) == skip_ws(src, slash, self@.line),
                        slash + 2 <= self@.current,
                        src[slash] == '/' && src[slash + 1] == '/',
                    decreases src.len() - self@.current,
                {
                    proof {
                        lemma_comment_end(src, self@.current + 1);
                    }
                    self.current += 1;
                }
                proof {
                    assert(self@.current == target);
                    assert(skip_ws(src, slash, self@.line) == skip_ws(src, target, self@.line));
                }
            } else {
                return ;
            }
        }
    }
}

proof fn lemma_string_end(src: Seq<char>, pos: int)
    requires
        0 <= pos <= src.len(),
    ensures
        pos <= string_end(src, pos) <= src.len(),
        string_end(src, pos) < src.len() ==> src[string_end(src, pos)] == '"',
    decreases src.len() - pos,
{
    if pos < src.len() && src[pos] != '"' {
        lemma_string_end(src, pos + 1);
    }
}

proof fn lemma_digits_end(src: Seq<char>, pos: int)
    requires
        0 <= pos <= src.len(),
    ensures
        pos <= digits_end(src, pos) <= src.len(),
    decreases src.len() - pos,
{
    if pos < src.len() && is_digit_char(src[pos]) {
        lemma_digits_end(src, pos + 1);
    }
}

proof fn lemma_ident_end(src: Seq<char>, pos: int)
    requires
        0 <= pos <= src.len(),
    ensures
        pos <= ident_end(src, pos) <= src.len(),
    decreases src.len() - pos,
{
    if pos < src.len() && is_ident_continue(src[pos]) {
        lemma_ident_end(src, pos + 1);
    }
}

/// Splits a whole-lexeme comparison against a keyword at index `k`: when
/// the first `k` characters already agree, the lexeme equals the keyword
/// exactly when the lengths agree and the tails agree.
proof fn lemma_keyword_split(text: Seq<char>, kw: Seq<char>, k: int)
    requires
        0 < k <= kw.len(),
        k <= text.len(),
        forall|i: int| 0 <= i < k ==> text[i] == kw[i],
    ensures
        (text == kw) <==> (text.len() == kw.len() && text.subrange(k, text.len() as int)
            == kw.subrange(k, kw.len() as int)),
{
    if text.len() == kw.len() && text.subrange(k, text.len() as int) == kw.subrange(
        k,
        kw.len() as int,
    ) {
        assert forall|i: int| 0 <= i < text.len() implies text[i] == kw[i] by {
            if i >= k {
                assert(text.subrange(k, text.len() as int)[i - k] == text[i]);
                assert(kw.subrange(k, kw.len() as int)[i - k] == kw[i]);
            }
        }
        assert(text =~= kw);
    }
    if text == kw {
        assert(text.subrange(k, text.len() as int) =~= kw.subrange(k, kw.len() as int));
    }
}

impl Scanner {
    /// Produces the next token, exactly as `scan_spec` describes: skips
    /// whitespace and comments, then classifies what the cursor reaches.
    /// Never fails — a lexical error comes back as an `Error` token — and
    /// produces `Eof` forever once the source is exhausted.
    pub fn scan_token(&mut self) -> (t: Token)
        requires
            old(self).wf(),
        ensures
            final(self).wf(),
            final(self)@.source == old(self)@.source,
            ({
                let sp = scan_spec(old(self)@.source, old(self)@.current, old(self)@.line);
                &&& t.type_ == sp.kind
                &&& t.name@ == sp.text
                &&& t.line == sp.line
                &&& final(self)@.current == sp.end
                &&& final(self)@.line == sp.line
                &&& final(self)@.start == skip_ws(
                    old(self)@.source,
                    old(self)@.current,
                    old(self)@.line,
                ).0
            }),
    {
        let ghost src = old(self)@.source;
        let ghost sp = scan_spec(src, old(self)@.current, old(self)@.line);
        self.skip_whitespace_and_comments();
        self.start = self.current;
        if self.is_at_end() {
            let t = self.make_token(TokenType::Eof);
            proof {
                assert(t.name@ =~= Seq::<char>::empty());
            }
            return t;
        }
        let c = self.advance();
        if c == '(' {
            self.make_token(TokenType::LeftParen)
        } else if c == ')' {
            self.make_token(TokenType::RightParen)
        } else if c == '{' {
            self.make_token(TokenType::LeftBrace)
        } else if c == '}' {
            self.make_token(TokenType::RightBrace)
        } else if c == ';' {
            self.make_token(TokenType::Semicolon)
        } else if c == ',' {
            self.make_token(TokenType::Comma)
        } else if c == '.' {
            self.make_token(TokenType::Dot)
        } else if c == '+' {
            self.make_token(TokenType::Plus)
        } else if c == '-' {
            self.make_token(TokenType::Minus)
        } else if c == '*' {
            self.make_token(TokenType::Star)
        } else if c == '/' {
            self.make_token(TokenType::Slash)
        } else if c == '!' {
            let two = self.next_matches('=');
            self.make_token(if two {
                TokenType::BangEqual
            } else {
                TokenType::Bang
            })
        } else if c == '=' {
            let two = self.next_matches('=');
            self.make_token(if two {
                TokenType::EqualEqual
            } else {
                TokenType::Equal
            })
        } else if c == '>' {
            let two = self.next_matches('=');
            self.make_token(if two {
                TokenType::GreaterEqual
            } else {
                TokenType::Greater
            })
        } else if c == '<' {
            let two = self.next_matches('=');
            self.make_token(if two {
                TokenType::LessEqual
            } else {
                TokenType::Less
            })
        } else if c == '"' {
            self.string_token()
        } else if is_digit_exec(c) {
            self.number_token()
        } else if is_ident_start_exec(c) {
            self.identifier_token()
        } else {
            self.error_token("Unexpected character.")
        }
    }

    /// Scans the rest of a string literal whose opening quote was just
    /// consumed, counting embedded newlines; an unterminated literal comes
    /// back as the `Error` token `Unterminated string`.
    fn string_token(&mut self) -> (t: Token)
        requires
            old(self).wf(),
            old(self)@.start + 1 == old(self)@.current,
        ensures
            final(self).wf(),
            final(self)@.source == old(self)@.source,
            final(self)@.start == old(self)@.start,
            ({
                let src = old(self)@.source;
                let e = string_end(src, old(self)@.current);
                let l2 = old(self)@.line + newlines_between(src, old(self)@.current, e);
                &&& final(self)@.line == l2
                &&& t.line == l2
                &&& if e >= src.len() {
                    &&& t.type_ == TokenType::Error
                    &&& t.name@ == "Unterminated string"@
                    &&& final(self)@.current == src.len()
                } else {
                    &&& t.type_ == TokenType::String
                    &&& t.name@ == src.subrange(old(self)@.start, e + 1)
                    &&& final(self)@.current == e + 1
                }
            }),
    {
        let ghost src = self@.source;
        let ghost cc0 = self@.current;
        let ghost target = string_end(src, cc0);
        proof {
            lemma_string_end(src, cc0);
        }
        let n = self.source.len();
        while self.current < n && self.source[self.current] != '"'
            invariant
                self.wf(),
                self@.source == src,
                self@.start == old(self)@.start,
                src == old(self)@.source,
                cc0 == old(self)@.current,
                n == src.len(),
                cc0 <= self@.current <= target <= src.len(),
                string_end(src, self@.current) == target,
                target == string_end(src, cc0),
                self@.line == old(self)@.line + newlines_between(src, cc0, self@.current),
            decreases n - self@.current,
        {
            proof {
                lemma_string_end(src, self@.current + 1);
            }
            if self.source[self.current] == '\n' {
                self.line += 1;
            }
            self.current += 1;
        }
        proof {
            assert(self@.current == target);
        }
        if self.is_at_end() {
            return self.error_token("Unterminated string");
        }
        let _ = self.advance();
        self.make_token(TokenType::String)
    }

    /// Scans the rest of a number literal whose first digit was just
    /// consumed: the remaining digits of the integer part, and — when a dot
    /// follows them — the dot and the digits of the fractional part.
    fn number_token(&mut self) -> (t: Token)
        requires
            old(self).wf(),
            old(self)@.start + 1 == old(self)@.current,
        ensures
            final(self).wf(),
            final(self)@.source == old(self)@.source,
            final(self)@.start == old(self)@.start,
            final(self)@.line == old(self)@.line,
            ({
                let src = old(self)@.source;
                let e = number_end(src, old(self)@.current);
                &&& final(self)@.current == e
                &&& t.type_ == TokenType::Number
                &&& t.name@ == src.subrange(old(self)@.start, e)
                &&& t.line == old(self)@.line
            }),
    {
        let ghost src = self@.source;
        let ghost cc0 = self@.current;
        let ghost d = digits_end(src, cc0);
        proof {
            lemma_digits_end(src, cc0);
        }
        let n = self.source.len();
        while self.current < n && is_digit_exec(self.source[self.current])
            invariant
                self.wf(),
                self@.source == src,
                self@.start == old(self)@.start,
                src == old(self)@.source,
                cc0 == old(self)@.current,
                self@.line == old(self)@.line,
                n == src.len(),
                cc0 <= self@.current <= d <= src.len(),
                digits_end(src, self@.current) == d,
                d == digits_end(src, cc0),
            decreases n - self@.current,
        {
            proof {
                lemma_digits_end(src, self@.current + 1);
            }
            self.current += 1;
        }
        proof {
            assert(self@.current == d);
        }
        if self.current < n && self.source[self.current] == '.' {
            self.current += 1;
            let ghost d2 = digits_end(src, d + 1);
            proof {
                lemma_digits_end(src, d + 1);
            }
            while self.current < n && is_digit_exec(self.source[self.current])
                invariant
                    self.wf(),
                    self@.source == src,
                    self@.start == old(self)@.start,
                    src == old(self)@.source,
                    cc0 == old(self)@.current,
                    self@.line == old(self)@.line,
                    n == src.len(),
                    d + 1 <= self@.current <= d2 <= src.len(),
                    digits_end(src, self@.current) == d2,
                    d2 == digits_end(src, d + 1),
                    d == digits_end(src, cc0),
                    d < src.len() && src[d] == '.',
                decreases n - self@.current,
            {
                proof {
                    lemma_digits_end(src, self@.current + 1);
                }
                self.current += 1;
            }
            proof {
                assert(self@.current == d2);
            }
        }
        self.make_token(TokenType::Number)
    }

    /// Scans the rest of an identifier whose first character was just
    /// consumed, then classifies it against the reserved words.
    fn identifier_token(&mut self) -> (t: Token)
        requires
            old(self).wf(),
            old(self)@.start + 1 == old(self)@.current,
        ensures
            final(self).wf(),
            final(self)@.source == old(self)@.source,
            final(self)@.start == old(self)@.start,
            final(self)@.line == old(self)@.line,
            ({
                let src = old(self)@.source;
                let e = ident_end(src, old(self)@.current);
                &&& final(self)@.current == e
                &&& t.type_ == keyword_or_ident(src.subrange(old(self)@.start, e))
                &&& t.name@ == src.subrange(old(self)@.start, e)
                &&& t.line == old(self)@.line
            }),
    {
        let ghost src = self@.source;
        let ghost cc0 = self@.current;
        let ghost e = ident_end(src, cc0);
        proof {
            lemma_ident_end(src, cc0);
        }
        let n = self.source.len();
        while self.current < n && is_ident_continue_exec(self.source[self.current])
            invariant
                self.wf(),
                self@.source == src,
                self@.start == old(self)@.start,
                src == old(self)@.source,
                cc0 == old(self)@.current,
                self@.line == old(self)@.line,
                n == src.len(),
                cc0 <= self@.current <= e <= src.len(),
                ident_end(src, self@.current) == e,
                e == ident_end(src, cc0),
            decreases n - self@.current,
        {
            proof {
                lemma_ident_end(src, self@.current + 1);
            }
            self.current += 1;
        }
        proof {
            assert(self@.current == e);
        }
        let tt = self.identifier_type();
        self.make_token(tt)
    }

    /// Classifies the lexeme from the lexeme start to the cursor: a
    /// reserved word exactly when it equals one, a plain identifier
    /// otherwise. Dispatches on the first character (and for `f` and `t`
    /// the second) before comparing the remainder, trie-fashion.
    fn identifier_type(&self) -> (r: TokenType)
        requires
            self.wf(),
            self@.start < self@.current <= self@.source.len(),
        ensures
            r == keyword_or_ident(self@.source.subrange(self@.start, self@.current)),
    {
        let ghost text = self@.source.subrange(self@.start, self@.current);
        proof {
            reveal_strlit("and");
            reveal_strlit("class");
            reveal_strlit("else");
            reveal_strlit("false");
            reveal_strlit("for");
            reveal_strlit("fun");
            reveal_strlit("if");
            reveal_strlit("nil");
            reveal_strlit("or");
            reveal_strlit("print");
            reveal_strlit("return");
            reveal_strlit("super");
            reveal_strlit("this");
            reveal_strlit("true");
            reveal_strlit("var");
            reveal_strlit("while");
            reveal_strlit("nd");
            reveal_strlit("lass");
            reveal_strlit("lse");
            reveal_strlit("alse");
            reveal_strlit("r");
            reveal_strlit("n");
            reveal_strlit("f");
            reveal_strlit("il");
            reveal_strlit("rint");
            reveal_strlit("eturn");
            reveal_strlit("uper");
            reveal_strlit("is");
            reveal_strlit("ue");
            reveal_strlit("ar");
            reveal_strlit("hile");
            assert(text[0] == self@.source[self@.start]);
        }
        let c = self.source[self.start];
        if c == 'a' {
            proof {
                lemma_keyword_split(text, "and"@, 1);
                assert(text.subrange(1, text.len() as int) =~= self@.source.subrange(
                    self@.start + 1,
                    self@.current,
                ));
                assert("and"@.subrange(1, 3) =~= "nd"@);
            }
            self.check_keyword(1, 2, "nd", TokenType::And)
        } else if c == 'c' {
            proof {
                lemma_keyword_split(text, "class"@, 1);
                assert(text.subrange(1, text.len() as int) =~= self@.source.subrange(
                    self@.start + 1,
                    self@.current,
                ));
                assert("class"@.subrange(1, 5) =~= "lass"@);
            }
            self.check_keyword(1, 4, "lass", TokenType::Class)
        } else if c == 'e' {
            proof {
                lemma_keyword_split(text, "else"@, 1);
                assert(text.subrange(1, text.len() as int) =~= self@.source.subrange(
                    self@.start + 1,
                    self@.current,
                ));
                assert("else"@.subrange(1, 4) =~= "lse"@);
            }
            self.check_keyword(1, 3, "lse", TokenType::Else)
        } else if c == 'f' {
            if self.current - self.start > 1 {
                proof {
                    assert(text[1] == self@.source[self@.start + 1]);
                }
                let c2 = self.source[self.start + 1];
                if c2 == 'a' {
                    proof {
                        lemma_keyword_split(text, "false"@, 2);
                        assert(text.subrange(2, text.len() as int) =~= self@.source.subrange(
                            self@.start + 2,
                            self@.current,
                        ));
                        assert("false"@.subrange(2, 5) =~= "lse"@);
                    }
                    self.check_keyword(2, 3, "lse", TokenType::False)
                } else if c2 == 'o' {
                    proof {
                        lemma_keyword_split(text, "for"@, 2);
                        assert(text.subrange(2, text.len() as int) =~= self@.source.subrange(
                            self@.start + 2,
                            self@.current,
                        ));
                        assert("for"@.subrange(2, 3) =~= "r"@);
                    }
                    self.check_keyword(2, 1, "r", TokenType::For)
                } else if c2 == 'u' {
                    proof {
                        lemma_keyword_split(text, "fun"@, 2);
                        assert(text.subrange(2, text.len() as int) =~= self@.source.subrange(
                            self@.start + 2,
                            self@.current,
                        ));
                        assert("fun"@.subrange(2, 3) =~= "n"@);
                    }
                    self.check_keyword(2, 1, "n", TokenType::Fun)
                } else {
                    TokenType::Identifier
                }
            } else {
                TokenType::Identifier
            }
        } else if c == 'i' {
            proof {
                lemma_keyword_split(text, "if"@, 1);
                assert(text.subrange(1, text.len() as int) =~= self@.source.subrange(
                    self@.start + 1,
                    self@.current,
                ));
                assert("if"@.subrange(1, 2) =~= "f"@);
            }
            self.check_keyword(1, 1, "f", TokenType::If)
        } else if c == 'n' {
            proof {
                lemma_keyword_split(text, "nil"@, 1);
                assert(text.subrange(1, text.len() as int) =~= self@.source.subrange(
                    self@.start + 1,
                    self@.current,
                ));
                assert("nil"@.subrange(1, 3) =~= "il"@);
            }
            self.check_keyword(1, 2, "il", TokenType::Nil)
        } else if c == 'o' {
            proof {
                lemma_keyword_split(text, "or"@, 1);
                assert(text.subrange(1, text.len() as int) =~= self@.source.subrange(
                    self@.start + 1,
                    self@.current,
                ));
                assert("or"@.subrange(1, 2) =~= "r"@);
            }
            self.check_keyword(1, 1, "r", TokenType::Or)
        } else if c == 'p' {
            proof {
                lemma_keyword_split(text, "print"@, 1);
                assert(text.subrange(1, text.len() as int) =~= self@.source.subrange(
                    self@.start + 1,
                    self@.current,
                ));
                assert("print"@.subrange(1, 5) =~= "rint"@);
            }
            self.check_keyword(1, 4, "rint", TokenType::Print)
        } else if c == 'r' {
            proof {
                lemma_keyword_split(text, "return"@, 1);
                assert(text.subrange(1, text.len() as int) =~= self@.source.subrange(
                    self@.start + 1,
                    self@.current,
                ));
                assert("return"@.subrange(1, 6) =~= "eturn"@);
            }
            self.check_keyword(1, 5, "eturn", TokenType::Return)
        } else if c == 's' {
            proof {
                lemma_keyword_split(text, "super"@, 1);
                assert(text.subrange(1, text.len() as int) =~= self@.source.subrange(
                    self@.start + 1,
                    self@.current,
                ));
                assert("super"@.subrange(1, 5) =~= "uper"@);
            }
            self.check_keyword(1, 4, "uper", TokenType::Super)
        } else if c == 't' {
            if self.current - self.start > 1 {
                proof {
                    assert(text[1] == self@.source[self@.start + 1]);
                }
                let c2 = self.source[self.start + 1];
                if c2 == 'h' {
                    proof {
                        lemma_keyword_split(text, "this"@, 2);
                        assert(text.subrange(2, text.len() as int) =~= self@.source.subrange(
                            self@.start + 2,
                            self@.current,
                        ));
                        assert("this"@.subrange(2, 4) =~= "is"@);
                    }
                    self.check_keyword(2, 2, "is", TokenType::This)
                } else if c2 == 'r' {
                    proof {
                        lemma_keyword_split(text, "true"@, 2);
                        assert(text.subrange(2, text.len() as int) =~= self@.source.subrange(
                            self@.start + 2,
                            self@.current,
                        ));
                        assert("true"@.subrange(2, 4) =~= "ue"@);
                    }
                    self.check_keyword(2, 2, "ue", TokenType::True)
                } else {
                    TokenType::Identifier
                }
            } else {
                TokenType::Identifier
            }
        } else if c == 'v' {
            proof {
                lemma_keyword_split(text, "var"@, 1);
                assert(text.subrange(1, text.len() as int) =~= self@.source.subrange(
                    self@.start + 1,
                    self@.current,
                ));
                assert("var"@.subrange(1, 3) =~= "ar"@);
            }
            self.check_keyword(1, 2, "ar", TokenType::Var)
        } else if c == 'w' {
            proof {
                lemma_keyword_split(text, "while"@, 1);
                assert(text.subrange(1, text.len() as int) =~= self@.source.subrange(
                    self@.start + 1,
                    self@.current,
                ));
                assert("while"@.subrange(1, 5) =~= "hile"@);
            }
            self.check_keyword(1, 4, "hile", TokenType::While)
        } else {
            TokenType::Identifier
        }
    }

    /// Settles a candidate keyword: the reserved kind exactly when the
    /// lexeme's length matches and its remainder from `start` on spells
    /// `rest`, a plain identifier otherwise.
    fn check_keyword(&self, start: usize, length: usize, rest: &str, token_type: TokenType) -> (r:
        TokenType)
        requires
            self.wf(),
            self@.start <= self@.current,
            start + length <= usize::MAX,
        ensures
            r == if self@.current - self@.start == start + length && self@.source.subrange(
                self@.start + start,
                self@.current,
            ) == rest@ {
                token_type
            } else {
                TokenType::Identifier
            },
    {
        if self.current - self.start == start + length {
            if chars_eq_str(&self.source, self.start + start, self.current, rest) {
                return token_type;
            }
        }
        TokenType::Identifier
    }
}

/// Whether `c` is a decimal digit.
fn is_digit_exec(c: char) -> (r: bool)
    ensures
        r == is_digit_char(c),
{
    '0' <= c && c <= '9'
}

/// Whether `c` may continue an identifier.
fn is_ident_continue_exec(c: char) -> (r: bool)
    ensures
        r == is_ident_continue(c),
{
    char_is_alphabetic(c) || is_digit_exec(c) || c == '_'
}

/// Whether `c` may start an identifier.
fn is_ident_start_exec(c: char) -> (r: bool)
    ensures
        r == is_ident_start(c),
{
    ('a' <= c && c <= 'z') || ('A' <= c && c <= 'Z') || c == '_'
}

proof fn lemma_skip_ws_bounds(src: Seq<char>, pos: int, line: int)
    requires
        0 <= pos <= src.len(),
    ensures
        pos <= skip_ws(src, pos, line).0 <= src.len(),
        skip_ws(src, pos, line).1 >= line,
    decreases src.len() - pos,
{
    if pos < src.len() {
        let c = src[pos];
        if c == ' ' || c == '\r' || c == '\t' {
            lemma_skip_ws_bounds(src, pos + 1, line);
        } else if c == '\n' {
            lemma_skip_ws_bounds(src, pos + 1, line + 1);
        } else if c == '/' && pos + 1 < src.len() && src[pos + 1] == '/' {
            lemma_comment_end(src, pos + 2);
            lemma_skip_ws_bounds(src, comment_end(src, pos + 2), line);
        }
    }
}

/// Every scan makes progress: a non-`Eof` token consumes at least one
/// character past where skipping stopped, and `Eof` parks the cursor at
/// the end of the source.
pub proof fn lemma_scan_progress(src: Seq<char>, pos: int, line: int)
    requires
        0 <= pos <= src.len(),
    ensures
        ({
            let sp = scan_spec(src, pos, line);
            &&& pos <= sp.end <= src.len()
            &&& (sp.kind != TokenType::Eof ==> sp.end > skip_ws(src, pos, line).0 >= pos)
            &&& (sp.kind == TokenType::Eof ==> sp.end == src.len())
            &&& sp.line >= line
        }),
{
    lemma_skip_ws_bounds(src, pos, line);
    let p = skip_ws(src, pos, line).0;
    let l = skip_ws(src, pos, line).1;
    if p < src.len() {
        let c = src[p];
        if c == '"' {
            lemma_string_end(src, p + 1);
            lemma_newlines_nonneg(src, p + 1, string_end(src, p + 1));
        } else if is_digit_char(c) {
            lemma_digits_end(src, p + 1);
            let d = digits_end(src, p + 1);
            if d < src.len() && src[d] == '.' {
                lemma_digits_end(src, d + 1);
            }
        } else if is_ident_start(c) {
            lemma_ident_end(src, p + 1);
        }
    }
}

proof fn lemma_newlines_nonneg(src: Seq<char>, from: int, to: int)
    ensures
        newlines_between(src, from, to) >= 0,
    decreases to - from,
{
    if !(to <= from || to < 0 || to > src.len()) {
        lemma_newlines_nonneg(src, from, to - 1);
    }
}

impl Clone for Token {
    fn clone(&self) -> (r: Self)
        ensures
            r.type_ == self.type_,
            r.name@ == self.name@,
            r.line == self.line,
    {
        Token { type_: self.type_, name: self.name.clone(), line: self.line }
    }
}

impl Token {
    /// The placeholder token the parser's lookahead slots start out as.
    pub fn new() -> (t: Self)
        ensures
            t.type_ == TokenType::DefaultConstructed,
            t.name@ == "Default constructed Token"@,
            t.line == 0,
    {
        Token {
            type_: TokenType::DefaultConstructed,
            name: "Default constructed Token".to_owned(),
            line: 0,
        }
    }
}

} // verus!
