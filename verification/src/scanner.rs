use crate::text::push_char;
use crate::token::{Kind, Token, TokenV};
use vstd::prelude::*;
use vstd::string::StrSliceExecFns;

verus! {

/// Whether `c` is an ASCII decimal digit.
pub open spec fn is_digit(c: char) -> bool {
    '0' <= c && c <= '9'
}

/// Whether `c` may start an identifier: an ASCII letter or an underscore.
pub open spec fn is_alpha(c: char) -> bool {
    ('a' <= c && c <= 'z') || ('A' <= c && c <= 'Z') || c == '_'
}

/// Whether `c` may continue an identifier.
pub open spec fn is_alnum(c: char) -> bool {
    is_alpha(c) || is_digit(c)
}

fn digit_char(c: char) -> (r: bool)
    ensures
        r == is_digit(c),
{
    '0' <= c && c <= '9'
}

fn alpha_char(c: char) -> (r: bool)
    ensures
        r == is_alpha(c),
{
    ('a' <= c && c <= 'z') || ('A' <= c && c <= 'Z') || c == '_'
}

fn alnum_char(c: char) -> (r: bool)
    ensures
        r == is_alnum(c),
{
    alpha_char(c) || digit_char(c)
}

/// The position and line after skipping whitespace and `//` comments from
/// position `pos` on line `line`.  While `in_comment` holds, everything up
/// to, but not including, the next newline is skipped; the newline itself is
/// then counted like any other.  The line counter saturates rather than
/// overflowing.
pub open spec fn spec_skip_ws(chars: Seq<char>, pos: int, line: int, in_comment: bool) -> (
    int,
    int,
)
    decreases chars.len() - pos, (if in_comment { 1int } else { 0int }),
{
    if pos < 0 || pos >= chars.len() {
        (pos, line)
    } else if in_comment {
        if chars[pos] == '\n' {
            spec_skip_ws(chars, pos, line, false)
        } else {
            spec_skip_ws(chars, pos + 1, line, true)
        }
    } else {
        let c = chars[pos];
        if c == ' ' || c == '\t' || c == '\r' {
            spec_skip_ws(chars, pos + 1, line, false)
        } else if c == '\n' {
            spec_skip_ws(
                chars,
                pos + 1,
                if line < usize::MAX {
                    line + 1
                } else {
                    line
                },
                false,
            )
        } else if c == '/' && pos + 1 < chars.len() && chars[pos + 1] == '/' {
            spec_skip_ws(chars, pos + 2, line, true)
        } else {
            (pos, line)
        }
    }
}

/// The position of the first `"` at or after `i`, or the length of the
/// source when there is none.
pub open spec fn spec_quote_end(chars: Seq<char>, i: int) -> int
    decreases chars.len() - i,
{
    if i < 0 || i >= chars.len() {
        chars.len() as int
    } else if chars[i] == '"' {
        i
    } else {
        spec_quote_end(chars, i + 1)
    }
}

/// Where the run of identifier characters beginning at `i` ends.
pub open spec fn spec_ident_run(chars: Seq<char>, i: int) -> int
    decreases chars.len() - i,
{
    if i < 0 || i >= chars.len() || !is_alnum(chars[i]) {
        i
    } else {
        spec_ident_run(chars, i + 1)
    }
}

/// An identifier run neither moves backwards nor passes the end.
pub proof fn lemma_ident_run_bounds(chars: Seq<char>, i: int)
    requires
        0 <= i <= chars.len(),
    ensures
        i <= spec_ident_run(chars, i) <= chars.len(),
    decreases chars.len() - i,
{
    if i < chars.len() && is_alnum(chars[i]) {
        lemma_ident_run_bounds(chars, i + 1);
    }
}

/// Where the run of decimal digits beginning at `i` ends.
pub open spec fn spec_digit_run(chars: Seq<char>, i: int) -> int
    decreases chars.len() - i,
{
    if i < 0 || i >= chars.len() || !is_digit(chars[i]) {
        i
    } else {
        spec_digit_run(chars, i + 1)
    }
}

/// A digit run neither moves backwards nor passes the end.
pub proof fn lemma_digit_run_bounds(chars: Seq<char>, i: int)
    requires
        0 <= i <= chars.len(),
    ensures
        i <= spec_digit_run(chars, i) <= chars.len(),
    decreases chars.len() - i,
{
    if i < chars.len() && is_digit(chars[i]) {
        lemma_digit_run_bounds(chars, i + 1);
    }
}

/// The length of the number literal starting at `p`: its integer digits,
/// and a fractional part only when a dot with at least one digit after it
/// follows them.
pub open spec fn spec_number_len(chars: Seq<char>, p: int) -> int {
    let d = spec_digit_run(chars, p + 1);
    if d < chars.len() && chars[d] == '.' && d + 1 < chars.len() && is_digit(chars[d + 1]) {
        spec_digit_run(chars, d + 2) - p
    } else {
        d - p
    }
}

/// The keyword or identifier kind of the word starting at `p`.
pub open spec fn spec_ident_kind(chars: Seq<char>, p: int) -> Kind {
    let l = spec_ident_run(chars, p + 1) - p;
    let w = chars.subrange(p, spec_ident_run(chars, p + 1));
    if chars[p] == 'a' && l == 3 && w == "and"@ {
        Kind::And
    } else if chars[p] == 'c' && l == 5 && w == "class"@ {
        Kind::Class
    } else if chars[p] == 'e' && l == 4 && w == "else"@ {
        Kind::Else
    } else if chars[p] == 'f' && l == 5 && w == "false"@ {
        Kind::False
    } else if chars[p] == 'f' && l == 3 && w == "for"@ {
        Kind::For
    } else if chars[p] == 'f' && l == 3 && w == "fun"@ {
        Kind::Fun
    } else if chars[p] == 'i' && l == 2 && w == "if"@ {
        Kind::If
    } else if chars[p] == 'n' && l == 3 && w == "nil"@ {
        Kind::Nil
    } else if chars[p] == 'o' && l == 2 && w == "or"@ {
        Kind::Or
    } else if chars[p] == 'p' && l == 5 && w == "print"@ {
        Kind::Print
    } else if chars[p] == 'r' && l == 6 && w == "return"@ {
        Kind::Return
    } else if chars[p] == 's' && l == 5 && w == "super"@ {
        Kind::Super
    } else if chars[p] == 't' && l == 4 && w == "this"@ {
        Kind::This
    } else if chars[p] == 't' && l == 4 && w == "true"@ {
        Kind::True
    } else if chars[p] == 'v' && l == 3 && w == "var"@ {
        Kind::Var
    } else if chars[p] == 'w' && l == 5 && w == "while"@ {
        Kind::While
    } else {
        Kind::IdentifierLiteral
    }
}

/// The kind of the token that starts at position `p` of the source, with
/// whitespace already skipped.
pub open spec fn spec_token_kind(chars: Seq<char>, p: int) -> Kind {
    if p < 0 || p >= chars.len() {
        Kind::Eof
    } else {
        let c = chars[p];
        let eq_follows = p + 1 < chars.len() && chars[p + 1] == '=';
        if c == '{' {
            Kind::LeftBrace
        } else if c == '}' {
            Kind::RightBrace
        } else if c == '(' {
            Kind::LeftParen
        } else if c == ')' {
            Kind::RightParen
        } else if c == ',' {
            Kind::Comma
        } else if c == '.' {
            Kind::Dot
        } else if c == '-' {
            Kind::Minus
        } else if c == '+' {
            Kind::Plus
        } else if c == '/' {
            Kind::Slash
        } else if c == '*' {
            Kind::Star
        } else if c == ';' {
            Kind::Semicolon
        } else if c == '!' {
            if eq_follows {
                Kind::BangEqual
            } else {
                Kind::Bang
            }
        } else if c == '=' {
            if eq_follows {
                Kind::EqualEqual
            } else {
                Kind::Equal
            }
        } else if c == '>' {
            if eq_follows {
                Kind::GreaterEqual
            } else {
                Kind::Greater
            }
        } else if c == '<' {
            if eq_follows {
                Kind::LessEqual
            } else {
                Kind::Less
            }
        } else if is_alpha(c) {
            spec_ident_kind(chars, p)
        } else if is_digit(c) {
            Kind::NumberLiteral
        } else if c == '"' {
            if spec_quote_end(chars, p + 1) < chars.len() {
                Kind::StringLiteral
            } else {
                Kind::Error
            }
        } else {
            Kind::Error
        }
    }
}

/// How many characters the token starting at `p` covers.  An unterminated
/// string literal covers the rest of the source.
pub open spec fn spec_token_len(chars: Seq<char>, p: int) -> int {
    if p < 0 || p >= chars.len() {
        0
    } else {
        let c = chars[p];
        let eq_follows = p + 1 < chars.len() && chars[p + 1] == '=';
        if c == '!' || c == '=' || c == '>' || c == '<' {
            if eq_follows {
                2
            } else {
                1
            }
        } else if is_alpha(c) {
            spec_ident_run(chars, p + 1) - p
        } else if is_digit(c) {
            spec_number_len(chars, p)
        } else if c == '"' {
            if spec_quote_end(chars, p + 1) < chars.len() {
                spec_quote_end(chars, p + 1) + 1 - p
            } else {
                chars.len() - p
            }
        } else {
            1
        }
    }
}

/// A quote search neither moves backwards nor passes the end.
pub proof fn lemma_quote_end_bounds(chars: Seq<char>, i: int)
    requires
        0 <= i <= chars.len(),
    ensures
        i <= spec_quote_end(chars, i) <= chars.len(),
    decreases chars.len() - i,
{
    if i < chars.len() && chars[i] != '"' {
        lemma_quote_end_bounds(chars, i + 1);
    }
}

/// A token of the language covers at least one character and never runs
/// past the end of the source.
pub proof fn lemma_token_len_bounds(chars: Seq<char>, p: int)
    requires
        0 <= p < chars.len(),
    ensures
        1 <= spec_token_len(chars, p),
        p + spec_token_len(chars, p) <= chars.len(),
{
    let c = chars[p];
    if is_alpha(c) {
        lemma_ident_run_bounds(chars, p + 1);
    } else if is_digit(c) {
        lemma_digit_run_bounds(chars, p + 1);
        let d = spec_digit_run(chars, p + 1);
        if d < chars.len() && chars[d] == '.' && d + 1 < chars.len() && is_digit(chars[d + 1]) {
            lemma_digit_run_bounds(chars, d + 2);
        }
    } else if c == '"' {
        lemma_quote_end_bounds(chars, p + 1);
    }
}

/// Skipping whitespace neither moves backwards nor passes the end, and the
/// line counter never shrinks.
pub proof fn lemma_skip_ws_bounds(chars: Seq<char>, pos: int, line: int, in_comment: bool)
    requires
        0 <= pos <= chars.len(),
    ensures
        pos <= spec_skip_ws(chars, pos, line, in_comment).0 <= chars.len(),
        line <= spec_skip_ws(chars, pos, line, in_comment).1,
    decreases chars.len() - pos, (if in_comment { 1int } else { 0int }),
{
    if pos < chars.len() {
        if in_comment {
            if chars[pos] == '\n' {
                lemma_skip_ws_bounds(chars, pos, line, false);
            } else {
                lemma_skip_ws_bounds(chars, pos + 1, line, true);
            }
        } else {
            let c = chars[pos];
            if c == ' ' || c == '\t' || c == '\r' {
                lemma_skip_ws_bounds(chars, pos + 1, line, false);
            } else if c == '\n' {
                lemma_skip_ws_bounds(
                    chars,
                    pos + 1,
                    if line < usize::MAX {
                        line + 1
                    } else {
                        line
                    },
                    false,
                );
            } else if c == '/' && pos + 1 < chars.len() && chars[pos + 1] == '/' {
                lemma_skip_ws_bounds(chars, pos + 2, line, true);
            }
        }
    }
}

/// Turns source text into a stream of tokens, one call to [`Scanner::next`]
/// at a time.  After the input is exhausted it returns `Eof` tokens forever.
pub struct Scanner {
    characters: Vec<char>,
    line: usize,
    index: usize,
}

impl Scanner {
    /// The characters of the source.
    pub closed spec fn chars(&self) -> Seq<char> {
        self.characters@
    }

    /// How many characters have been consumed.
    pub closed spec fn pos(&self) -> int {
        self.index as int
    }

    /// The current 1-based line counter.
    pub closed spec fn cur_line(&self) -> int {
        self.line as int
    }

    /// The position never passes the end of the source and the line counter
    /// starts at one.
    pub closed spec fn wf(&self) -> bool {
        self.index <= self.characters@.len() && self.line >= 1
    }

    /// A fresh scanner over `source`, positioned at its start, on line 1.
    pub fn new(source: String) -> (s: Self)
        ensures
            s.wf(),
            s.chars() == source@,
            s.pos() == 0,
            s.cur_line() == 1,
    {
        let n: usize = source.as_str().unicode_len();
        let mut characters: Vec<char> = Vec::new();
        let mut i: usize = 0;
        while i < n
            invariant
                i <= n,
                n == source@.len(),
                characters@ == source@.subrange(0, i as int),
            decreases n - i,
        {
            characters.push(source.as_str().get_char(i));
            proof {
                assert(source@.subrange(0, (i + 1) as int) =~= source@.subrange(0, i as int).push(
                    source@[i as int],
                ));
            }
            i = i + 1;
        }
        proof {
            assert(source@.subrange(0, n as int) =~= source@);
        }
        Scanner { characters, line: 1, index: 0 }
    }

    /// The character `count` places past the scanner's position, if there is
    /// one.
    pub fn peek(&self, count: usize) -> (r: Option<char>)
        ensures
            match r {
                Some(c) => self.pos() + count < self.chars().len() && c == self.chars()[self.pos()
                    + count],
                None => self.pos() + count >= self.chars().len(),
            },
    {
        if self.index < self.characters.len() && count < self.characters.len() - self.index {
            Some(self.characters[self.index + count])
        } else {
            None
        }
    }

    fn peek_is(&self, count: usize, c: char) -> (r: bool)
        ensures
            r == (self.pos() + count < self.chars().len() && self.chars()[self.pos() + count] == c),
    {
        match self.peek(count) {
            Some(x) => x == c,
            None => false,
        }
    }

    /// Consumes one character and returns it; at the end of the source it
    /// consumes nothing and returns `None`.
    pub fn advance(&mut self) -> (r: Option<char>)
        ensures
            final(self).chars() == old(self).chars(),
            final(self).cur_line() == old(self).cur_line(),
            old(self).pos() < old(self).chars().len() ==> r == Some(
                old(self).chars()[old(self).pos()],
            ) && final(self).pos() == old(self).pos() + 1,
            old(self).pos() >= old(self).chars().len() ==> r is None && final(self).pos() == old(
                self,
            ).pos(),
            old(self).wf() ==> final(self).wf(),
    {
        if self.index < self.characters.len() {
            let c = self.characters[self.index];
            self.index = self.index + 1;
            Some(c)
        } else {
            None
        }
    }

    /// Skips spaces, tabs, carriage returns, newlines and `//` comments,
    /// counting each newline that passes.
    pub fn consume_whitespaces(&mut self)
        requires
            old(self).wf(),
        ensures
            final(self).wf(),
            final(self).chars() == old(self).chars(),
            final(self).pos() >= old(self).pos(),
            final(self).cur_line() >= old(self).cur_line(),
            (final(self).pos(), final(self).cur_line()) == spec_skip_ws(
                old(self).chars(),
                old(self).pos(),
                old(self).cur_line(),
                false,
            ),
    {
        let ghost target = spec_skip_ws(old(self).chars(), old(self).pos(), old(self).cur_line(), false);
        loop
            invariant
                self.wf(),
                self.chars() == old(self).chars(),
                self.pos() >= old(self).pos(),
                self.cur_line() >= old(self).cur_line(),
                target == spec_skip_ws(old(self).chars(), old(self).pos(), old(self).cur_line(), false),
                target == spec_skip_ws(self.chars(), self.pos(), self.cur_line(), false),
            decreases self.chars().len() - self.pos(),
        {
            match self.peek(0) {
                Some(c) => {
                    if c == ' ' || c == '\t' || c == '\r' {
                        self.advance();
                    } else if c == '\n' {
                        self.advance();
                        if self.line < usize::MAX {
                            self.line = self.line + 1;
                        }
                    } else if c == '/' && self.peek_is(1, '/') {
                        // consume up to, not including, the newline, so that
                        // the newline is counted on the next pass
                        let ghost p0 = self.pos();
                        self.advance();
                        self.advance();
                        loop
                            invariant
                                self.wf(),
                                self.chars() == old(self).chars(),
                                self.pos() >= old(self).pos(),
                                self.pos() > p0,
                                self.cur_line() >= old(self).cur_line(),
                                target == spec_skip_ws(self.chars(), self.pos(), self.cur_line(), true),
                            ensures
                                self.wf(),
                                self.chars() == old(self).chars(),
                                self.pos() >= old(self).pos(),
                                self.pos() > p0,
                                self.cur_line() >= old(self).cur_line(),
                                target == spec_skip_ws(self.chars(), self.pos(), self.cur_line(), true),
                                self.pos() >= self.chars().len() || self.chars()[self.pos()]
                                    == '\n',
                            decreases self.chars().len() - self.pos(),
                        {
                            match self.peek(0) {
                                Some(d) => {
                                    if d == '\n' {
                                        break ;
                                    }
                                    self.advance();
                                },
                                None => {
                                    break ;
                                },
                            }
                        }
                    } else {
                        return ;
                    }
                },
                None => {
                    return ;
                },
            }
        }
    }

    /// Consumes up to `count` characters and returns them as a string; at the
    /// end of the source it stops short.
    fn read_front(&mut self, count: usize) -> (s: String)
        requires
            old(self).wf(),
        ensures
            final(self).wf(),
            final(self).chars() == old(self).chars(),
            final(self).cur_line() == old(self).cur_line(),
            final(self).pos() == if old(self).pos() + count <= old(self).chars().len() {
                old(self).pos() + count
            } else {
                old(self).chars().len() as int
            },
            s@ == old(self).chars().subrange(old(self).pos(), final(self).pos()),
    {
        let mut string = String::new();
        let mut k: usize = 0;
        proof {
            assert(string@ =~= old(self).chars().subrange(old(self).pos(), self.pos()));
        }
        while k < count
            invariant
                self.wf(),
                k <= count,
                self.chars() == old(self).chars(),
                self.cur_line() == old(self).cur_line(),
                self.pos() == if old(self).pos() + k <= old(self).chars().len() {
                    old(self).pos() + k
                } else {
                    old(self).chars().len() as int
                },
                string@ == old(self).chars().subrange(old(self).pos(), self.pos()),
            decreases count - k,
        {
            let ghost prev = self.pos();
            if let Some(ch) = self.advance() {
                push_char(&mut string, ch);
                proof {
                    assert(old(self).chars().subrange(old(self).pos(), prev + 1) =~= old(
                        self,
                    ).chars().subrange(old(self).pos(), prev).push(old(self).chars()[prev]));
                }
            }
            k = k + 1;
        }
        string
    }

    /// Builds a token of the given kind from the next `count` characters and
    /// consumes them.
    fn make_token(&mut self, kind: Kind, count: usize) -> (t: Token)
        requires
            old(self).wf(),
        ensures
            final(self).wf(),
            final(self).chars() == old(self).chars(),
            final(self).cur_line() == old(self).cur_line(),
            final(self).pos() == if old(self).pos() + count <= old(self).chars().len() {
                old(self).pos() + count
            } else {
                old(self).chars().len() as int
            },
            t.kind == kind,
            t.line == old(self).cur_line(),
            t.index_in_source == old(self).pos(),
            t.string@ == old(self).chars().subrange(old(self).pos(), final(self).pos()),
    {
        let line = self.line;
        let index_in_source = self.index;
        let string = self.read_front(count);
        Token { kind, line, index_in_source, string }
    }

    /// Whether the unconsumed input starts with `prefix`.
    fn starts_with(&self, prefix: &str) -> (r: bool)
        requires
            self.wf(),
        ensures
            r == (self.pos() + prefix@.len() <= self.chars().len() && self.chars().subrange(
                self.pos(),
                self.pos() + prefix@.len(),
            ) == prefix@),
    {
        let n: usize = prefix.unicode_len();
        let mut i: usize = 0;
        while i < n
            invariant
                i <= n,
                n == prefix@.len(),
                self.wf(),
                self.pos() + i <= self.chars().len(),
                forall|j: int|
                    0 <= j < i ==> self.chars()[self.pos() + j] == #[trigger] prefix@[j],
            decreases n - i,
        {
            match self.peek(i) {
                Some(c) => {
                    if c != prefix.get_char(i) {
                        proof {
                            if self.pos() + prefix@.len() <= self.chars().len() {
                                let sub = self.chars().subrange(
                                    self.pos(),
                                    self.pos() + prefix@.len(),
                                );
                                assert(sub[i as int] == self.chars()[self.pos() + i]);
                            }
                        }
                        return false;
                    }
                },
                None => {
                    return false;
                },
            }
            i = i + 1;
        }
        proof {
            assert(self.chars().subrange(self.pos(), self.pos() + prefix@.len()) =~= prefix@);
        }
        true
    }

    /// Scans a double-quoted string literal, quotes included; an unterminated
    /// literal gives an `Error` token holding the rest of the input.
    fn string_literal(&mut self) -> (t: Token)
        requires
            old(self).wf(),
            old(self).pos() < old(self).chars().len(),
        ensures
            final(self).wf(),
            final(self).chars() == old(self).chars(),
            final(self).cur_line() == old(self).cur_line(),
            final(self).pos() > old(self).pos(),
            t.kind == (if spec_quote_end(old(self).chars(), old(self).pos() + 1) < old(
                self,
            ).chars().len() {
                Kind::StringLiteral
            } else {
                Kind::Error
            }),
            t.kind == Kind::StringLiteral ==> t.string@.len() >= 2,
            t.index_in_source == old(self).pos(),
            t.line == old(self).cur_line(),
            t.string@ == old(self).chars().subrange(old(self).pos(), final(self).pos()),
            t.line >= 1,
            final(self).pos() == (if spec_quote_end(old(self).chars(), old(self).pos() + 1) < old(
                self,
            ).chars().len() {
                spec_quote_end(old(self).chars(), old(self).pos() + 1) + 1
            } else {
                old(self).chars().len() as int
            }),
    {
        let mut len: usize = 1;
        loop
            invariant
                self.wf(),
                self == old(self),
                1 <= len,
                self.pos() + len <= self.chars().len(),
                spec_quote_end(self.chars(), self.pos() + 1) == spec_quote_end(
                    self.chars(),
                    self.pos() + len,
                ),
            decreases self.chars().len() - self.pos() - len,
        {
            let limit = self.characters.len();
            match self.peek(len) {
                Some(c) => {
                    proof {
                        assert(self.pos() + len < limit);
                    }
                    if c == '"' {
                        proof {
                            assert(spec_quote_end(self.chars(), self.pos() + len) == self.pos()
                                + len);
                        }
                        return self.make_token(Kind::StringLiteral, len + 1);
                    }
                    len = len + 1;
                },
                None => {
                    proof {
                        assert(spec_quote_end(self.chars(), self.pos() + len)
                            == self.chars().len());
                    }
                    return self.make_token(Kind::Error, len);
                },
            }
        }
    }

    /// Scans a number literal: digits, optionally a dot followed by at least
    /// one digit and then more digits.
    fn number_literal(&mut self) -> (t: Token)
        requires
            old(self).wf(),
            old(self).pos() < old(self).chars().len(),
        ensures
            final(self).wf(),
            final(self).chars() == old(self).chars(),
            final(self).cur_line() == old(self).cur_line(),
            final(self).pos() > old(self).pos(),
            t.kind == Kind::NumberLiteral,
            t.string@.len() >= 1,
            t.index_in_source == old(self).pos(),
            t.line == old(self).cur_line(),
            t.string@ == old(self).chars().subrange(old(self).pos(), final(self).pos()),
            t.line >= 1,
            final(self).pos() == old(self).pos() + spec_number_len(old(self).chars(), old(self).pos()),
    {
        let mut len: usize = 1;
        loop
            invariant
                self.wf(),
                self == old(self),
                1 <= len,
                self.pos() + len <= self.chars().len(),
                spec_digit_run(self.chars(), self.pos() + 1) == spec_digit_run(
                    self.chars(),
                    self.pos() + len,
                ),
            ensures
                self.wf(),
                self == old(self),
                1 <= len,
                self.pos() + len <= self.chars().len(),
                spec_digit_run(self.chars(), self.pos() + 1) == self.pos() + len,
            decreases self.chars().len() - self.pos() - len,
        {
            let limit = self.characters.len();
            match self.peek(len) {
                Some(ch) => {
                    proof {
                        assert(self.pos() + len < limit);
                    }
                    if digit_char(ch) {
                        len = len + 1;
                    } else {
                        proof {
                            assert(spec_digit_run(self.chars(), self.pos() + len) == self.pos()
                                + len);
                        }
                        break ;
                    }
                },
                None => {
                    proof {
                        assert(spec_digit_run(self.chars(), self.pos() + len) == self.pos() + len);
                    }
                    break ;
                },
            }
        }
        let limit = self.characters.len();
        if self.peek_is(len, '.') {
            let frac = match self.peek(len + 1) {
                Some(d) => digit_char(d),
                None => false,
            };
            if frac {
                proof {
                    assert(self.pos() + len + 1 < limit);
                }
                len = len + 2;
                loop
                    invariant
                        self.wf(),
                        self == old(self),
                        1 <= len,
                        self.pos() + len <= self.chars().len(),
                        spec_number_len(self.chars(), self.pos()) == spec_digit_run(
                            self.chars(),
                            self.pos() + len,
                        ) - self.pos(),
                    ensures
                        self.wf(),
                        self == old(self),
                        1 <= len,
                        self.pos() + len <= self.chars().len(),
                        spec_number_len(self.chars(), self.pos()) == len,
                    decreases self.chars().len() - self.pos() - len,
                {
                    let inner_limit = self.characters.len();
                    match self.peek(len) {
                        Some(ch) => {
                            proof {
                                assert(self.pos() + len < inner_limit);
                            }
                            if digit_char(ch) {
                                len = len + 1;
                            } else {
                                proof {
                                    assert(spec_digit_run(self.chars(), self.pos() + len)
                                        == self.pos() + len);
                                }
                                break ;
                            }
                        },
                        None => {
                            proof {
                                assert(spec_digit_run(self.chars(), self.pos() + len) == self.pos()
                                    + len);
                            }
                            break ;
                        },
                    }
                }
            } else {
                proof {
                    assert(spec_number_len(self.chars(), self.pos()) == len);
                }
            }
        } else {
            proof {
                assert(spec_number_len(self.chars(), self.pos()) == len);
            }
        }
        self.make_token(Kind::NumberLiteral, len)
    }

    /// Scans an identifier or keyword.
    #[allow(non_snake_case)]
    fn indentifier_literal(&mut self) -> (t: Token)
        requires
            old(self).wf(),
            old(self).pos() < old(self).chars().len(),
            is_alpha(old(self).chars()[old(self).pos()]),
        ensures
            final(self).wf(),
            final(self).chars() == old(self).chars(),
            final(self).cur_line() == old(self).cur_line(),
            final(self).pos() > old(self).pos(),
            t.kind == spec_ident_kind(old(self).chars(), old(self).pos()),
            t.kind != Kind::Eof && t.kind != Kind::Error,
            t.string@.len() >= 1,
            t.index_in_source == old(self).pos(),
            t.line == old(self).cur_line(),
            t.string@ == old(self).chars().subrange(old(self).pos(), final(self).pos()),
            t.line >= 1,
            final(self).pos() == spec_ident_run(old(self).chars(), old(self).pos() + 1),
    {
        let mut length: usize = 1;
        loop
            invariant
                self.wf(),
                self == old(self),
                1 <= length,
                self.pos() + length <= self.chars().len(),
                spec_ident_run(self.chars(), self.pos() + 1) == spec_ident_run(
                    self.chars(),
                    self.pos() + length,
                ),
            ensures
                self.wf(),
                self == old(self),
                1 <= length,
                self.pos() + length <= self.chars().len(),
                spec_ident_run(self.chars(), self.pos() + 1) == self.pos() + length,
            decreases self.chars().len() - self.pos() - length,
        {
            let limit = self.characters.len();
            match self.peek(length) {
                Some(ch) => {
                    proof {
                        assert(self.pos() + length < limit);
                    }
                    if alnum_char(ch) {
                        length = length + 1;
                    } else {
                        proof {
                            assert(spec_ident_run(self.chars(), self.pos() + length) == self.pos()
                                + length);
                        }
                        break ;
                    }
                },
                None => {
                    proof {
                        assert(spec_ident_run(self.chars(), self.pos() + length) == self.pos()
                            + length);
                    }
                    break ;
                },
            }
        }
        let first = match self.peek(0) {
            Some(c) => c,
            None => ' ',
        };
        proof {
            reveal_strlit("and");
            reveal_strlit("class");
            reveal_strlit("else");
            reveal_strlit("false");
            reveal_strlit("for");
            reveal_strlit("fun");
            reveal_strlit("if");
            reveal_strlit("nil");
            reveal_strlit("or");
            reveal_strlit("print");
            reveal_strlit("return");
            reveal_strlit("super");
            reveal_strlit("this");
            reveal_strlit("true");
            reveal_strlit("var");
            reveal_strlit("while");
            lemma_ident_run_bounds(self.chars(), self.pos() + 1);
        }
        let kind = if first == 'a' && length == 3 && self.starts_with("and") {
            Kind::And
        } else if first == 'c' && length == 5 && self.starts_with("class") {
            Kind::Class
        } else if first == 'e' && length == 4 && self.starts_with("else") {
            Kind::Else
        } else if first == 'f' && length == 5 && self.starts_with("false") {
            Kind::False
        } else if first == 'f' && length == 3 && self.starts_with("for") {
            Kind::For
        } else if first == 'f' && length == 3 && self.starts_with("fun") {
            Kind::Fun
        } else if first == 'i' && length == 2 && self.starts_with("if") {
            Kind::If
        } else if first == 'n' && length == 3 && self.starts_with("nil") {
            Kind::Nil
        } else if first == 'o' && length == 2 && self.starts_with("or") {
            Kind::Or
        } else if first == 'p' && length == 5 && self.starts_with("print") {
            Kind::Print
        } else if first == 'r' && length == 6 && self.starts_with("return") {
            Kind::Return
        } else if first == 's' && length == 5 && self.starts_with("super") {
            Kind::Super
        } else if first == 't' && length == 4 && self.starts_with("this") {
            Kind::This
        } else if first == 't' && length == 4 && self.starts_with("true") {
            Kind::True
        } else if first == 'v' && length == 3 && self.starts_with("var") {
            Kind::Var
        } else if first == 'w' && length == 5 && self.starts_with("while") {
            Kind::While
        } else {
            Kind::IdentifierLiteral
        };
        self.make_token(kind, length)
    }

    /// Scans and returns the next token.  Whitespace and comments are
    /// skipped first; the token begins at the position that leaves, carries
    /// the line counted up to there, has exactly the kind the language gives
    /// the text at that position, and holds the consumed text.  At the end
    /// of the input the token is `Eof`, and stays `Eof` on every later call.
    pub fn next(&mut self) -> (t: Token)
        requires
            old(self).wf(),
        ensures
            final(self).wf(),
            final(self).chars() == old(self).chars(),
            final(self).pos() >= old(self).pos(),
            t.kind != Kind::Eof ==> final(self).pos() > old(self).pos(),
            t.kind == Kind::Eof ==> t.string@.len() == 0,
            ({
                let skipped = spec_skip_ws(
                    old(self).chars(),
                    old(self).pos(),
                    old(self).cur_line(),
                    false,
                );
                &&& t.kind == spec_token_kind(old(self).chars(), skipped.0)
                &&& t.index_in_source == skipped.0
                &&& t.line == skipped.1
                &&& t.line == final(self).cur_line()
                &&& t.string@ == old(self).chars().subrange(skipped.0, final(self).pos())
                &&& final(self).pos() == skipped.0 + spec_token_len(old(self).chars(), skipped.0)
            }),
            t.line >= 1,
    {
        self.consume_whitespaces();
        match self.peek(0) {
            Some(c) => {
                if c == '{' {
                    self.make_token(Kind::LeftBrace, 1)
                } else if c == '}' {
                    self.make_token(Kind::RightBrace, 1)
                } else if c == '(' {
                    self.make_token(Kind::LeftParen, 1)
                } else if c == ')' {
                    self.make_token(Kind::RightParen, 1)
                } else if c == ',' {
                    self.make_token(Kind::Comma, 1)
                } else if c == '.' {
                    self.make_token(Kind::Dot, 1)
                } else if c == '-' {
                    self.make_token(Kind::Minus, 1)
                } else if c == '+' {
                    self.make_token(Kind::Plus, 1)
                } else if c == '/' {
                    self.make_token(Kind::Slash, 1)
                } else if c == '*' {
                    self.make_token(Kind::Star, 1)
                } else if c == ';' {
                    self.make_token(Kind::Semicolon, 1)
                } else if c == '!' {
                    if self.peek_is(1, '=') {
                        self.make_token(Kind::BangEqual, 2)
                    } else {
                        self.make_token(Kind::Bang, 1)
                    }
                } else if c == '=' {
                    if self.peek_is(1, '=') {
                        self.make_token(Kind::EqualEqual, 2)
                    } else {
                        self.make_token(Kind::Equal, 1)
                    }
                } else if c == '>' {
                    if self.peek_is(1, '=') {
                        self.make_token(Kind::GreaterEqual, 2)
                    } else {
                        self.make_token(Kind::Greater, 1)
                    }
                } else if c == '<' {
                    if self.peek_is(1, '=') {
                        self.make_token(Kind::LessEqual, 2)
                    } else {
                        self.make_token(Kind::Less, 1)
                    }
                } else if alpha_char(c) {
                    self.indentifier_literal()
                } else if digit_char(c) {
                    self.number_literal()
                } else if c == '"' {
                    self.string_literal()
                } else {
                    self.make_token(Kind::Error, 1)
                }
            },
            None => self.make_token(Kind::Eof, 0),
        }
    }
}

/// Scans the whole source: every token through the first `Eof`, in order.
/// Only the last token of the result is `Eof`.
/// The token views of a scanned sequence.
pub open spec fn token_views(s: Seq<Token>) -> Seq<TokenV> {
    s.map_values(|t: Token| t@)
}

/// Every token of the source from position `pos` on line `line`, through
/// the first `Eof`: whitespace is skipped, the token at the position that
/// leaves is taken, and scanning goes on after it.
pub open spec fn spec_tokens_from(chars: Seq<char>, pos: int, line: int) -> Seq<TokenV>
    decreases chars.len() - pos,
{
    let skipped = spec_skip_ws(chars, pos, line, false);
    let p = skipped.0;
    let l = skipped.1;
    let k = spec_token_kind(chars, p);
    let tlen = spec_token_len(chars, p);
    let tok = TokenV { kind: k, line: l, index_in_source: p, string: chars.subrange(p, p + tlen) };
    if k == Kind::Eof {
        seq![tok]
    } else if pos <= p && 1 <= tlen && p + tlen <= chars.len() {
        seq![tok] + spec_tokens_from(chars, p + tlen, l)
    } else {
        seq![tok]
    }
}

/// Scans the whole source: exactly the tokens of [`spec_tokens_from`], in
/// order, through the first `Eof`.  Only the last token of the result is
/// `Eof`.
pub fn scan_tokens(source: String) -> (tokens: Vec<Token>)
    ensures
        tokens@.len() >= 1,
        tokens@.last().kind == Kind::Eof,
        forall|i: int| 0 <= i < tokens@.len() - 1 ==> (#[trigger] tokens@[i].kind) != Kind::Eof,
        forall|i: int| 0 <= i < tokens@.len() ==> (#[trigger] tokens@[i].line) >= 1,
        token_views(tokens@) == spec_tokens_from(source@, 0, 1),
{
    let mut scanner = Scanner::new(source);
    let mut tokens: Vec<Token> = Vec::new();
    let ghost chars = scanner.chars();
    let ghost full = spec_tokens_from(chars, 0, 1);
    proof {
        assert(token_views(tokens@) =~= Seq::<TokenV>::empty());
        assert(Seq::<TokenV>::empty() + full =~= full);
    }
    loop
        invariant_except_break
            scanner.wf(),
            scanner.chars() == chars,
            scanner.cur_line() >= 1,
            0 <= scanner.pos() <= chars.len(),
            full == spec_tokens_from(chars, 0, 1),
            full == token_views(tokens@) + spec_tokens_from(
                chars,
                scanner.pos(),
                scanner.cur_line(),
            ),
            forall|i: int| 0 <= i < tokens@.len() ==> (#[trigger] tokens@[i].kind) != Kind::Eof,
            forall|i: int| 0 <= i < tokens@.len() ==> (#[trigger] tokens@[i].line) >= 1,
        ensures
            tokens@.len() >= 1,
            tokens@.last().kind == Kind::Eof,
            forall|i: int| 0 <= i < tokens@.len() - 1 ==> (#[trigger] tokens@[i].kind) != Kind::Eof,
            forall|i: int| 0 <= i < tokens@.len() ==> (#[trigger] tokens@[i].line) >= 1,
            token_views(tokens@) == full,
        decreases chars.len() - scanner.pos() + 1,
    {
        let ghost pos0 = scanner.pos();
        let ghost line0 = scanner.cur_line();
        let ghost skipped = spec_skip_ws(chars, pos0, line0, false);
        let ghost before = tokens@;
        let t = scanner.next();
        let k = t.kind;
        proof {
            lemma_skip_ws_bounds(chars, pos0, line0, false);
            if k != Kind::Eof {
                lemma_token_len_bounds(chars, skipped.0);
            }
            assert(t@ == (TokenV {
                kind: spec_token_kind(chars, skipped.0),
                line: skipped.1,
                index_in_source: skipped.0,
                string: chars.subrange(
                    skipped.0,
                    skipped.0 + spec_token_len(chars, skipped.0),
                ),
            }));
            assert(token_views(before.push(t)) =~= token_views(before).push(t@));
        }
        tokens.push(t);
        proof {
            if k == Kind::Eof {
                assert(spec_tokens_from(chars, pos0, line0) =~= seq![t@]);
                assert(token_views(before) + seq![t@] =~= token_views(tokens@));
            } else {
                assert(spec_tokens_from(chars, pos0, line0) =~= seq![t@] + spec_tokens_from(
                    chars,
                    skipped.0 + spec_token_len(chars, skipped.0),
                    skipped.1,
                ));
                assert(token_views(before) + (seq![t@] + spec_tokens_from(
                    chars,
                    skipped.0 + spec_token_len(chars, skipped.0),
                    skipped.1,
                )) =~= token_views(tokens@) + spec_tokens_from(
                    chars,
                    skipped.0 + spec_token_len(chars, skipped.0),
                    skipped.1,
                ));
            }
        }
        if k == Kind::Eof {
            break ;
        }
    }
    tokens
}

} // verus!
