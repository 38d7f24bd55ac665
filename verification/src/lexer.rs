use vstd::prelude::*;
use crate::chars::{byte_pos, char_is_alphabetic, char_is_alphanumeric, char_is_ascii_digit, char_len_utf8, is_ascii_digit, lemma_byte_pos_bounds, lemma_byte_pos_monotone, str_chars, string_from_chars, unicode_alphabetic, unicode_alphanumeric, utf8_len};
use crate::numlit::{all_digits, digits_value, float_text_is_valid, is_exp_marker, parse_decimal_i64, valid_float_text, valid_mantissa, without_underscores};
use crate::token::{Span, Token, TokenKind};

verus! {

#[derive(Debug, Clone, PartialEq)]
pub struct LexerError {
    pub message: String,
    pub span: Span,
}

/// Turns source text into tokens, producing `Indent`/`Dedent` from leading
/// whitespace and `Newline` at the end of each logical line.
pub struct Lexer {
    chars: Vec<char>,
    offsets: Vec<usize>,
    source_len: usize,
    cursor: usize,
    line: usize,
    column: usize,
    indent_stack: Vec<usize>,
    open_brackets: usize,
    at_line_start: bool,
    pending_dedents: usize,
}

/// The stack of indentation widths: it starts at 0 and strictly increases,
/// each width at most four per character of the source.
pub open spec fn indent_stack_ok(s: Seq<usize>, n: nat) -> bool {
    &&& s.len() >= 1
    &&& s[0] == 0
    &&& forall|i: int, j: int| #![trigger s[i], s[j]] 0 <= i < j < s.len() ==> s[i] < s[j]
    &&& forall|i: int| 0 <= i < s.len() ==> #[trigger] s[i] <= 4 * n
}

/// How a token moves the block depth: `Indent` opens a level, `Dedent`
/// closes one, and every other token leaves the depth as it is.
pub open spec fn depth_step(k: TokenKind) -> int {
    match k {
        TokenKind::Indent => 1,
        TokenKind::Dedent => -1,
        _ => 0,
    }
}

/// The block depth reached after a run of tokens, counting from zero.
pub open spec fn block_depth(toks: Seq<Token>) -> int
    decreases toks.len(),
{
    if toks.len() == 0 {
        0
    } else {
        block_depth(toks.drop_last()) + depth_step(toks.last().kind)
    }
}

/// Whether a character is blank inside a line: a space, a tab or a
/// carriage return.
pub open spec fn is_blank(c: char) -> bool {
    c == ' ' || c == '\t' || c == '\r'
}

/// The first index at or after `i` that is not blank.
pub open spec fn skip_blanks(s: Seq<char>, i: int) -> int
    decreases s.len() - i,
{
    if 0 <= i < s.len() && is_blank(s[i]) {
        skip_blanks(s, i + 1)
    } else {
        i
    }
}

/// The first line break at or after `i`, or the end of the text.
pub open spec fn skip_comment(s: Seq<char>, i: int) -> int
    decreases s.len() - i,
{
    if 0 <= i < s.len() && s[i] != '\n' {
        skip_comment(s, i + 1)
    } else {
        i
    }
}

/// Where the next token starts when reading from `i` inside a line: after
/// blanks and a `#` comment.
pub open spec fn token_start(s: Seq<char>, i: int) -> int {
    let j = skip_blanks(s, i);
    if 0 <= j < s.len() && s[j] == '#' {
        skip_comment(s, j)
    } else {
        j
    }
}

/// Whether the character at `k` starts no token: no line break, operator,
/// quote, digit, `_` or letter.
pub open spec fn starts_nothing(s: Seq<char>, k: int) -> bool {
    &&& s[k] != '\n'
    &&& operator_at(s, k).1 == 0
    &&& s[k] != '"'
    &&& s[k] != '\''
    &&& !is_ascii_digit(s[k])
    &&& s[k] != '_'
    &&& !unicode_alphabetic(s[k])
}

/// Whether the letter at `k` is the `r` or `f` prefix of a string literal.
pub open spec fn prefixed_string_at(s: Seq<char>, k: int) -> bool {
    &&& s[k] == 'r' || s[k] == 'f'
    &&& k + 1 < s.len()
    &&& s[k + 1] == '"' || s[k + 1] == '\''
}

/// The bracket depth after a token that starts with `c`: an opening
/// bracket opens one, a closing bracket closes one (never below zero).
pub open spec fn new_depth(c: char, d: nat) -> nat {
    if c == '(' || c == '[' || c == '{' {
        d + 1
    } else if c == ')' || c == ']' || c == '}' {
        if d > 0 {
            (d - 1) as nat
        } else {
            0
        }
    } else {
        d
    }
}

/// The first index at or after `j` that does not continue an identifier.
pub open spec fn ident_end(s: Seq<char>, j: int) -> int
    decreases s.len() - j,
{
    if 0 <= j < s.len() && ident_continues(s[j]) {
        ident_end(s, j + 1)
    } else {
        j
    }
}

/// A maximal run of identifier characters ends where `ident_end` says.
pub proof fn lemma_ident_end(s: Seq<char>, a: int, p: int)
    requires
        0 <= a <= p <= s.len(),
        forall|j: int| a <= j < p ==> ident_continues(#[trigger] s[j]),
        p < s.len() ==> !ident_continues(s[p]),
    ensures
        ident_end(s, a) == p,
    decreases p - a,
{
    if a < p {
        lemma_ident_end(s, a + 1, p);
    }
}

/// `ident_end` never goes back.
pub proof fn lemma_ident_end_ge(s: Seq<char>, j: int)
    requires
        0 <= j,
    ensures
        ident_end(s, j) >= j,
        j <= s.len() ==> ident_end(s, j) <= s.len(),
    decreases s.len() - j,
{
    if 0 <= j < s.len() && ident_continues(s[j]) {
        lemma_ident_end_ge(s, j + 1);
    }
}

/// Skipping blanks and a comment never goes back.
pub proof fn lemma_token_start_ge(s: Seq<char>, i: int)
    requires
        0 <= i,
    ensures
        token_start(s, i) >= i,
{
    lemma_skip_blanks_ge(s, i);
    let j = skip_blanks(s, i);
    if 0 <= j < s.len() && s[j] == '#' {
        lemma_skip_comment_ge(s, j);
    }
}

proof fn lemma_skip_blanks_ge(s: Seq<char>, i: int)
    requires
        0 <= i,
    ensures
        skip_blanks(s, i) >= i,
    decreases s.len() - i,
{
    if 0 <= i < s.len() && is_blank(s[i]) {
        lemma_skip_blanks_ge(s, i + 1);
    }
}

proof fn lemma_skip_comment_ge(s: Seq<char>, i: int)
    requires
        0 <= i,
    ensures
        skip_comment(s, i) >= i,
    decreases s.len() - i,
{
    if 0 <= i < s.len() && s[i] != '\n' {
        lemma_skip_comment_ge(s, i + 1);
    }
}

/// The end of the indentation (spaces and tabs) that starts at `i`.
pub open spec fn indent_end(s: Seq<char>, i: int) -> int
    decreases s.len() - i,
{
    if 0 <= i < s.len() && (s[i] == ' ' || s[i] == '\t') {
        indent_end(s, i + 1)
    } else {
        i
    }
}

/// The width of the indentation from `i` to `j`: a space counts one, a tab
/// four.
pub open spec fn indent_width(s: Seq<char>, i: int, j: int) -> nat
    decreases j - i,
{
    if j <= i {
        0
    } else {
        indent_width(s, i, j - 1) + (if s[j - 1] == '\t' {
            4nat
        } else {
            1nat
        })
    }
}

/// Whether the line that starts at `i` holds a token after its indentation:
/// it is neither blank nor only a comment.
pub open spec fn line_has_token(s: Seq<char>, i: int) -> bool {
    let r = indent_end(s, i);
    r < s.len() && s[r] != '\n' && s[r] != '\r' && s[r] != '#'
}

/// How many of the innermost indentation levels are wider than `w`.
pub open spec fn levels_above(st: Seq<usize>, w: nat) -> nat
    decreases st.len(),
{
    if st.len() > 0 && st.last() > w {
        1 + levels_above(st.drop_last(), w)
    } else {
        0
    }
}

/// The indentation levels left once those wider than `w` are closed.
pub open spec fn dedent_stack(st: Seq<usize>, w: nat) -> Seq<usize> {
    st.take(st.len() - levels_above(st, w))
}

/// Whether a character continues the digits of an integer literal.
pub open spec fn int_char(c: char) -> bool {
    is_ascii_digit(c) || c == '_'
}

/// The end of the run of digits and `_` separators from `j`.
pub open spec fn int_run_end(s: Seq<char>, j: int) -> int
    decreases s.len() - j,
{
    if 0 <= j < s.len() && int_char(s[j]) {
        int_run_end(s, j + 1)
    } else {
        j
    }
}

/// `int_run_end` never goes back, nor past the end.
pub proof fn lemma_int_run_end_bounds(s: Seq<char>, j: int)
    requires
        0 <= j,
    ensures
        int_run_end(s, j) >= j,
        j <= s.len() ==> int_run_end(s, j) <= s.len(),
    decreases s.len() - j,
{
    if 0 <= j < s.len() && int_char(s[j]) {
        lemma_int_run_end_bounds(s, j + 1);
    }
}

/// Whether the digit at `k` starts an integer literal: its run of digits
/// and `_` is not continued by a fraction (`.` and a digit), an exponent
/// marker or an imaginary suffix.
pub open spec fn plain_int_at(s: Seq<char>, k: int) -> bool {
    let e = int_run_end(s, k + 1);
    &&& 0 <= k < s.len()
    &&& is_ascii_digit(s[k])
    &&& !(e < s.len() && (s[e] == 'e' || s[e] == 'E' || s[e] == 'j' || s[e] == 'J' || (s[e] == '.' && e + 1 < s.len()
        && is_ascii_digit(s[e + 1]))))
}

/// Whether the digit at `k` starts a float literal of the form
/// `digits.digits` (with `_` separators), not continued by an exponent
/// marker or an imaginary suffix.
pub open spec fn plain_float_at(s: Seq<char>, k: int) -> bool {
    let e1 = int_run_end(s, k + 1);
    let e2 = int_run_end(s, e1 + 1);
    &&& 0 <= k < s.len()
    &&& is_ascii_digit(s[k])
    &&& e1 + 1 < s.len()
    &&& s[e1] == '.'
    &&& is_ascii_digit(s[e1 + 1])
    &&& !(e2 < s.len() && (s[e2] == 'e' || s[e2] == 'E' || s[e2] == 'j' || s[e2] == 'J'))
}

/// Where the float literal at `k` ends (see `plain_float_at`).
pub open spec fn float_end(s: Seq<char>, k: int) -> int {
    int_run_end(s, int_run_end(s, k + 1) + 1)
}

/// The value of the integer literal at `k` (see `plain_int_at`).
pub open spec fn int_literal_value(s: Seq<char>, k: int) -> nat {
    digits_value(without_underscores(s.subrange(k, int_run_end(s, k + 1))))
}

/// Whether a line may start with `c` without indentation: not blank, not
/// a line break, not a comment.
pub open spec fn flat_line_start(c: char) -> bool {
    !is_blank(c) && c != '\n' && c != '#'
}

/// Whether reading from index `i` inside a line, with `depth` brackets
/// open, lexes to the end of the text: every token is an operator, an
/// integer literal that fits `i64`, a float literal `digits.digits`, a
/// terminated string, an identifier or
/// keyword, or a line break outside brackets followed by an unindented line
/// (blanks and `#` comments within lines are skipped).
pub open spec fn flat_from(s: Seq<char>, i: int, depth: nat) -> bool
    decreases s.len() - i,
{
    if i < 0 {
        false
    } else {
        let k = token_start(s, i);
        if k >= s.len() {
            true
        } else {
            proof {
                lemma_token_start_ge(s, i);
            }
            if s[k] == '\n' {
                depth == 0 && (k + 1 < s.len() ==> flat_line_start(s[k + 1])) && flat_from(s, k + 1, 0)
            } else if operator_at(s, k).1 > 0 {
                flat_from(s, k + operator_at(s, k).1, new_depth(s[k], depth))
            } else if plain_float_at(s, k) {
                proof {
                    lemma_int_run_end_bounds(s, k + 1);
                    lemma_int_run_end_bounds(s, int_run_end(s, k + 1) + 1);
                }
                flat_from(s, float_end(s, k), depth)
            } else if plain_int_at(s, k) && int_literal_value(s, k) <= i64::MAX {
                proof {
                    lemma_int_run_end_bounds(s, k + 1);
                }
                flat_from(s, int_run_end(s, k + 1), depth)
            } else if s[k] == '"' || s[k] == '\'' {
                match string_literal(s, k) {
                    Some((_, e)) => if k < e <= s.len() {
                        flat_from(s, e, depth)
                    } else {
                        false
                    },
                    None => false,
                }
            } else if (s[k] == '_' || unicode_alphabetic(s[k])) && !is_ascii_digit(s[k]) && !prefixed_string_at(s, k) {
                proof {
                    lemma_ident_end_ge(s, k + 1);
                }
                flat_from(s, ident_end(s, k + 1), depth)
            } else {
                false
            }
        }
    }
}

/// A source text of unindented, non-blank lines (see `flat_from`).
pub open spec fn flat_source(s: Seq<char>) -> bool {
    s.len() == 0 || (flat_line_start(s[0]) && flat_from(s, 0, 0))
}

/// Whether lexing the text `s` from its start gives the tokens `toks`:
/// successive calls of `next_token` (see `Lexer::lexes`) up to the first
/// `Eof`.
pub open spec fn lexes_source(s: Seq<char>, toks: Seq<Token>) -> bool {
    &&& toks.len() >= 1
    &&& toks.last().kind is Eof
    &&& forall|i: int| 0 <= i < toks.len() - 1 ==> !(#[trigger] toks[i].kind is Eof)
    &&& exists|states: Seq<Lexer>|
        #![trigger Lexer::lexes(states, toks)]
        Lexer::lexes(states, toks) && Lexer::starts(states[0], s)
}

/// Whether lexing the text `s` from its start fails with `e`: successive
/// calls of `next_token` give tokens, and then the error.
pub open spec fn lex_error(s: Seq<char>, e: LexerError) -> bool {
    exists|states: Seq<Lexer>, toks: Seq<Token>, after: Lexer|
        #![trigger Lexer::lexes(states, toks), Lexer::next_post(states.last(), after, Err(e))]
        Lexer::lexes(states, toks) && Lexer::starts(states[0], s) && Lexer::next_post(states.last(), after, Err(e))
}

/// A run of `Dedent` tokens closes one level per token.
pub proof fn lemma_dedents_depth(toks: Seq<Token>)
    requires
        forall|i: int| 0 <= i < toks.len() ==> #[trigger] toks[i].kind is Dedent,
    ensures
        block_depth(toks) == -(toks.len() as int),
    decreases toks.len(),
{
    if toks.len() > 0 {
        let d = toks.drop_last();
        assert forall|i: int| 0 <= i < d.len() implies #[trigger] d[i].kind is Dedent by {
            assert(d[i] == toks[i]);
        }
        lemma_dedents_depth(d);
    }
}

impl Lexer {
    /// Levels opened by an `Indent` and not yet closed by an emitted `Dedent`.
    pub open spec fn depth(&self) -> int {
        self.indents().len() - 1 + self.pending()
    }

    /// The characters of the source.
    pub closed spec fn source(&self) -> Seq<char> {
        self.chars@
    }

    /// How many characters have been consumed.
    pub closed spec fn position(&self) -> nat {
        self.cursor as nat
    }

    /// Byte length of the source.
    pub closed spec fn source_bytes(&self) -> nat {
        self.source_len as nat
    }

    /// The line of the cursor, counted from 1.
    pub closed spec fn line(&self) -> nat {
        self.line as nat
    }

    /// The column of the cursor, counted from 1.
    pub closed spec fn column(&self) -> nat {
        self.column as nat
    }

    /// Whether the cursor is at the start of a line, where indentation is read.
    pub closed spec fn at_line_start(&self) -> bool {
        self.at_line_start
    }

    /// How many brackets are open; line breaks inside them are no tokens.
    pub closed spec fn open_brackets(&self) -> nat {
        self.open_brackets as nat
    }

    /// Whether the next token is read as inside a line: no dedents are owed,
    /// and either the cursor is not at a line start, or the line starts
    /// with a character that is neither blank, a line break nor `#`, and
    /// no indentation level is open (or brackets are).
    pub open spec fn reads_mid_line(&self) -> bool {
        &&& self.pending() == 0
        &&& !self.at_line_start() || (self.position() < self.source().len() && !is_blank(
            self.source()[self.position() as int],
        ) && self.source()[self.position() as int] != '\n' && self.source()[self.position() as int] != '#' && (
        self.open_brackets() > 0 || self.indents().last() == 0))
    }

    /// The open indentation levels.
    pub closed spec fn indents(&self) -> Seq<usize> {
        self.indent_stack@
    }

    /// Dedent tokens owed before any further text is read.
    pub closed spec fn pending(&self) -> nat {
        self.pending_dedents as nat
    }

    pub closed spec fn wf(&self) -> bool {
        &&& self.offsets@.len() == self.chars@.len()
        &&& self.chars@.len() <= usize::MAX / 8
        &&& forall|i: int|
            0 <= i < self.chars@.len() ==> #[trigger] self.offsets@[i] == byte_pos(self.chars@, i)
        &&& self.source_len == byte_pos(self.chars@, self.chars@.len() as int)
        &&& self.cursor <= self.chars@.len()
        &&& 1 <= self.line <= self.cursor + 1
        &&& 1 <= self.column <= self.cursor + 1
        &&& self.open_brackets <= self.cursor
        &&& indent_stack_ok(self.indent_stack@, self.chars@.len())
    }

    /// The measure that every token but `Eof` strictly decreases: first the
    /// characters left, then twice the open levels plus the owed dedents.
    pub open spec fn progressed(before: &Lexer, after: &Lexer) -> bool {
        ||| after.position() > before.position()
        ||| after.position() == before.position() && 2 * after.indents().len() + after.pending()
            < 2 * before.indents().len() + before.pending()
    }

    pub fn new(source: &str) -> (lx: Self)
        requires
            source@.len() <= usize::MAX / 8,
        ensures
            lx.wf(),
            lx.source() == source@,
            lx.position() == 0,
            lx.indents() == seq![0usize],
            lx.pending() == 0,
            lx.line() == 1,
            lx.column() == 1,
            lx.at_line_start(),
            lx.open_brackets() == 0,
    {
        let chars = str_chars(source);
        let mut offsets: Vec<usize> = Vec::new();
        let mut pos: usize = 0;
        let mut i: usize = 0;
        while i < chars.len()
            invariant
                i <= chars@.len(),
                chars@.len() <= usize::MAX / 8,
                offsets@.len() == i,
                pos == byte_pos(chars@, i as int),
                forall|k: int| 0 <= k < i ==> #[trigger] offsets@[k] == byte_pos(chars@, k),
            decreases chars.len() - i,
        {
            proof {
                lemma_byte_pos_bounds(chars@, i + 1);
            }
            offsets.push(pos);
            pos = pos + char_len_utf8(chars[i]);
            i = i + 1;
        }
        let mut indent_stack: Vec<usize> = Vec::new();
        indent_stack.push(0);
        Lexer {
            chars,
            offsets,
            source_len: pos,
            cursor: 0,
            line: 1,
            column: 1,
            indent_stack,
            open_brackets: 0,
            at_line_start: true,
            pending_dedents: 0,
        }
    }

    /// Lexes the whole source: the tokens are the results of successive
    /// calls of `next_token` (see `lexes`), and an error is the one the
    /// failing call gives. On success the list is non-empty, ends with
    /// `Eof`, and holds no other `Eof`; its `Indent` and `Dedent` tokens
    /// balance: counted from the lexer's depth, no prefix closes more levels
    /// than are open, and the whole list closes every one of them. At the
    /// end of the input it always succeeds, with the `Dedent` tokens that
    /// close every open level and then `Eof`. From the start of a text of
    /// unindented lines that lex (see `flat_source`) it always succeeds.
    pub fn tokenize(&mut self) -> (r: Result<Vec<Token>, LexerError>)
        requires
            old(self).wf(),
        ensures
            final(self).wf(),
            final(self).source() == old(self).source(),
            old(self).position() == old(self).source().len() ==> (r matches Ok(toks) && toks@.len() == old(
                self,
            ).depth() + 1 && forall|i: int| 0 <= i < toks@.len() - 1 ==> #[trigger] toks@[i].kind is Dedent),
            old(self).position() == 0 && old(self).at_line_start() && old(self).pending() == 0 && old(self).indents()
                == seq![0usize] && old(self).open_brackets() == 0 && flat_source(old(self).source()) ==> r is Ok,
            r matches Ok(toks) ==> exists|states: Seq<Lexer>|
                #![trigger Lexer::lexes(states, toks@)]
                Lexer::lexes(states, toks@) && states[0] == *old(self) && states.last() == *final(self),
            r matches Err(e) ==> exists|states: Seq<Lexer>, toks: Seq<Token>|
                #![trigger Lexer::lexes(states, toks)]
                Lexer::lexes(states, toks) && states[0] == *old(self) && Lexer::next_post(states.last(), *final(self), Err(e)),
            r matches Ok(toks) ==> {
                &&& toks@.len() >= 1
                &&& toks@.last().kind is Eof
                &&& forall|i: int| 0 <= i < toks@.len() - 1 ==> !(#[trigger] toks@[i].kind is Eof)
                &&& old(self).depth() + block_depth(toks@) == 0
                &&& forall|i: int| 0 <= i <= toks@.len() ==> old(self).depth() + #[trigger] block_depth(toks@.take(i)) >= 0
            },
    {
        let mut tokens: Vec<Token> = Vec::new();
        let ghost s = old(self).source();
        let ghost flat = old(self).position() == 0 && old(self).at_line_start() && old(self).pending() == 0
            && old(self).indents() == seq![0usize] && old(self).open_brackets() == 0 && flat_source(s);
        let ghost mut states: Seq<Lexer> = seq![*self];
        proof {
            assert(tokens@.take(0) =~= tokens@);
        }
        loop
            invariant
                self.wf(),
                states.len() == tokens@.len() + 1,
                states[0] == *old(self),
                states.last() == *self,
                Lexer::lexes(states, tokens@),
                self.source() == old(self).source(),
                s == old(self).source(),
                flat == (old(self).position() == 0 && old(self).at_line_start() && old(self).pending() == 0
                    && old(self).indents() == seq![0usize] && old(self).open_brackets() == 0 && flat_source(s)),
                flat ==> self.pending() == 0 && self.indents() == seq![0usize] && flat_from(
                    s,
                    self.position() as int,
                    self.open_brackets(),
                ) && (self.at_line_start() ==> self.open_brackets() == 0 && (self.position() < s.len()
                    ==> flat_line_start(s[self.position() as int]))),
                forall|i: int| 0 <= i < tokens@.len() ==> !(#[trigger] tokens@[i].kind is Eof),
                old(self).position() == old(self).source().len() ==> self.position() == self.source().len()
                    && forall|i: int| 0 <= i < tokens@.len() ==> #[trigger] tokens@[i].kind is Dedent,
                self.depth() == old(self).depth() + block_depth(tokens@),
                forall|i: int| 0 <= i <= tokens@.len() ==> old(self).depth() + #[trigger] block_depth(tokens@.take(i)) >= 0,
            decreases self.chars@.len() - self.cursor, 2 * self.indent_stack@.len() + self.pending_dedents,
        {
            let ghost before = *self;
            let ghost pos = self.position() as int;
            let ghost k = token_start(s, pos);
            proof {
                if flat {
                    lemma_token_start_ge(s, pos);
                    if pos < s.len() {
                        assert(self.reads_mid_line());
                    }
                }
            }
            let next = self.next_token();
            match next {
                Err(e) => {
                    proof {
                        assert(Lexer::lexes(states, tokens@));
                    }
                    return Err(e);
                },
                Ok(None) => {
                    return Ok(tokens);
                },
                Ok(Some(tok)) => {
                    proof {
                        if flat && pos < s.len() && k < s.len() && !(s[k] == '\n') && operator_at(s, k).1 == 0 && !(
                        s[k] == '"' || s[k] == '\'') && (s[k] == '_' || unicode_alphabetic(s[k])) && !is_ascii_digit(s[k])
                            && !prefixed_string_at(s, k) {
                            lemma_ident_end(s, k + 1, self.position() as int);
                        }
                    }
                    let is_eof = match tok.kind {
                        TokenKind::Eof => true,
                        _ => false,
                    };
                    let ghost prev = tokens@;
                    let ghost prev_states = states;
                    tokens.push(tok);
                    proof {
                        states = states.push(*self);
                        assert forall|i: int| 0 <= i < tokens@.len() implies Lexer::next_post(
                            states[i],
                            states[i + 1],
                            Ok(Some(#[trigger] tokens@[i])),
                        ) by {
                            if i < prev.len() {
                                assert(tokens@[i] == prev[i]);
                                assert(states[i] == prev_states[i] && states[i + 1] == prev_states[i + 1]);
                            }
                        }
                        assert(tokens@.drop_last() =~= prev);
                        assert(tokens@.take(tokens@.len() as int) =~= tokens@);
                        assert forall|i: int| 0 <= i <= tokens@.len() implies old(self).depth()
                            + #[trigger] block_depth(tokens@.take(i)) >= 0 by {
                            if i <= prev.len() {
                                assert(tokens@.take(i) =~= prev.take(i));
                            }
                        }
                    }
                    if is_eof {
                        proof {
                            assert(Lexer::lexes(states, tokens@));
                            if old(self).position() == old(self).source().len() {
                                lemma_dedents_depth(prev);
                                assert(block_depth(tokens@) == block_depth(prev));
                            }
                        }
                        return Ok(tokens);
                    }
                    proof {
                        assert(Lexer::progressed(&before, self));
                    }
                },
            }
        }
    }

    fn peek_char(&self) -> (r: Option<char>)
        requires
            self.wf(),
        ensures
            r == (if self.cursor < self.chars@.len() {
                Some(self.chars@[self.cursor as int])
            } else {
                None::<char>
            }),
    {
        if self.cursor < self.chars.len() {
            Some(self.chars[self.cursor])
        } else {
            None
        }
    }

    fn peek_next_char(&self) -> (r: Option<char>)
        requires
            self.wf(),
        ensures
            r == (if self.cursor + 1 < self.chars@.len() {
                Some(self.chars@[self.cursor + 1])
            } else {
                None::<char>
            }),
    {
        self.peek_char_at(1)
    }

    fn peek_char_at(&self, offset: usize) -> (r: Option<char>)
        requires
            self.wf(),
            offset <= 8,
        ensures
            r == (if self.cursor + offset < self.chars@.len() {
                Some(self.chars@[self.cursor + offset])
            } else {
                None::<char>
            }),
    {
        if self.cursor + offset < self.chars.len() {
            Some(self.chars[self.cursor + offset])
        } else {
            None
        }
    }

    fn advance_char(&mut self) -> (r: Option<char>)
        requires
            old(self).wf(),
        ensures
            final(self).wf(),
            Lexer::same_input(old(self), final(self)),
            r == (if old(self).cursor < old(self).chars@.len() {
                Some(old(self).chars@[old(self).cursor as int])
            } else {
                None::<char>
            }),
            final(self).cursor == (if old(self).cursor < old(self).chars@.len() {
                old(self).cursor + 1
            } else {
                old(self).cursor as int
            }),
            final(self).indent_stack == old(self).indent_stack,
            final(self).open_brackets == old(self).open_brackets,
            final(self).at_line_start == old(self).at_line_start,
            final(self).pending_dedents == old(self).pending_dedents,
    {
        if self.cursor < self.chars.len() {
            let c = self.chars[self.cursor];
            self.cursor = self.cursor + 1;
            if c == '\n' {
                self.line = self.line + 1;
                self.column = 1;
            } else {
                self.column = self.column + 1;
            }
            Some(c)
        } else {
            None
        }
    }

    /// The byte offset, line and column of the next character.
    fn current_pos(&self) -> (r: (usize, usize, usize))
        requires
            self.wf(),
        ensures
            r.0 == byte_pos(self.chars@, self.cursor as int),
            r.0 <= self.source_len,
            r.0 <= 4 * self.cursor,
            r.1 == self.line,
            r.2 == self.column,
    {
        proof {
            lemma_byte_pos_bounds(self.chars@, self.cursor as int);
            lemma_byte_pos_monotone(self.chars@, self.cursor as int, self.chars@.len() as int);
        }
        let byte_pos = if self.cursor < self.chars.len() {
            self.offsets[self.cursor]
        } else {
            self.source_len
        };
        (byte_pos, self.line, self.column)
    }

    pub closed spec fn same_input(a: &Lexer, b: &Lexer) -> bool {
        &&& a.chars == b.chars
        &&& a.offsets == b.offsets
        &&& a.source_len == b.source_len
    }

    proof fn lemma_source_bytes_bound(&self)
        requires
            self.wf(),
        ensures
            self.source_len <= 4 * self.chars@.len(),
            self.source_len <= usize::MAX / 2,
    {
        lemma_byte_pos_bounds(self.chars@, self.chars@.len() as int);
    }

    /// Whether `l` is the lexer that `new` makes for the text `s`.
    pub open spec fn starts(l: Lexer, s: Seq<char>) -> bool {
        &&& l.wf()
        &&& l.source() == s
        &&& l.position() == 0
        &&& l.indents() == seq![0usize]
        &&& l.pending() == 0
        &&& l.line() == 1
        &&& l.column() == 1
        &&& l.at_line_start()
        &&& l.open_brackets() == 0
    }

    /// Whether the tokens `toks` are what successive calls of `next_token`
    /// give, starting from the lexer `states[0]`: token `i` is the result of
    /// the call from `states[i]`, which leaves `states[i + 1]`.
    pub open spec fn lexes(states: Seq<Lexer>, toks: Seq<Token>) -> bool {
        &&& states.len() == toks.len() + 1
        &&& forall|i: int|
            #![trigger toks[i]]
            0 <= i < toks.len() ==> Lexer::next_post(states[i], states[i + 1], Ok(Some(toks[i])))
    }

    /// What one call of `next_token` from the lexer `a` gives: the lexer `b`
    /// after it and the result `r`.
    pub open spec fn next_post(a: Lexer, b: Lexer, r: Result<Option<Token>, LexerError>) -> bool {
        &&& (b.wf())
        &&& (Lexer::same_input(&a, &b))
        &&& (b.position() >= a.position())
        &&& (r is Ok ==> r->Ok_0 is Some)
        &&& (r matches Ok(Some(t)) ==> !(t.kind is Eof) ==> Lexer::progressed(&a, &b))
        &&& (r matches Ok(Some(t)) ==> t.span.start <= t.span.end <= b.source_bytes())
        &&& (r matches Ok(Some(t)) ==> b.depth() == a.depth() + depth_step(t.kind))
        &&& (r matches Ok(Some(t)) ==> t.kind is Eof ==> b.depth() == 0)
        &&& (r matches Ok(Some(t)) ==> t.kind matches TokenKind::Ident(name) ==> exists|p: int|
                #![trigger byte_pos(b.source(), p)]
                a.position() <= p < b.position()
                && byte_pos(b.source(), p) == t.span.start
                && name@ == b.source().subrange(p, b.position() as int)
                && keyword_of(name@) is None)
        &&& (r matches Ok(Some(t)) ==> 4 <= t.kind.tag() <= 63 ==> exists|p: int|
                #![trigger byte_pos(b.source(), p)]
                a.position() <= p < b.position()
                && byte_pos(b.source(), p) == t.span.start
                && keyword_of(b.source().subrange(p, b.position() as int)) == Some(t.kind))
        &&& (r matches Ok(Some(t)) ==> 64 <= t.kind.tag() <= 107 ==> exists|p: int|
                #![trigger byte_pos(b.source(), p)]
                a.position() <= p < b.position()
                && byte_pos(b.source(), p) == t.span.start
                && operator_at(b.source(), p) == (t.kind, (b.position() - p) as nat))
        &&& (r matches Ok(Some(t)) ==> t.kind is Newline ==> b.position() >= 1
                && b.source()[b.position() - 1] == '\n')
        &&& (r matches Ok(Some(t)) ==> t.kind matches TokenKind::Float(text) ==> valid_float_text(text@))
        &&& (r matches Ok(Some(t)) ==> t.kind matches TokenKind::Str(text) ==> exists|p: int|
                #![trigger string_literal(b.source(), p)]
                a.position() <= p < b.position()
                && string_literal(b.source(), p) == Some((text@, b.position() as int)))
        &&& (r matches Ok(Some(t)) ==> t.kind matches TokenKind::Int(n) ==> exists|p: int|
                #![trigger byte_pos(b.source(), p)]
                a.position() <= p < b.position()
                && byte_pos(b.source(), p) == t.span.start
                && n == digits_value(without_underscores(b.source().subrange(p, b.position() as int))))
        &&& (a.pending() > 0 ==> (r matches Ok(Some(t)) && t.kind is Dedent
                && b.pending() == a.pending() - 1
                && b.position() == a.position()))
        &&& (a.position() == a.source().len() && a.pending() == 0 ==> (r matches Ok(Some(t))
                && b.position() == a.position() && b.pending() == 0 && (a.indents().len() > 1 ==> t.kind is Dedent && b.indents() == a.indents().drop_last()) && (
            a.indents().len() == 1 ==> t.kind is Eof)))
        &&& (({
                let s = a.source();
                let k = token_start(s, a.position() as int);
                &&& a.reads_mid_line() && k >= s.len() ==> (r matches Ok(Some(t)) && b.pending() == 0
                    && (a.indents().len() == 1 ==> t.kind is Eof))
                &&& a.reads_mid_line() && k < s.len() && !(s[k] == '\n' && a.open_brackets() > 0) ==> (
                r is Ok ==> b.pending() == 0 && b.indents() == a.indents()
                    && b.at_line_start() == (s[k] == '\n') && b.open_brackets() == (if operator_at(
                    s,
                    k,
                ).1 > 0 {
                    new_depth(s[k], a.open_brackets())
                } else {
                    a.open_brackets()
                }))
                &&& a.reads_mid_line() && k < s.len() ==> {
                    &&& s[k] == '\n' && a.open_brackets() == 0 ==> (r matches Ok(Some(t)) && t.kind is Newline
                        && b.position() == k + 1 && b.at_line_start() && t.span.start == byte_pos(s, k)
                        && t.span.end == t.span.start + 1 && (k == a.position() ==> t.span.line == a.line()
                        && t.span.column == a.column()))
                    &&& operator_at(s, k).1 > 0 ==> (r matches Ok(Some(t)) && t.kind == operator_at(s, k).0
                        && b.position() == k + operator_at(s, k).1 && t.span.start == byte_pos(s, k)
                        && t.span.end == t.span.start + operator_at(s, k).1 && (k == a.position()
                        ==> t.span.line == a.line() && t.span.column == a.column()))
                    &&& s[k] == '"' || s[k] == '\'' ==> (r is Ok <==> string_literal(s, k) is Some)
                    &&& s[k] == '"' || s[k] == '\'' ==> (r matches Err(e) ==> e.message@ == "unterminated string literal"@
                        && e.span.start == byte_pos(s, k) && e.span.end == b.source_bytes() && (k == a.position()
                        ==> e.span.line == a.line() && e.span.column == a.column()))
                    &&& s[k] == '"' || s[k] == '\'' ==> (r matches Ok(Some(t)) ==> t.kind matches TokenKind::Str(text)
                        && string_literal(s, k) == Some((text@, b.position() as int)))
                    &&& plain_float_at(s, k) ==> (r matches Ok(Some(t)) && t.kind matches TokenKind::Float(text) && text@
                        == without_underscores(s.subrange(k, float_end(s, k))) && b.position() == float_end(s, k))
                    &&& plain_int_at(s, k) ==> (r is Ok <==> int_literal_value(s, k) <= i64::MAX)
                    &&& plain_int_at(s, k) ==> (r matches Ok(Some(t)) ==> t.kind matches TokenKind::Int(n) && n
                        == int_literal_value(s, k) && b.position() == int_run_end(s, k + 1))
                    &&& (s[k] == '_' || unicode_alphabetic(s[k])) && s[k] != '\n' && operator_at(s, k).1 == 0 && s[k]
                        != '"' && s[k] != '\'' && !is_ascii_digit(s[k]) && !prefixed_string_at(s, k) ==> (r matches Ok(Some(t))
                        && t.span.start == byte_pos(s, k) && k < b.position() && (match keyword_of(
                        s.subrange(k, b.position() as int),
                    ) {
                        Some(kw) => t.kind == kw,
                        None => t.kind matches TokenKind::Ident(name) && name@ == s.subrange(
                            k,
                            b.position() as int,
                        ),
                    }) && (forall|j: int| k < j < b.position() ==> ident_continues(#[trigger] s[j])) && (
                    b.position() < s.len() ==> !ident_continues(s[b.position() as int])))
                    &&& starts_nothing(s, k) ==> (r matches Err(e) && e.message@ == "unexpected character '"@ + seq![s[k]]
                        + "'"@ && e.span.start == byte_pos(s, k) && e.span.end == e.span.start + utf8_len(s[k]) && (k
                        == a.position() ==> e.span.line == a.line() && e.span.column == a.column()))
                }
            }))
        &&& (({
                let s = a.source();
                let re = indent_end(s, a.position() as int);
                let w = indent_width(s, a.position() as int, re);
                let st = a.indents();
                a.pending() == 0 && a.at_line_start() && a.open_brackets() == 0 && line_has_token(
                    s,
                    a.position() as int,
                ) ==> {
                    &&& w > st.last() ==> (r matches Ok(Some(t)) && t.kind is Indent && b.position() == re
                        && b.indents() == st.push(w as usize) && !b.at_line_start()
                        && b.pending() == 0)
                    &&& w < st.last() && dedent_stack(st, w).last() == w ==> (r matches Ok(Some(t)) && t.kind is Dedent
                        && b.position() == re && b.indents() == dedent_stack(st, w)
                        && b.pending() == levels_above(st, w) - 1 && !b.at_line_start())
                    &&& w < st.last() && dedent_stack(st, w).last() != w ==> (r matches Err(e) && e.message@
                        == "unindent does not match any outer indentation level ("@ + crate::text::nat_text(w) + " spaces)"@
                        && e.span.start == byte_pos(s, a.position() as int) && e.span.end == e.span.start + w
                        && e.span.line == a.line() && e.span.column == a.column())
                }
            }))
    }

    /// Lexes the next token. Always `Some` on success; each token other than
    /// `Eof` strictly decreases the progress measure, and the span of a
    /// token lies within the source. `Indent` and `Dedent` move the block
    /// depth by one, other tokens leave it, and `Eof` comes only at depth
    /// zero. An identifier spells the characters from its start to where
    /// the lexer stopped and is no keyword; a keyword is what `keyword_of`
    /// reads from those characters, and an operator what `operator_at` reads
    /// at its start, as wide as what was consumed; an integer has the value
    /// of its digits, with `_` separators left out, and a float's text is a
    /// valid float; a string holds what `string_literal` reads from its
    /// opening quote; a `Newline` follows a line break. At the end of the
    /// input, with no dedents owed, it closes one open level with a `Dedent`,
    /// or gives `Eof` when none is open. At the start of a line that holds a
    /// token, outside brackets, an indentation wider than the innermost level
    /// opens a level with an `Indent`; a narrower one closes the wider levels
    /// with a `Dedent` (owing one per further level), or is an error when it
    /// matches no open level.
    #[verifier::spinoff_prover]
    #[verifier::rlimit(100)]
    pub fn next_token(&mut self) -> (r: Result<Option<Token>, LexerError>)
        requires
            old(self).wf(),
        ensures
            Lexer::next_post(*old(self), *final(self), r),
        decreases old(self).source().len() - old(self).position(),
    {
        proof {
            self.lemma_source_bytes_bound();
        }
        // Emit any queued dedents
        if self.pending_dedents > 0 {
            self.pending_dedents = self.pending_dedents - 1;
            let (pos, line, col) = self.current_pos();
            return Ok(Some(Token::new(TokenKind::Dedent, Span::new(pos, pos, line, col))));
        }
        let ghost start_cursor = self.cursor;
        let ghost mid = old(self).reads_mid_line();
        let ghost ls = old(self).pending() == 0 && old(self).at_line_start() && old(self).open_brackets() == 0
            && line_has_token(old(self).source(), old(self).position() as int);

        // Handle indentation at start of line
        while self.at_line_start
            invariant_except_break
                ls ==> self.cursor == start_cursor,
                ls ==> self.at_line_start,
            invariant
                self.wf(),
                Lexer::same_input(old(self), self),
                self.cursor >= start_cursor,
                start_cursor == old(self).cursor,
                self.pending_dedents == 0,
                old(self).pending_dedents == 0,
                self.indent_stack@ == old(self).indent_stack@,
                mid == old(self).reads_mid_line(),
                mid ==> self.cursor == start_cursor,
                !old(self).at_line_start ==> !self.at_line_start,
                self.open_brackets == old(self).open_brackets,
                self.cursor == start_cursor ==> self.line == old(self).line && self.column == old(self).column,
                ls == (old(self).pending() == 0 && old(self).at_line_start() && old(self).open_brackets() == 0
                    && line_has_token(old(self).source(), old(self).position() as int)),
            ensures
                !self.at_line_start,
                ls ==> indent_width(
                    old(self).source(),
                    start_cursor as int,
                    indent_end(old(self).source(), start_cursor as int),
                ) == old(self).indents().last(),
            decreases self.chars@.len() - self.cursor,
        {
            let ghost iter_cursor = self.cursor;
            let (start_pos, start_line, start_col) = self.current_pos();
            let mut indent_spaces: usize = 0;

            // Count leading spaces/tabs on this line
            let mut temp_cursor = self.cursor;
            while temp_cursor < self.chars.len() && (self.chars[temp_cursor] == ' '
                || self.chars[temp_cursor] == '\t')
                invariant
                    self.wf(),
                    self.cursor <= temp_cursor <= self.chars@.len(),
                    temp_cursor - self.cursor <= indent_spaces <= 4 * (temp_cursor - self.cursor),
                    forall|k: int| self.cursor <= k < temp_cursor ==> (#[trigger] self.chars@[k] == ' ' || self.chars@[k] == '\t'),
                    indent_spaces == indent_width(self.chars@, self.cursor as int, temp_cursor as int),
                    indent_end(self.chars@, temp_cursor as int) == indent_end(self.chars@, self.cursor as int),
                decreases self.chars.len() - temp_cursor,
            {
                proof {
                    assert(indent_end(self.chars@, temp_cursor as int) == indent_end(self.chars@, temp_cursor + 1));
                }
                if self.chars[temp_cursor] == ' ' {
                    indent_spaces = indent_spaces + 1;
                } else {
                    indent_spaces = indent_spaces + 4;
                }
                temp_cursor = temp_cursor + 1;
            }

            proof {
                assert(indent_end(self.chars@, temp_cursor as int) == temp_cursor);
                if ls {
                    assert(self.chars@ == old(self).source());
                    assert(temp_cursor == indent_end(old(self).source(), start_cursor as int));
                    assert(indent_spaces == indent_width(old(self).source(), start_cursor as int, temp_cursor as int));
                }
            }
            // Check if line is blank or just comment
            let next_is_blank = if temp_cursor < self.chars.len() {
                let nc = self.chars[temp_cursor];
                nc == '\n' || nc == '\r' || nc == '#'
            } else {
                true
            };
            if next_is_blank {
                // Ignore indentation on empty/comment lines: consume blank/comment and advance to next line
                let ghost loop_start = self.cursor;
                self.cursor = temp_cursor;
                if self.peek_char() == Some('#') {
                    self.advance_char();
                    while self.cursor < self.chars.len() && self.chars[self.cursor] != '\n'
                        invariant
                            self.wf(),
                            Lexer::same_input(old(self), self),
                            self.cursor > temp_cursor,
                            temp_cursor >= start_cursor,
                            start_cursor == old(self).cursor,
                            self.pending_dedents == 0,
                            self.indent_stack@ == old(self).indent_stack@,
                            self.open_brackets == old(self).open_brackets,
                            self.at_line_start,
                            !mid,
                            mid == old(self).reads_mid_line(),
                        decreases self.chars@.len() - self.cursor,
                    {
                        self.advance_char();
                    }
                } else if self.peek_char() == Some('\r') {
                    self.advance_char();
                }
                if self.peek_char() == Some('\n') {
                    self.advance_char();
                }
                if self.cursor >= self.chars.len() {
                    self.at_line_start = false;
                    break;
                }
                assert(self.cursor > loop_start);
                continue;
            }
            self.at_line_start = false;

            if self.open_brackets == 0 {
                // Advance past the indent characters
                self.advance_n(temp_cursor - self.cursor);

                let current_indent = self.indent_stack[self.indent_stack.len() - 1];
                if indent_spaces > current_indent {
                    let ghost st_before = self.indent_stack@;
                    self.indent_stack.push(indent_spaces);
                    proof {
                        let s = self.indent_stack@;
                        assert forall|i: int, j: int| #![trigger s[i], s[j]] 0 <= i < j < s.len() implies s[i] < s[j] by {
                            assert(s[i] == st_before[i] || i == s.len() - 1);
                            if j == s.len() - 1 && i < j - 1 {
                                assert(st_before[i] < st_before[j - 1]);
                            }
                        }
                        assert(indent_spaces <= 4 * (temp_cursor - iter_cursor));
                    }
                    let (end_pos, _end_line, _end_col) = self.current_pos();
                    proof {
                        lemma_byte_pos_monotone(self.chars@, iter_cursor as int, self.cursor as int);
                    }
                    return Ok(Some(Token::new(TokenKind::Indent, Span::new(start_pos, end_pos, start_line, start_col))));
                } else if indent_spaces < current_indent {
                    let mut dedent_count: usize = 0;
                    let ghost stack0 = self.indent_stack@;
                    let ghost wd = indent_spaces as nat;
                    assert(stack0.len() == self.indent_stack.len());
                    while self.indent_stack.len() > 0 && self.indent_stack[self.indent_stack.len() - 1] > indent_spaces
                        invariant
                            self.wf(),
                            stack0.len() <= usize::MAX,
                            self.indent_stack@.len() + dedent_count == stack0.len(),
                            Lexer::same_input(old(self), self),
                            self.cursor >= start_cursor,
                            self.cursor >= iter_cursor,
                            self.pending_dedents == 0,
                            old(self).pending_dedents == 0,
                            self.at_line_start == false,
                            self.indent_stack@.len() <= old(self).indent_stack@.len(),
                            stack0 == old(self).indent_stack@,
                            dedent_count == 0 ==> self.indent_stack@ == stack0,
                            self.open_brackets == old(self).open_brackets,
                            !mid,
                            mid == old(self).reads_mid_line(),
                            start_cursor == old(self).cursor,
                            self.cursor == start_cursor ==> self.line == old(self).line && self.column == old(self).column,
                            wd == indent_spaces,
                            self.cursor == temp_cursor,
                            levels_above(stack0, wd) == dedent_count + levels_above(self.indent_stack@, wd),
                            self.indent_stack@ == stack0.take(stack0.len() - dedent_count),
                        decreases self.indent_stack.len(),
                    {
                        proof {
                            let st = self.indent_stack@;
                            if st.len() == 1 {
                                assert(st[0] == 0);
                            }
                            assert(st.len() >= 2);
                        }
                        let ghost st_before = self.indent_stack@;
                        self.indent_stack.pop();
                        dedent_count = dedent_count + 1;
                        proof {
                            assert(self.indent_stack@ =~= stack0.take(stack0.len() - dedent_count));
                            assert(self.indent_stack@ =~= st_before.drop_last());
                        }
                        proof {
                            let st = self.indent_stack@;
                            assert(st =~= st_before.take(st.len() as int));
                            assert forall|i: int, j: int| #![trigger st[i], st[j]] 0 <= i < j < st.len() implies st[i] < st[j] by {
                                assert(st[i] == st_before[i] && st[j] == st_before[j]);
                            }
                            assert forall|i: int| 0 <= i < st.len() implies #[trigger] st[i] <= 4 * self.chars@.len() by {
                                assert(st[i] == st_before[i]);
                            }
                        }
                    }
                    assert(self.wf());
                    proof {
                        assert(levels_above(self.indent_stack@, wd) == 0);
                        assert(self.indent_stack@ == dedent_stack(stack0, wd));
                    }

                    if self.indent_stack[self.indent_stack.len() - 1] != indent_spaces {
                        let msg = unindent_message(indent_spaces);
                        return Err(LexerError {
                            message: msg,
                            span: Span::new(start_pos, start_pos + indent_spaces, start_line, start_col),
                        });
                    }
                    proof {
                        if ls {
                            assert(levels_above(stack0, wd) == dedent_count);
                            assert(stack0 == old(self).indents());
                            assert(wd == indent_width(
                                old(self).source(),
                                start_cursor as int,
                                indent_end(old(self).source(), start_cursor as int),
                            ));
                            assert(self.cursor == indent_end(old(self).source(), start_cursor as int));
                        }
                    }
                    if dedent_count > 0 {
                        self.pending_dedents = dedent_count - 1;
                        let (end_pos, _end_line, _end_col) = self.current_pos();
                        proof {
                            lemma_byte_pos_monotone(self.chars@, iter_cursor as int, self.cursor as int);
                        }
                        return Ok(Some(Token::new(TokenKind::Dedent, Span::new(start_pos, end_pos, start_line, start_col))));
                    }
                }
            }
            break;
        }

        // Skip horizontal whitespace
        let ghost ws0 = self.cursor as int;
        while self.cursor < self.chars.len() && (self.chars[self.cursor] == ' '
            || self.chars[self.cursor] == '\t' || self.chars[self.cursor] == '\r')
            invariant
                self.wf(),
                Lexer::same_input(old(self), self),
                self.cursor >= start_cursor,
                self.pending_dedents == 0,
                self.indent_stack@ == old(self).indent_stack@,
                self.cursor >= ws0,
                ws0 >= start_cursor,
                start_cursor == old(self).cursor,
                skip_blanks(self.chars@, self.cursor as int) == skip_blanks(self.chars@, ws0),
                !self.at_line_start,
                self.open_brackets == old(self).open_brackets,
                self.cursor == start_cursor ==> self.line == old(self).line && self.column == old(self).column,
            decreases self.chars@.len() - self.cursor,
        {
            self.advance_char();
        }

        // Check for comment
        let ghost cm0 = self.cursor as int;
        if self.peek_char() == Some('#') {
            while self.cursor < self.chars.len() && self.chars[self.cursor] != '\n'
                invariant
                    self.wf(),
                    Lexer::same_input(old(self), self),
                    self.cursor >= start_cursor,
                    self.pending_dedents == 0,
                    self.indent_stack@ == old(self).indent_stack@,
                    self.cursor >= cm0,
                    cm0 >= start_cursor,
                    start_cursor == old(self).cursor,
                    skip_comment(self.chars@, self.cursor as int) == skip_comment(self.chars@, cm0),
                    !self.at_line_start,
                    self.open_brackets == old(self).open_brackets,
                    self.cursor == start_cursor ==> self.line == old(self).line && self.column == old(self).column,
                decreases self.chars@.len() - self.cursor,
            {
                self.advance_char();
            }
        }

        let (start_pos, start_line, start_col) = self.current_pos();
        proof {
            lemma_byte_pos_monotone(self.chars@, self.cursor as int, self.chars@.len() as int);
            if mid {
                assert(ws0 == start_cursor);
                assert(self.cursor == token_start(self.chars@, start_cursor as int));
            }
        }
        if self.cursor >= self.chars.len() {
            // End of file: flush any remaining indents
            if self.indent_stack.len() > 1 {
                self.indent_stack.pop();
                return Ok(Some(Token::new(TokenKind::Dedent, Span::new(start_pos, start_pos, start_line, start_col))));
            }
            return Ok(Some(Token::new(TokenKind::Eof, Span::new(start_pos, start_pos, start_line, start_col))));
        }
        let c = self.chars[self.cursor];
        proof {
            lemma_byte_pos_monotone(self.chars@, self.cursor + 1, self.chars@.len() as int);
            assert(byte_pos(self.chars@, self.cursor + 1) == start_pos + utf8_len(c));
        }

        // Handle Newlines
        if c == '\n' {
            self.advance_char();
            self.at_line_start = true;
            if self.open_brackets == 0 {
                return Ok(Some(Token::new(TokenKind::Newline, Span::new(start_pos, start_pos + 1, start_line, start_col))));
            } else {
                // Inside brackets, newlines are ignored
                return self.next_token();
            }
        }

        // Operators and punctuation of one to three characters.
        let (kind, width) = self.scan_operator();
        if width > 0 {
            let ghost p = self.cursor as int;
            proof {
                self.lemma_ascii_run(width as int);
                assert(byte_pos(self.chars@, p) == start_pos);
            }
            self.advance_n(width);
            if c == '(' || c == '[' || c == '{' {
                self.open_brackets = self.open_brackets + 1;
            } else if c == ')' || c == ']' || c == '}' {
                self.open_brackets = if self.open_brackets > 0 { self.open_brackets - 1 } else { 0 };
            }
            proof {
                assert(old(self).position() <= p < self.position() && byte_pos(self.source(), p) == start_pos
                    && operator_at(self.source(), p) == (kind, (self.position() - p) as nat));
            }
            return Ok(Some(Token::new(kind, Span::new(start_pos, start_pos + width, start_line, start_col))));
        }

        // String literals: "...", '...', """...""", '\'\'\'...\'\'\''
        if c == '"' || c == '\'' {
            let ghost p = self.cursor as int;
            let res = self.lex_string(c, start_pos, start_line, start_col);
            proof {
                assert(old(self).position() <= p);
                if res is Ok {
                    assert(string_literal(self.source(), p) is Some);
                }
            }
            return res;
        }

        // Number literals
        if char_is_ascii_digit(c) {
            let ghost p = self.cursor as int;
            assert(byte_pos(self.chars@, p) == start_pos);
            let res = self.lex_number(start_pos, start_line, start_col);
            proof {
                match &res {
                    Ok(Some(t)) => {
                        match &t.kind {
                            TokenKind::Int(n) => {
                                assert(byte_pos(self.source(), p) == t.span.start);
                                assert(*n == digits_value(without_underscores(self.source().subrange(p, self.position() as int))));
                            },
                            _ => {},
                        }
                    },
                    _ => {},
                }
            }
            return res;
        }

        // Identifiers and keywords (including r"...", f"..." prefixes)
        if c == '_' || char_is_alphabetic(c) {
            let next = self.peek_next_char();
            if (c == 'r' || c == 'f') && (next == Some('"') || next == Some('\'')) {
                let quote = if next == Some('"') { '"' } else { '\'' };
                self.advance_char(); // advance prefix
                let ghost p = self.cursor as int;
                let res = self.lex_string(quote, start_pos, start_line, start_col);
                proof {
                    assert(old(self).position() <= p);
                    if res is Ok {
                        assert(string_literal(self.source(), p) is Some);
                    }
                }
                return res;
            }
            let ghost p = self.cursor as int;
            assert(byte_pos(self.chars@, p) == start_pos);
            let res = self.lex_ident_or_keyword(start_pos, start_line, start_col);
            proof {
                match &res {
                    Ok(Some(t)) => {
                        match &t.kind {
                            TokenKind::Ident(name) => {
                                assert(byte_pos(self.source(), p) == t.span.start);
                                assert(name@ == self.source().subrange(p, self.position() as int));
                            },
                            _ => {
                                assert(byte_pos(self.source(), p) == t.span.start);
                            },
                        }
                    },
                    _ => {},
                }
            }
            return res;
        }

        let msg = unexpected_char_message(c);
        Err(LexerError {
            message: msg,
            span: Span::new(start_pos, start_pos + char_len_utf8(c), start_line, start_col),
        })
    }

    proof fn lemma_ascii_run(&self, w: int)
        requires
            self.wf(),
            0 <= w,
            self.cursor + w <= self.chars@.len(),
            forall|k: int| self.cursor <= k < self.cursor + w ==> (#[trigger] self.chars@[k] as u32) < 0x80,
        ensures
            byte_pos(self.chars@, self.cursor + w) == byte_pos(self.chars@, self.cursor as int) + w,
            byte_pos(self.chars@, self.cursor + w) <= self.source_len,
        decreases w,
    {
        if w > 0 {
            self.lemma_ascii_run(w - 1);
        }
        lemma_byte_pos_monotone(self.chars@, self.cursor + w, self.chars@.len() as int);
    }

    fn advance_n(&mut self, n: usize)
        requires
            old(self).wf(),
            old(self).cursor + n <= old(self).chars@.len(),
        ensures
            final(self).wf(),
            Lexer::same_input(old(self), final(self)),
            final(self).cursor == old(self).cursor + n,
            final(self).indent_stack == old(self).indent_stack,
            final(self).open_brackets == old(self).open_brackets,
            final(self).at_line_start == old(self).at_line_start,
            final(self).pending_dedents == old(self).pending_dedents,
            n == 0 ==> final(self).line == old(self).line && final(self).column == old(self).column,
    {
        let mut k: usize = 0;
        while k < n
            invariant
                self.wf(),
                Lexer::same_input(old(self), self),
                k <= n,
                self.cursor == old(self).cursor + k,
                old(self).cursor + n <= old(self).chars@.len(),
                self.indent_stack == old(self).indent_stack,
                self.open_brackets == old(self).open_brackets,
                self.at_line_start == old(self).at_line_start,
                self.pending_dedents == old(self).pending_dedents,
                k == 0 ==> self.line == old(self).line && self.column == old(self).column,
            decreases n - k,
        {
            self.advance_char();
            k = k + 1;
        }
    }

    /// The operator or punctuation token at the cursor, and its width in
    /// characters (0 when the next character starts none).
    fn scan_operator(&self) -> (r: (TokenKind, usize))
        requires
            self.wf(),
            self.cursor < self.chars@.len(),
        ensures
            (r.0, r.1 as nat) == operator_at(self.chars@, self.cursor as int),
            r.1 <= 3,
            self.cursor + r.1 <= self.chars@.len(),
            forall|k: int| self.cursor <= k < self.cursor + r.1 ==> (#[trigger] self.chars@[k] as u32) < 0x80,
    {
        let c0 = self.chars[self.cursor];
        let c1 = self.peek_char_at(1);
        let c2 = self.peek_char_at(2);
        if c0 == '*' {
            if c1 == Some('*') {
                if c2 == Some('*') { (TokenKind::TripleStar, 3) } else { (TokenKind::DoubleStar, 2) }
            } else if c1 == Some('=') { (TokenKind::StarEq, 2) } else { (TokenKind::Star, 1) }
        } else if c0 == '+' {
            if c1 == Some('=') { (TokenKind::PlusEq, 2) } else { (TokenKind::Plus, 1) }
        } else if c0 == '-' {
            if c1 == Some('>') { (TokenKind::Arrow, 2) }
            else if c1 == Some('=') { (TokenKind::MinusEq, 2) }
            else { (TokenKind::Minus, 1) }
        } else if c0 == '/' {
            if c1 == Some('/') { (TokenKind::DoubleSlash, 2) }
            else if c1 == Some('=') { (TokenKind::SlashEq, 2) }
            else { (TokenKind::Slash, 1) }
        } else if c0 == '.' {
            if c1 == Some('.') && c2 == Some('.') { (TokenKind::Ellipsis, 3) } else { (TokenKind::Dot, 1) }
        } else if c0 == '=' {
            if c1 == Some('=') { (TokenKind::EqEq, 2) } else { (TokenKind::Eq, 1) }
        } else if c0 == '!' {
            if c1 == Some('=') { (TokenKind::NotEq, 2) } else { (TokenKind::Bang, 1) }
        } else if c0 == '<' {
            if c1 == Some('=') { (TokenKind::LtEq, 2) }
            else if c1 == Some('<') { (TokenKind::Shl, 2) }
            else { (TokenKind::Lt, 1) }
        } else if c0 == '>' {
            if c1 == Some('=') { (TokenKind::GtEq, 2) }
            else if c1 == Some('>') { (TokenKind::Shr, 2) }
            else { (TokenKind::Gt, 1) }
        } else if c0 == ':' {
            if c1 == Some('=') { (TokenKind::Walrus, 2) } else { (TokenKind::Colon, 1) }
        } else if c0 == '(' { (TokenKind::LParen, 1) }
        else if c0 == ')' { (TokenKind::RParen, 1) }
        else if c0 == '[' { (TokenKind::LBracket, 1) }
        else if c0 == ']' { (TokenKind::RBracket, 1) }
        else if c0 == '{' { (TokenKind::LBrace, 1) }
        else if c0 == '}' { (TokenKind::RBrace, 1) }
        else if c0 == ',' { (TokenKind::Comma, 1) }
        else if c0 == ';' { (TokenKind::Semi, 1) }
        else if c0 == '@' { (TokenKind::At, 1) }
        else if c0 == '%' { (TokenKind::Percent, 1) }
        else if c0 == '|' { (TokenKind::Pipe, 1) }
        else if c0 == '^' { (TokenKind::Caret, 1) }
        else if c0 == '~' { (TokenKind::Tilde, 1) }
        else if c0 == '&' { (TokenKind::Amp, 1) }
        else if c0 == '?' { (TokenKind::Question, 1) }
        else { (TokenKind::Eof, 0) }
    }

    fn lex_string(&mut self, quote: char, start_pos: usize, start_line: usize, start_col: usize) -> (r: Result<Option<Token>, LexerError>)
        requires
            old(self).wf(),
            old(self).cursor < old(self).chars@.len(),
            old(self).chars@[old(self).cursor as int] == quote,
            start_pos <= byte_pos(old(self).chars@, old(self).cursor as int),
        ensures
            final(self).wf(),
            Lexer::same_input(old(self), final(self)),
            final(self).cursor > old(self).cursor,
            final(self).indent_stack == old(self).indent_stack,
            final(self).pending_dedents == old(self).pending_dedents,
            final(self).open_brackets == old(self).open_brackets,
            final(self).at_line_start == old(self).at_line_start,
            r is Ok ==> r->Ok_0 is Some,
            r matches Ok(Some(t)) ==> t.kind is Str && t.span.start <= t.span.end <= final(self).source_bytes(),
            r is Ok <==> string_literal(old(self).chars@, old(self).cursor as int) is Some,
            r matches Err(e) ==> e.message@ == "unterminated string literal"@ && e.span.start == start_pos
                && e.span.end == old(self).source_len && e.span.line == start_line && e.span.column == start_col,
            r matches Ok(Some(t)) ==> t.kind matches TokenKind::Str(text) && string_literal(
                old(self).chars@,
                old(self).cursor as int,
            ) == Some((text@, final(self).cursor as int)),
    {
        proof {
            self.lemma_source_bytes_bound();
            lemma_byte_pos_monotone(self.chars@, self.cursor as int, self.chars@.len() as int);
        }
        let ghost start_cursor = self.cursor;
        self.advance_char(); // consume first quote

        // Check for triple quotes
        let is_triple = if self.peek_char() == Some(quote) && self.peek_next_char() == Some(quote) {
            self.advance_char();
            self.advance_char();
            true
        } else {
            false
        };

        let mut content = String::new();
        let ghost body_start = self.cursor as int;
        proof {
            assert(content@ + Seq::<char>::empty() =~= content@);
        }
        loop
            invariant_except_break
                string_body(self.chars@, body_start, quote, is_triple) == (match string_body(self.chars@, self.cursor as int, quote, is_triple) {
                    Some((t, e)) => Some((content@ + t, e)),
                    None => None,
                }),
            invariant
                self.wf(),
                Lexer::same_input(old(self), self),
                self.cursor > start_cursor,
                start_cursor == old(self).cursor,
                self.indent_stack == old(self).indent_stack,
                self.pending_dedents == old(self).pending_dedents,
                self.open_brackets == old(self).open_brackets,
                self.at_line_start == old(self).at_line_start,
                self.chars@[start_cursor as int] == quote,
                string_literal(self.chars@, start_cursor as int) == string_body(self.chars@, body_start, quote, is_triple),
            ensures
                string_body(self.chars@, body_start, quote, is_triple) == Some((content@, self.cursor as int)),
            decreases self.chars@.len() - self.cursor,
        {
            if self.cursor >= self.chars.len() {
                return Err(LexerError {
                    message: String::from_str("unterminated string literal"),
                    span: Span::new(start_pos, self.source_len, start_line, start_col),
                });
            }
            let c = self.chars[self.cursor];
            if c == '\\' {
                self.advance_char();
                match self.advance_char() {
                    Some(e) => {
                        if e == 'n' {
                            content.push('\n');
                        } else if e == 'r' {
                            content.push('\r');
                        } else if e == 't' {
                            content.push('\t');
                        } else if e == '\\' {
                            content.push('\\');
                        } else if e == '\'' {
                            content.push('\'');
                        } else if e == '"' {
                            content.push('"');
                        } else {
                            content.push('\\');
                            content.push(e);
                        }
                    },
                    None => {},
                }
            } else if c == quote {
                if is_triple {
                    if self.peek_next_char() == Some(quote) && self.peek_char_at(2) == Some(quote) {
                        proof {
                            assert(content@ + Seq::<char>::empty() =~= content@);
                        }
                        self.advance_char();
                        self.advance_char();
                        self.advance_char();
                        break;
                    } else {
                        content.push(c);
                        self.advance_char();
                    }
                } else {
                    proof {
                        assert(content@ + Seq::<char>::empty() =~= content@);
                    }
                    self.advance_char();
                    break;
                }
            } else {
                content.push(c);
                self.advance_char();
            }
        }

        let (end_pos, _, _) = self.current_pos();
        proof {
            lemma_byte_pos_monotone(self.chars@, start_cursor as int, self.cursor as int);
        }
        Ok(Some(Token::new(TokenKind::Str(content), Span::new(start_pos, end_pos, start_line, start_col))))
    }

    fn lex_number(&mut self, start_pos: usize, start_line: usize, start_col: usize) -> (r: Result<Option<Token>, LexerError>)
        requires
            old(self).wf(),
            old(self).cursor < old(self).chars@.len(),
            is_ascii_digit(old(self).chars@[old(self).cursor as int]),
            start_pos == byte_pos(old(self).chars@, old(self).cursor as int),
        ensures
            final(self).wf(),
            Lexer::same_input(old(self), final(self)),
            final(self).cursor > old(self).cursor,
            final(self).indent_stack == old(self).indent_stack,
            final(self).pending_dedents == old(self).pending_dedents,
            final(self).open_brackets == old(self).open_brackets,
            final(self).at_line_start == old(self).at_line_start,
            r is Ok ==> r->Ok_0 is Some,
            r matches Ok(Some(t)) ==> (t.kind is Int || t.kind is Float) && t.span.start <= t.span.end
                <= final(self).source_bytes(),
            r matches Ok(Some(t)) ==> t.span.start == start_pos,
            r matches Ok(Some(t)) ==> t.kind matches TokenKind::Int(n) ==> n == digits_value(
                without_underscores(old(self).chars@.subrange(old(self).cursor as int, final(self).cursor as int))),
            r matches Ok(Some(t)) ==> t.kind matches TokenKind::Float(text) ==> valid_float_text(text@),
            r matches Err(e) ==> e.span.start <= e.span.end <= final(self).source_bytes(),
            plain_int_at(old(self).chars@, old(self).cursor as int) ==> final(self).cursor == int_run_end(
                old(self).chars@,
                old(self).cursor + 1,
            ) && (r is Ok <==> int_literal_value(old(self).chars@, old(self).cursor as int) <= i64::MAX) && (r matches Ok(
                Some(t),
            ) ==> t.kind is Int),
            plain_float_at(old(self).chars@, old(self).cursor as int) ==> (r matches Ok(Some(t)) && t.kind matches TokenKind::Float(
                text,
            ) && text@ == without_underscores(old(self).chars@.subrange(old(self).cursor as int, final(self).cursor as int))
                && final(self).cursor == float_end(old(self).chars@, old(self).cursor as int)),
    {
        proof {
            self.lemma_source_bytes_bound();
        }
        let ghost start_cursor = self.cursor;
        let ghost pf = plain_float_at(self.chars@, start_cursor as int);
        let ghost e1 = int_run_end(self.chars@, start_cursor + 1);
        let ghost e2 = int_run_end(self.chars@, e1 + 1);
        let mut is_float = false;
        let mut num: Vec<char> = Vec::new();
        let first = self.chars[self.cursor];
        num.push(first);
        self.advance_char();
        proof {
            let sub = self.chars@.subrange(start_cursor as int, self.cursor as int);
            assert(sub.drop_last() =~= Seq::<char>::empty());
            assert(sub.last() == first && first != '_');
            assert(without_underscores(sub.drop_last()) =~= Seq::<char>::empty());
            assert(num@ =~= without_underscores(sub));
            lemma_int_run_end_bounds(self.chars@, start_cursor + 1);
        }

        loop
            invariant
                self.wf(),
                Lexer::same_input(old(self), self),
                self.cursor > start_cursor,
                start_cursor == old(self).cursor,
                self.indent_stack == old(self).indent_stack,
                self.pending_dedents == old(self).pending_dedents,
                self.open_brackets == old(self).open_brackets,
                self.at_line_start == old(self).at_line_start,
                plain_int_at(old(self).chars@, start_cursor as int) ==> !is_float && int_run_end(
                    self.chars@,
                    self.cursor as int,
                ) == int_run_end(self.chars@, start_cursor + 1),
                num@.len() >= 1,
                !is_float ==> all_digits(num@),
                !is_float ==> num@ == without_underscores(self.chars@.subrange(start_cursor as int, self.cursor as int)),
                is_ascii_digit(num@[0]),
                pf == plain_float_at(self.chars@, start_cursor as int),
                e1 == int_run_end(self.chars@, start_cursor + 1),
                e2 == int_run_end(self.chars@, e1 + 1),
                pf ==> (!is_float && self.cursor <= e1 && int_run_end(self.chars@, self.cursor as int) == e1) || (is_float
                    && e1 < self.cursor && int_run_end(self.chars@, self.cursor as int) == e2 && num@ == without_underscores(
                    self.chars@.subrange(start_cursor as int, self.cursor as int),
                ) && (forall|i: int| 0 <= i < num@.len() ==> is_ascii_digit(#[trigger] num@[i]) || num@[i] == '.') && (
                forall|i: int, j: int| #![trigger num@[i], num@[j]] 0 <= i < j < num@.len() && num@[i] == '.' ==> num@[j]
                    != '.')),
            ensures
                plain_int_at(old(self).chars@, start_cursor as int) ==> self.cursor == int_run_end(
                    self.chars@,
                    start_cursor + 1,
                ),
                pf ==> is_float && self.cursor == e2 && num@ == without_underscores(
                    self.chars@.subrange(start_cursor as int, self.cursor as int),
                ) && (forall|i: int| 0 <= i < num@.len() ==> is_ascii_digit(#[trigger] num@[i]) || num@[i] == '.') && (
                forall|i: int, j: int| #![trigger num@[i], num@[j]] 0 <= i < j < num@.len() && num@[i] == '.' ==> num@[j]
                    != '.'),
            decreases self.chars@.len() - self.cursor,
        {
            if self.cursor >= self.chars.len() {
                break;
            }
            let c = self.chars[self.cursor];
            let next_is_digit = match self.peek_next_char() {
                Some(n) => char_is_ascii_digit(n),
                None => false,
            };
            if char_is_ascii_digit(c) || c == '_' {
                let ghost sub0 = self.chars@.subrange(start_cursor as int, self.cursor as int);
                if c != '_' {
                    num.push(c);
                }
                self.advance_char();
                proof {
                    let sub = self.chars@.subrange(start_cursor as int, self.cursor as int);
                    assert(sub.drop_last() =~= sub0);
                    assert(sub.last() == c);
                }
            } else if c == '.' && !is_float && next_is_digit {
                let ghost sub0 = self.chars@.subrange(start_cursor as int, self.cursor as int);
                let ghost n0 = num@;
                is_float = true;
                num.push(c);
                self.advance_char();
                proof {
                    let sub = self.chars@.subrange(start_cursor as int, self.cursor as int);
                    assert(sub.drop_last() =~= sub0);
                    assert(sub.last() == c);
                    assert(num@ == n0.push('.'));
                }
            } else if c == 'e' || c == 'E' {
                is_float = true;
                num.push(c);
                self.advance_char();
                let sign = self.peek_char();
                if sign == Some('+') || sign == Some('-') {
                    let sc = if sign == Some('+') { '+' } else { '-' };
                    num.push(sc);
                    self.advance_char();
                }
            } else {
                break;
            }
        }

        if self.peek_char() == Some('j') || self.peek_char() == Some('J') {
            is_float = true;
            self.advance_char();
        }

        let (end_pos, _, _) = self.current_pos();
        proof {
            lemma_byte_pos_monotone(self.chars@, start_cursor as int, self.cursor as int);
        }
        let span = Span::new(start_pos, end_pos, start_line, start_col);

        proof {
            if pf {
                assert(forall|i: int| 0 <= i < num@.len() ==> !is_exp_marker(#[trigger] num@[i]));
                assert(is_ascii_digit(num@[0]));
                assert(valid_mantissa(num@));
                assert(valid_float_text(num@));
            }
        }
        if is_float {
            if float_text_is_valid(&num) {
                let text = string_from_chars(&num);
                Ok(Some(Token::new(TokenKind::Float(text), span)))
            } else {
                Err(LexerError { message: literal_message("invalid float literal '", &num), span })
            }
        } else {
            match parse_decimal_i64(&num) {
                Some(n) => Ok(Some(Token::new(TokenKind::Int(n), span))),
                None => Err(LexerError { message: literal_message("invalid integer literal '", &num), span }),
            }
        }
    }

    fn lex_ident_or_keyword(&mut self, start_pos: usize, start_line: usize, start_col: usize) -> (r: Result<Option<Token>, LexerError>)
        requires
            old(self).wf(),
            old(self).cursor < old(self).chars@.len(),
            unicode_alphabetic(old(self).chars@[old(self).cursor as int]) || old(self).chars@[old(self).cursor as int] == '_',
            start_pos == byte_pos(old(self).chars@, old(self).cursor as int),
        ensures
            final(self).wf(),
            Lexer::same_input(old(self), final(self)),
            final(self).cursor > old(self).cursor,
            final(self).indent_stack == old(self).indent_stack,
            final(self).pending_dedents == old(self).pending_dedents,
            final(self).open_brackets == old(self).open_brackets,
            final(self).at_line_start == old(self).at_line_start,
            (r matches Ok(Some(t)) && t.span.start <= t.span.end <= final(self).source_bytes() && !(t.kind is Eof)
                && depth_step(t.kind) == 0
                && t.span.start == start_pos
                && (match keyword_of(old(self).chars@.subrange(old(self).cursor as int, final(self).cursor as int)) {
                    Some(k) => t.kind == k,
                    None => t.kind matches TokenKind::Ident(name)
                        && name@ == old(self).chars@.subrange(old(self).cursor as int, final(self).cursor as int),
                })),
            forall|k: int| old(self).cursor < k < final(self).cursor ==> ident_continues(#[trigger] old(self).chars@[k]),
            final(self).cursor < old(self).chars@.len() ==> !ident_continues(old(self).chars@[final(self).cursor as int]),
    {
        proof {
            self.lemma_source_bytes_bound();
        }
        let ghost start_cursor = self.cursor;
        let mut text: Vec<char> = Vec::new();
        let first = self.chars[self.cursor];
        let _ = char_is_alphanumeric(first);
        text.push(first);
        self.advance_char();
        proof {
            assert(text@ =~= self.chars@.subrange(start_cursor as int, self.cursor as int));
        }
        while self.cursor < self.chars.len() && (self.chars[self.cursor] == '_' || char_is_alphanumeric(self.chars[self.cursor]))
            invariant
                self.wf(),
                Lexer::same_input(old(self), self),
                self.cursor > start_cursor,
                start_cursor == old(self).cursor,
                self.indent_stack == old(self).indent_stack,
                self.pending_dedents == old(self).pending_dedents,
                self.open_brackets == old(self).open_brackets,
                self.at_line_start == old(self).at_line_start,
                text@ == self.chars@.subrange(start_cursor as int, self.cursor as int),
                forall|k: int| start_cursor < k < self.cursor ==> ident_continues(#[trigger] self.chars@[k]),
            decreases self.chars@.len() - self.cursor,
        {
            let c = self.chars[self.cursor];
            text.push(c);
            self.advance_char();
            proof {
                assert(text@ =~= self.chars@.subrange(start_cursor as int, self.cursor as int));
            }
        }

        let (end_pos, _, _) = self.current_pos();
        proof {
            lemma_byte_pos_monotone(self.chars@, start_cursor as int, self.cursor as int);
        }
        let span = Span::new(start_pos, end_pos, start_line, start_col);
        let kind = match keyword_kind(&text) {
            Some(k) => k,
            None => {
                let name = string_from_chars(&text);
                TokenKind::Ident(name)
            },
        };
        Ok(Some(Token::new(kind, span)))
    }
}

/// What the escape `\e` stands for in a string literal: a newline, return,
/// tab, backslash or quote for `n`, `r`, `t`, `\`, `'` and `"`, and
/// otherwise the backslash and `e` as they are.
pub open spec fn escape_value(e: char) -> Seq<char> {
    if e == 'n' {
        seq!['\n']
    } else if e == 'r' {
        seq!['\r']
    } else if e == 't' {
        seq!['\t']
    } else if e == '\\' {
        seq!['\\']
    } else if e == '\'' {
        seq!['\'']
    } else if e == '"' {
        seq!['"']
    } else {
        seq!['\\', e]
    }
}

/// The text that a string body from index `i` on stands for, up to its
/// closing delimiter (`quote`, or three of them when `triple`), and the
/// index just past that delimiter; `None` when the source ends first. In a
/// triple-quoted body a quote that does not start three is text.
pub open spec fn string_body(cs: Seq<char>, i: int, quote: char, triple: bool) -> Option<(Seq<char>, int)>
    decreases cs.len() - i,
{
    if i < 0 || i >= cs.len() {
        None
    } else if cs[i] == '\\' {
        if i + 1 < cs.len() {
            match string_body(cs, i + 2, quote, triple) {
                Some((t, e)) => Some((escape_value(cs[i + 1]) + t, e)),
                None => None,
            }
        } else {
            None
        }
    } else if cs[i] == quote && (!triple || (i + 2 < cs.len() && cs[i + 1] == quote && cs[i + 2] == quote)) {
        Some((Seq::empty(), if triple { i + 3 } else { i + 1 }))
    } else {
        match string_body(cs, i + 1, quote, triple) {
            Some((t, e)) => Some((seq![cs[i]] + t, e)),
            None => None,
        }
    }
}

/// The text of the string literal whose opening quote is at index `q`, and
/// the index just past it: three quotes open a triple-quoted literal.
pub open spec fn string_literal(cs: Seq<char>, q: int) -> Option<(Seq<char>, int)> {
    let quote = cs[q];
    let triple = q + 2 < cs.len() && cs[q + 1] == quote && cs[q + 2] == quote;
    string_body(cs, if triple { q + 3 } else { q + 1 }, quote, triple)
}

/// Whether a character may continue an identifier: `_` or a Unicode letter
/// or digit.
pub open spec fn ident_continues(c: char) -> bool {
    c == '_' || unicode_alphanumeric(c)
}

/// The token kind and width (in characters) of the operator or punctuation
/// at index `i`; width 0 when none starts there. Longest match first:
/// `***`, `**`, `*=`, `*`; `+=`, `+`; `->`, `-=`, `-`; `//`, `/=`, `/`;
/// `...`, `.`; `==`, `=`; `!=`, `!`; `<=`, `<<`, `<`; `>=`, `>>`, `>`;
/// `:=`, `:`; and the single characters `( ) [ ] { } , ; @ % | ^ ~ & ?`.
pub open spec fn operator_at(chars: Seq<char>, i: int) -> (TokenKind, nat) {
    let c0 = chars[i];
    let c1 = if i + 1 < chars.len() { Some(chars[i + 1]) } else { None::<char> };
    let c2 = if i + 2 < chars.len() { Some(chars[i + 2]) } else { None::<char> };
    if c0 == '*' {
        if c1 == Some('*') {
            if c2 == Some('*') { (TokenKind::TripleStar, 3) } else { (TokenKind::DoubleStar, 2) }
        } else if c1 == Some('=') { (TokenKind::StarEq, 2) } else { (TokenKind::Star, 1) }
    } else if c0 == '+' {
        if c1 == Some('=') { (TokenKind::PlusEq, 2) } else { (TokenKind::Plus, 1) }
    } else if c0 == '-' {
        if c1 == Some('>') { (TokenKind::Arrow, 2) }
        else if c1 == Some('=') { (TokenKind::MinusEq, 2) }
        else { (TokenKind::Minus, 1) }
    } else if c0 == '/' {
        if c1 == Some('/') { (TokenKind::DoubleSlash, 2) }
        else if c1 == Some('=') { (TokenKind::SlashEq, 2) }
        else { (TokenKind::Slash, 1) }
    } else if c0 == '.' {
        if c1 == Some('.') && c2 == Some('.') { (TokenKind::Ellipsis, 3) } else { (TokenKind::Dot, 1) }
    } else if c0 == '=' {
        if c1 == Some('=') { (TokenKind::EqEq, 2) } else { (TokenKind::Eq, 1) }
    } else if c0 == '!' {
        if c1 == Some('=') { (TokenKind::NotEq, 2) } else { (TokenKind::Bang, 1) }
    } else if c0 == '<' {
        if c1 == Some('=') { (TokenKind::LtEq, 2) }
        else if c1 == Some('<') { (TokenKind::Shl, 2) }
        else { (TokenKind::Lt, 1) }
    } else if c0 == '>' {
        if c1 == Some('=') { (TokenKind::GtEq, 2) }
        else if c1 == Some('>') { (TokenKind::Shr, 2) }
        else { (TokenKind::Gt, 1) }
    } else if c0 == ':' {
        if c1 == Some('=') { (TokenKind::Walrus, 2) } else { (TokenKind::Colon, 1) }
    } else if c0 == '(' { (TokenKind::LParen, 1) }
    else if c0 == ')' { (TokenKind::RParen, 1) }
    else if c0 == '[' { (TokenKind::LBracket, 1) }
    else if c0 == ']' { (TokenKind::RBracket, 1) }
    else if c0 == '{' { (TokenKind::LBrace, 1) }
    else if c0 == '}' { (TokenKind::RBrace, 1) }
    else if c0 == ',' { (TokenKind::Comma, 1) }
    else if c0 == ';' { (TokenKind::Semi, 1) }
    else if c0 == '@' { (TokenKind::At, 1) }
    else if c0 == '%' { (TokenKind::Percent, 1) }
    else if c0 == '|' { (TokenKind::Pipe, 1) }
    else if c0 == '^' { (TokenKind::Caret, 1) }
    else if c0 == '~' { (TokenKind::Tilde, 1) }
    else if c0 == '&' { (TokenKind::Amp, 1) }
    else if c0 == '?' { (TokenKind::Question, 1) }
    else { (TokenKind::Eof, 0) }
}

/// The keyword token a word stands for, if any.
pub open spec fn keyword_of(w: Seq<char>) -> Option<TokenKind> {
    if w == "true"@ { Some(TokenKind::True) }
    else if w == "false"@ { Some(TokenKind::False) }
    else if w == "none"@ { Some(TokenKind::NoneKw) }
    else if w == "export"@ { Some(TokenKind::Export) }
    else if w == "factory"@ { Some(TokenKind::Factory) }
    else if w == "construct"@ { Some(TokenKind::Construct) }
    else if w == "getter"@ { Some(TokenKind::Getter) }
    else if w == "setter"@ { Some(TokenKind::Setter) }
    else if w == "final"@ { Some(TokenKind::Final) }
    else if w == "sealed"@ { Some(TokenKind::Sealed) }
    else if w == "override"@ { Some(TokenKind::Override) }
    else if w == "without"@ { Some(TokenKind::Without) }
    else if w == "interface"@ { Some(TokenKind::Interface) }
    else if w == "trait"@ { Some(TokenKind::Trait) }
    else if w == "class"@ { Some(TokenKind::Class) }
    else if w == "implement"@ { Some(TokenKind::Implement) }
    else if w == "dispatch"@ { Some(TokenKind::Dispatch) }
    else if w == "type"@ { Some(TokenKind::Type) }
    else if w == "any"@ { Some(TokenKind::Any) }
    else if w == "trust"@ { Some(TokenKind::Trust) }
    else if w == "match"@ { Some(TokenKind::Match) }
    else if w == "case"@ { Some(TokenKind::Case) }
    else if w == "if_broken"@ { Some(TokenKind::IfBroken) }
    else if w == "skip"@ { Some(TokenKind::Skip) }
    else if w == "let"@ { Some(TokenKind::Let) }
    else if w == "caller"@ { Some(TokenKind::Caller) }
    else if w == "from_var_name"@ { Some(TokenKind::FromVarName) }
    else if w == "classmethod"@ { Some(TokenKind::ClassMethod) }
    else if w == "classvar"@ { Some(TokenKind::ClassVar) }
    else if w == "and"@ { Some(TokenKind::And) }
    else if w == "as"@ { Some(TokenKind::As) }
    else if w == "assert"@ { Some(TokenKind::Assert) }
    else if w == "async"@ { Some(TokenKind::Async) }
    else if w == "await"@ { Some(TokenKind::Await) }
    else if w == "break"@ { Some(TokenKind::Break) }
    else if w == "continue"@ { Some(TokenKind::Continue) }
    else if w == "def"@ { Some(TokenKind::Def) }
    else if w == "del"@ { Some(TokenKind::Del) }
    else if w == "elif"@ { Some(TokenKind::Elif) }
    else if w == "else"@ { Some(TokenKind::Else) }
    else if w == "except"@ { Some(TokenKind::Except) }
    else if w == "finally"@ { Some(TokenKind::Finally) }
    else if w == "for"@ { Some(TokenKind::For) }
    else if w == "from"@ { Some(TokenKind::From) }
    else if w == "if"@ { Some(TokenKind::If) }
    else if w == "import"@ { Some(TokenKind::Import) }
    else if w == "in"@ { Some(TokenKind::In) }
    else if w == "is"@ { Some(TokenKind::Is) }
    else if w == "not"@ { Some(TokenKind::Not) }
    else if w == "or"@ { Some(TokenKind::Or) }
    else if w == "pass"@ { Some(TokenKind::Pass) }
    else if w == "raise"@ { Some(TokenKind::Raise) }
    else if w == "return"@ { Some(TokenKind::Return) }
    else if w == "try"@ { Some(TokenKind::Try) }
    else if w == "while"@ { Some(TokenKind::While) }
    else if w == "with"@ { Some(TokenKind::With) }
    else if w == "yield"@ { Some(TokenKind::Yield) }
    else if w == "global"@ { Some(TokenKind::Global) }
    else if w == "nonlocal"@ { Some(TokenKind::Nonlocal) }
    else if w == "lambda"@ { Some(TokenKind::Lambda) }
    else { None }
}

/// Whether the characters `cs` spell the word `w`.
fn spells(cs: &Vec<char>, w: &str) -> (r: bool)
    ensures
        r == (cs@ == w@),
{
    let n = w.unicode_len();
    if n != cs.len() {
        return false;
    }
    let mut i: usize = 0;
    while i < n
        invariant
            n == w@.len(),
            n == cs@.len(),
            i <= n,
            forall|k: int| 0 <= k < i ==> cs@[k] == w@[k],
        decreases n - i,
    {
        if cs[i] != w.get_char(i) {
            return false;
        }
        i = i + 1;
    }
    proof {
        assert(cs@ =~= w@);
    }
    true
}

/// The keyword token a word stands for, if any.
fn keyword_kind(cs: &Vec<char>) -> (r: Option<TokenKind>)
    ensures
        r == keyword_of(cs@),
{
    if spells(cs, "true") { Some(TokenKind::True) }
    else if spells(cs, "false") { Some(TokenKind::False) }
    else if spells(cs, "none") { Some(TokenKind::NoneKw) }
    else if spells(cs, "export") { Some(TokenKind::Export) }
    else if spells(cs, "factory") { Some(TokenKind::Factory) }
    else if spells(cs, "construct") { Some(TokenKind::Construct) }
    else if spells(cs, "getter") { Some(TokenKind::Getter) }
    else if spells(cs, "setter") { Some(TokenKind::Setter) }
    else if spells(cs, "final") { Some(TokenKind::Final) }
    else if spells(cs, "sealed") { Some(TokenKind::Sealed) }
    else if spells(cs, "override") { Some(TokenKind::Override) }
    else if spells(cs, "without") { Some(TokenKind::Without) }
    else if spells(cs, "interface") { Some(TokenKind::Interface) }
    else if spells(cs, "trait") { Some(TokenKind::Trait) }
    else if spells(cs, "class") { Some(TokenKind::Class) }
    else if spells(cs, "implement") { Some(TokenKind::Implement) }
    else if spells(cs, "dispatch") { Some(TokenKind::Dispatch) }
    else if spells(cs, "type") { Some(TokenKind::Type) }
    else if spells(cs, "any") { Some(TokenKind::Any) }
    else if spells(cs, "trust") { Some(TokenKind::Trust) }
    else if spells(cs, "match") { Some(TokenKind::Match) }
    else if spells(cs, "case") { Some(TokenKind::Case) }
    else if spells(cs, "if_broken") { Some(TokenKind::IfBroken) }
    else if spells(cs, "skip") { Some(TokenKind::Skip) }
    else if spells(cs, "let") { Some(TokenKind::Let) }
    else if spells(cs, "caller") { Some(TokenKind::Caller) }
    else if spells(cs, "from_var_name") { Some(TokenKind::FromVarName) }
    else if spells(cs, "classmethod") { Some(TokenKind::ClassMethod) }
    else if spells(cs, "classvar") { Some(TokenKind::ClassVar) }
    else if spells(cs, "and") { Some(TokenKind::And) }
    else if spells(cs, "as") { Some(TokenKind::As) }
    else if spells(cs, "assert") { Some(TokenKind::Assert) }
    else if spells(cs, "async") { Some(TokenKind::Async) }
    else if spells(cs, "await") { Some(TokenKind::Await) }
    else if spells(cs, "break") { Some(TokenKind::Break) }
    else if spells(cs, "continue") { Some(TokenKind::Continue) }
    else if spells(cs, "def") { Some(TokenKind::Def) }
    else if spells(cs, "del") { Some(TokenKind::Del) }
    else if spells(cs, "elif") { Some(TokenKind::Elif) }
    else if spells(cs, "else") { Some(TokenKind::Else) }
    else if spells(cs, "except") { Some(TokenKind::Except) }
    else if spells(cs, "finally") { Some(TokenKind::Finally) }
    else if spells(cs, "for") { Some(TokenKind::For) }
    else if spells(cs, "from") { Some(TokenKind::From) }
    else if spells(cs, "if") { Some(TokenKind::If) }
    else if spells(cs, "import") { Some(TokenKind::Import) }
    else if spells(cs, "in") { Some(TokenKind::In) }
    else if spells(cs, "is") { Some(TokenKind::Is) }
    else if spells(cs, "not") { Some(TokenKind::Not) }
    else if spells(cs, "or") { Some(TokenKind::Or) }
    else if spells(cs, "pass") { Some(TokenKind::Pass) }
    else if spells(cs, "raise") { Some(TokenKind::Raise) }
    else if spells(cs, "return") { Some(TokenKind::Return) }
    else if spells(cs, "try") { Some(TokenKind::Try) }
    else if spells(cs, "while") { Some(TokenKind::While) }
    else if spells(cs, "with") { Some(TokenKind::With) }
    else if spells(cs, "yield") { Some(TokenKind::Yield) }
    else if spells(cs, "global") { Some(TokenKind::Global) }
    else if spells(cs, "nonlocal") { Some(TokenKind::Nonlocal) }
    else if spells(cs, "lambda") { Some(TokenKind::Lambda) }
    else { None }
}

fn unexpected_char_message(c: char) -> (s: String)
    ensures
        s@ == "unexpected character '"@ + seq![c] + "'"@,
{
    let mut s = String::from_str("unexpected character '");
    s.push(c);
    s.append("'");
    s
}

fn literal_message(prefix: &str, text: &Vec<char>) -> (s: String)
    ensures
        s@ == prefix@ + text@ + "'"@,
{
    let mut s = String::from_str(prefix);
    let t = string_from_chars(text);
    s.append(t.as_str());
    s.append("'");
    s
}

fn unindent_message(spaces: usize) -> (s: String)
    ensures
        s@ == "unindent does not match any outer indentation level ("@ + crate::text::nat_text(
            spaces as nat,
        ) + " spaces)"@,
{
    let mut s = String::from_str("unindent does not match any outer indentation level (");
    let n = crate::text::usize_to_string(spaces);
    s.append(n.as_str());
    s.append(" spaces)");
    s
}

} // verus!
