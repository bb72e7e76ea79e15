//! Tokenizer: turns a source string into a stream of position-annotated
//! tokens with one-token lookahead.
//!
//! The executable lexer is verified against a small mathematical model:
//! `scan_at` says which token starts at a given cursor, and `stream_from`
//! says what the whole remaining token stream is.  Whitespace (space, tab,
//! newline) is skipped before every token; newlines advance the line count
//! and reset the column.  An unrecognized character, or a decimal point
//! with no digit after it, is a lexical error reported with the offending
//! character and its line and column.

use vstd::prelude::*;
use vstd::string::StrSliceExecFns;
use vstd::string::StringExecFns;

verus! {

/// The kind of a token; one variant per lexeme class of the grammar.
#[derive(Clone, Copy, Debug, PartialEq, Eq, Structural)]
pub enum TokenKind {
    Identifier,
    Number,
    Plus,
    Minus,
    Times,
    Divide,
    Exponent,
    LParen,
    RParen,
}

/// Mathematical image of a token: its kind, its text as a character
/// sequence, and its position in the source.
#[verifier::ext_equal]
pub ghost struct SpecToken {
    pub kind: TokenKind,
    pub text: Seq<char>,
    pub start: int,
    pub end: int,
    pub line: int,
    pub column: int,
}

/// A point in the source: character offset plus the 1-based line and
/// column used in error reports.
#[verifier::ext_equal]
pub ghost struct Cursor {
    pub pos: int,
    pub line: int,
    pub column: int,
}

/// A lexical error: the offending character and where it stands.
#[verifier::ext_equal]
pub ghost struct SpecLexError {
    pub c: char,
    pub line: int,
    pub column: int,
}

/// What scanning finds at a cursor: the end of the input, a lexical
/// error, or one token together with the cursor just past it.
#[verifier::ext_equal]
pub ghost enum Scan {
    End,
    Bad(SpecLexError),
    Tok { token: SpecToken, next: Cursor },
}

/// The whole remaining token stream: the tokens that can be scanned in
/// order, and the lexical error that cuts the stream short, if any.
#[verifier::ext_equal]
pub ghost struct StreamModel {
    pub toks: Seq<SpecToken>,
    pub bad: Option<SpecLexError>,
}

/// The characters skipped between tokens: space, tab and newline.
pub open spec fn is_space_char(c: char) -> bool {
    c == ' ' || c == '\t' || c == '\n'
}

/// Decimal digits.
pub open spec fn is_digit_char(c: char) -> bool {
    ('0' as u32) <= (c as u32) && (c as u32) <= ('9' as u32)
}

/// Letters, the characters identifiers are made of.
pub open spec fn is_alpha_char(c: char) -> bool {
    (('a' as u32) <= (c as u32) && (c as u32) <= ('z' as u32)) || (('A' as u32) <= (c as u32)
        && (c as u32) <= ('Z' as u32))
}

/// One character is consumed: the offset advances, and a newline starts a
/// new line while any other character moves one column to the right.
pub open spec fn advance(cur: Cursor, c: char) -> Cursor {
    if c == '\n' {
        Cursor { pos: cur.pos + 1, line: cur.line + 1, column: 1 }
    } else {
        Cursor { pos: cur.pos + 1, line: cur.line, column: cur.column + 1 }
    }
}

/// The cursor after skipping the whitespace run that starts at `cur`.
pub open spec fn skip_ws(s: Seq<char>, cur: Cursor) -> Cursor
    decreases s.len() - cur.pos,
    when 0 <= cur.pos <= s.len()
{
    if cur.pos < s.len() && is_space_char(s[cur.pos]) {
        skip_ws(s, advance(cur, s[cur.pos]))
    } else {
        cur
    }
}

/// The end of the maximal digit run that starts at offset `i`.
pub open spec fn digits_end(s: Seq<char>, i: int) -> int
    decreases s.len() - i,
    when 0 <= i <= s.len()
{
    if i < s.len() && is_digit_char(s[i]) {
        digits_end(s, i + 1)
    } else {
        i
    }
}

/// The end of the maximal letter run that starts at offset `i`.
pub open spec fn letters_end(s: Seq<char>, i: int) -> int
    decreases s.len() - i,
    when 0 <= i <= s.len()
{
    if i < s.len() && is_alpha_char(s[i]) {
        letters_end(s, i + 1)
    } else {
        i
    }
}

/// A token of `len` characters taken from the source at `cur`, none of
/// them newlines: the cursor moves right by the token's length.
pub open spec fn token_at(s: Seq<char>, cur: Cursor, kind: TokenKind, len: int) -> Scan {
    Scan::Tok {
        token: SpecToken {
            kind,
            text: s.subrange(cur.pos, cur.pos + len),
            start: cur.pos,
            end: cur.pos + len,
            line: cur.line,
            column: cur.column,
        },
        next: Cursor { pos: cur.pos + len, line: cur.line, column: cur.column + len },
    }
}

/// What the lexer finds at `cur`, with whitespace already skipped: the end
/// of the input, a single token, or a lexical error.  A digit starts a
/// numeric literal `digit+ ('.' digit+)?`; a decimal point that is not
/// followed by a digit is a lexical error reported at the point's own
/// column.  A letter starts an identifier `alpha+`.  The seven operator
/// and parenthesis characters are one token each.  Anything else is a
/// lexical error.
pub open spec fn scan_at(s: Seq<char>, cur: Cursor) -> Scan {
    if cur.pos >= s.len() {
        Scan::End
    } else {
        let c = s[cur.pos];
        if is_digit_char(c) {
            let d = digits_end(s, cur.pos);
            if d < s.len() && s[d] == '.' {
                let f = digits_end(s, d + 1);
                if f > d + 1 {
                    token_at(s, cur, TokenKind::Number, f - cur.pos)
                } else {
                    Scan::Bad(
                        SpecLexError { c: '.', line: cur.line, column: cur.column + (d - cur.pos) },
                    )
                }
            } else {
                token_at(s, cur, TokenKind::Number, d - cur.pos)
            }
        } else if is_alpha_char(c) {
            token_at(s, cur, TokenKind::Identifier, letters_end(s, cur.pos) - cur.pos)
        } else if c == '+' {
            token_at(s, cur, TokenKind::Plus, 1)
        } else if c == '-' {
            token_at(s, cur, TokenKind::Minus, 1)
        } else if c == '*' {
            token_at(s, cur, TokenKind::Times, 1)
        } else if c == '/' {
            token_at(s, cur, TokenKind::Divide, 1)
        } else if c == '^' {
            token_at(s, cur, TokenKind::Exponent, 1)
        } else if c == '(' {
            token_at(s, cur, TokenKind::LParen, 1)
        } else if c == ')' {
            token_at(s, cur, TokenKind::RParen, 1)
        } else {
            Scan::Bad(SpecLexError { c, line: cur.line, column: cur.column })
        }
    }
}

/// The next token from `cur`: skip whitespace, then scan.
pub open spec fn next_token(s: Seq<char>, cur: Cursor) -> Scan {
    scan_at(s, skip_ws(s, cur))
}

/// The whole token stream from `cur` on: each token in order, and the
/// lexical error that ends the stream early, if one does.
pub open spec fn stream_from(s: Seq<char>, cur: Cursor) -> StreamModel
    decreases s.len() - cur.pos,
    when 0 <= cur.pos <= s.len()
{
    match next_token(s, cur) {
        Scan::End => StreamModel { toks: Seq::empty(), bad: None },
        Scan::Bad(e) => StreamModel { toks: Seq::empty(), bad: Some(e) },
        Scan::Tok { token, next } => {
            if cur.pos < next.pos <= s.len() {
                let rest = stream_from(s, next);
                StreamModel { toks: seq![token] + rest.toks, bad: rest.bad }
            } else {
                StreamModel { toks: Seq::empty(), bad: None }
            }
        },
    }
}

/// The stream with its first token removed.
pub open spec fn stream_tail(m: StreamModel) -> StreamModel {
    StreamModel { toks: m.toks.drop_first(), bad: m.bad }
}

/// The digit run that `digits_end` delimits lies inside the source, is
/// made of digits, and is maximal.
pub proof fn lemma_digits_end(s: Seq<char>, i: int)
    requires
        0 <= i <= s.len(),
    ensures
        i <= digits_end(s, i) <= s.len(),
        forall|j: int| i <= j < digits_end(s, i) ==> is_digit_char(#[trigger] s[j]),
        digits_end(s, i) < s.len() ==> !is_digit_char(s[digits_end(s, i)]),
    decreases s.len() - i,
{
    if i < s.len() && is_digit_char(s[i]) {
        lemma_digits_end(s, i + 1);
    }
}

/// The letter run that `letters_end` delimits lies inside the source, is
/// made of letters, and is maximal.
pub proof fn lemma_letters_end(s: Seq<char>, i: int)
    requires
        0 <= i <= s.len(),
    ensures
        i <= letters_end(s, i) <= s.len(),
        forall|j: int| i <= j < letters_end(s, i) ==> is_alpha_char(#[trigger] s[j]),
        letters_end(s, i) < s.len() ==> !is_alpha_char(s[letters_end(s, i)]),
    decreases s.len() - i,
{
    if i < s.len() && is_alpha_char(s[i]) {
        lemma_letters_end(s, i + 1);
    }
}

/// A token found by `scan_at` spans `[start, end)` with its text exactly
/// that span, takes at least one and at most the remaining characters,
/// carries the cursor's own line and column, and stays on its line.
pub proof fn lemma_scan_token_shape(s: Seq<char>, cur: Cursor)
    requires
        0 <= cur.pos <= s.len(),
    ensures
        scan_at(s, cur) matches Scan::Tok { token, next } ==> {
            &&& token.start == cur.pos && token.end == next.pos
            &&& cur.pos < next.pos <= s.len()
            &&& token.text.len() == token.end - token.start
            &&& token.line == cur.line && token.column == cur.column
            &&& next.line == cur.line
        },
{
    if cur.pos < s.len() {
        lemma_digits_end(s, cur.pos);
        lemma_letters_end(s, cur.pos);
        if is_digit_char(s[cur.pos]) {
            let d = digits_end(s, cur.pos);
            if d < s.len() && s[d] == '.' {
                lemma_digits_end(s, d + 1);
            }
        }
    }
}

// ---------------------------------------------------------------------------
// Error messages
// ---------------------------------------------------------------------------
/// The decimal digit characters.
pub open spec fn dec_digit(d: nat) -> char {
    if d == 0 {
        '0'
    } else if d == 1 {
        '1'
    } else if d == 2 {
        '2'
    } else if d == 3 {
        '3'
    } else if d == 4 {
        '4'
    } else if d == 5 {
        '5'
    } else if d == 6 {
        '6'
    } else if d == 7 {
        '7'
    } else if d == 8 {
        '8'
    } else {
        '9'
    }
}

/// The usual decimal rendering of a natural number, most significant
/// digit first and without leading zeros.
pub open spec fn dec_rep(n: nat) -> Seq<char>
    decreases n,
{
    if n < 10 {
        seq![dec_digit(n)]
    } else {
        dec_rep(n / 10).push(dec_digit(n % 10))
    }
}

/// The message reported for a lexical error.
pub open spec fn lex_error_msg(e: SpecLexError) -> Seq<char> {
    "Unexpected input: "@ + seq![e.c] + " ("@ + dec_rep(e.line as nat) + ":"@ + dec_rep(
        e.column as nat,
    ) + ")"@
}

/// The display name of a token kind.
pub open spec fn kind_name(kind: TokenKind) -> Seq<char> {
    match kind {
        TokenKind::Identifier => "Identifier"@,
        TokenKind::Number => "Number"@,
        TokenKind::Plus => "Plus"@,
        TokenKind::Minus => "Minus"@,
        TokenKind::Times => "Times"@,
        TokenKind::Divide => "Divide"@,
        TokenKind::Exponent => "Exponent"@,
        TokenKind::LParen => "LParen"@,
        TokenKind::RParen => "RParen"@,
    }
}

/// The message reported when a token appears where it cannot stand.
pub open spec fn token_error_msg(t: SpecToken) -> Seq<char> {
    "Unexpected token \""@ + t.text + "\" ("@ + kind_name(t.kind) + ") ("@ + dec_rep(
        t.line as nat,
    ) + ":"@ + dec_rep(t.column as nat) + ")"@
}

/// The message reported when the input ends where a token is needed.
pub open spec fn eof_msg() -> Seq<char> {
    "Unexpected EOF"@
}

/// Relies on `String::push`: it appends exactly the one character to the
/// end of the string.
#[verifier::external_body]
fn push_char(s: &mut String, c: char)
    ensures
        final(s)@ == old(s)@.push(c),
{
    s.push(c);
}

/// The decimal digit characters, executably.
fn dec_digit_char(d: usize) -> (c: char)
    requires
        d < 10,
    ensures
        c == dec_digit(d as nat),
{
    if d == 0 {
        '0'
    } else if d == 1 {
        '1'
    } else if d == 2 {
        '2'
    } else if d == 3 {
        '3'
    } else if d == 4 {
        '4'
    } else if d == 5 {
        '5'
    } else if d == 6 {
        '6'
    } else if d == 7 {
        '7'
    } else if d == 8 {
        '8'
    } else {
        '9'
    }
}

/// Append the decimal rendering of `n` to `s`.
fn append_dec(s: &mut String, n: usize)
    ensures
        final(s)@ == old(s)@ + dec_rep(n as nat),
    decreases n,
{
    if n >= 10 {
        append_dec(s, n / 10);
        push_char(s, dec_digit_char(n % 10));
        proof {
            assert(s@ =~= old(s)@ + dec_rep(n as nat));
        }
    } else {
        push_char(s, dec_digit_char(n));
        proof {
            assert(s@ =~= old(s)@ + dec_rep(n as nat));
        }
    }
}

/// Build the message for a lexical error at the given place.
fn lex_error_string(c: char, line: usize, column: usize) -> (r: String)
    ensures
        r@ == lex_error_msg(
            SpecLexError { c, line: line as int, column: column as int },
        ),
{
    let mut s = String::from_str("Unexpected input: ");
    push_char(&mut s, c);
    s.append(" (");
    append_dec(&mut s, line);
    s.append(":");
    append_dec(&mut s, column);
    s.append(")");
    proof {
        assert(s@ =~= lex_error_msg(
            SpecLexError { c, line: line as int, column: column as int },
        ));
    }
    s
}

// ---------------------------------------------------------------------------
// Tokens
// ---------------------------------------------------------------------------
/// A token: its kind, its exact lexeme, the character offsets of the
/// lexeme in the source, and the 1-based line and column where it starts.
#[derive(Debug)]
pub struct Token {
    pub kind: TokenKind,
    pub value: String,
    pub start: usize,
    pub end: usize,
    pub line: usize,
    pub column: usize,
}

impl View for Token {
    type V = SpecToken;

    open spec fn view(&self) -> SpecToken {
        SpecToken {
            kind: self.kind,
            text: self.value@,
            start: self.start as int,
            end: self.end as int,
            line: self.line as int,
            column: self.column as int,
        }
    }
}

impl Clone for Token {
    fn clone(&self) -> (r: Token)
        ensures
            r@ == self@,
    {
        Token {
            kind: self.kind,
            value: self.value.clone(),
            start: self.start,
            end: self.end,
            line: self.line,
            column: self.column,
        }
    }
}

impl PartialEq for Token {
    fn eq(&self, other: &Token) -> (r: bool) {
        self.kind == other.kind && self.value == other.value && self.start == other.start
            && self.end == other.end && self.line == other.line && self.column == other.column
    }
}

impl vstd::std_specs::cmp::PartialEqSpecImpl for Token {
    open spec fn obeys_eq_spec() -> bool {
        true
    }

    open spec fn eq_spec(&self, other: &Token) -> bool {
        self@ == other@
    }
}

impl Token {
    /// Pack the six fields into a token.
    pub fn new(kind: TokenKind, value: String, start: usize, end: usize, line: usize, column: usize)
        -> (t: Token)
        ensures
            t@ == (SpecToken {
                kind,
                text: value@,
                start: start as int,
                end: end as int,
                line: line as int,
                column: column as int,
            }),
    {
        Token { kind, value, start, end, line, column }
    }

    /// The message reported when this token appears where it cannot
    /// stand: its lexeme, kind and position.
    pub fn error(&self) -> (r: String)
        ensures
            r@ == token_error_msg(self@),
    {
        let mut s = String::from_str("Unexpected token \"");
        s.append(self.value.as_str());
        s.append("\" (");
        s.append(kind_str(self.kind));
        s.append(") (");
        append_dec(&mut s, self.line);
        s.append(":");
        append_dec(&mut s, self.column);
        s.append(")");
        proof {
            assert(s@ =~= token_error_msg(self@));
        }
        s
    }
}

/// The display name of a token kind, executably.
fn kind_str(kind: TokenKind) -> (r: &'static str)
    ensures
        r@ == kind_name(kind),
{
    match kind {
        TokenKind::Identifier => "Identifier",
        TokenKind::Number => "Number",
        TokenKind::Plus => "Plus",
        TokenKind::Minus => "Minus",
        TokenKind::Times => "Times",
        TokenKind::Divide => "Divide",
        TokenKind::Exponent => "Exponent",
        TokenKind::LParen => "LParen",
        TokenKind::RParen => "RParen",
    }
}

// ---------------------------------------------------------------------------
// The lexer
// ---------------------------------------------------------------------------
/// Whitespace characters, executably.
fn is_space(c: char) -> (b: bool)
    ensures
        b == is_space_char(c),
{
    c == ' ' || c == '\t' || c == '\n'
}

/// Decimal digits, executably.
fn is_digit(c: char) -> (b: bool)
    ensures
        b == is_digit_char(c),
{
    ('0' as u32) <= (c as u32) && (c as u32) <= ('9' as u32)
}

/// Letters, executably.
fn is_alpha(c: char) -> (b: bool)
    ensures
        b == is_alpha_char(c),
{
    (('a' as u32) <= (c as u32) && (c as u32) <= ('z' as u32)) || (('A' as u32) <= (c as u32)
        && (c as u32) <= ('Z' as u32))
}

/// Scanning a token from a cursor steps the stream: the stream there is
/// that token followed by the stream after it.
pub proof fn lemma_stream_step(s: Seq<char>, cur: Cursor, t: SpecToken, next: Cursor)
    requires
        0 <= cur.pos <= s.len(),
        next_token(s, cur) == (Scan::Tok { token: t, next }),
        cur.pos < next.pos <= s.len(),
    ensures
        stream_from(s, cur).toks.len() > 0,
        stream_from(s, cur).toks[0] == t,
        stream_from(s, cur) == (StreamModel {
            toks: seq![t] + stream_from(s, next).toks,
            bad: stream_from(s, next).bad,
        }),
        stream_tail(stream_from(s, cur)) == stream_from(s, next),
{
    assert(stream_from(s, cur) == StreamModel {
        toks: seq![t] + stream_from(s, next).toks,
        bad: stream_from(s, next).bad,
    });
    assert((seq![t] + stream_from(s, next).toks).drop_first() =~= stream_from(s, next).toks);
    assert(stream_tail(stream_from(s, cur)) =~= stream_from(s, next));
}

/// Skipping whitespace never moves the cursor backwards or past the end,
/// and never moves the line count down.
pub proof fn lemma_skip_ws_bounds(s: Seq<char>, cur: Cursor)
    requires
        0 <= cur.pos <= s.len(),
    ensures
        cur.pos <= skip_ws(s, cur).pos <= s.len(),
        cur.line <= skip_ws(s, cur).line,
    decreases s.len() - cur.pos,
{
    if cur.pos < s.len() && is_space_char(s[cur.pos]) {
        lemma_skip_ws_bounds(s, advance(cur, s[cur.pos]));
    }
}

/// Tokens laid out as the data model asks: each token's text is exactly
/// as long as the `[start, end)` span it reports, spans lie inside the
/// source, run left to right without overlap from the given offset on,
/// and line numbers never decrease from one token to the next.
pub open spec fn well_placed(toks: Seq<SpecToken>, pos: int, line: int, len: int) -> bool
    decreases toks.len(),
{
    toks.len() == 0 || {
        let t = toks[0];
        &&& t.text.len() == t.end - t.start
        &&& pos <= t.start < t.end <= len
        &&& line <= t.line
        &&& well_placed(toks.drop_first(), t.end, t.line, len)
    }
}

/// The invariant of the token stream: whatever the source, the tokens
/// scanned from a cursor are well placed from that cursor on.
pub proof fn lemma_stream_positions(s: Seq<char>, cur: Cursor)
    requires
        0 <= cur.pos <= s.len(),
    ensures
        well_placed(stream_from(s, cur).toks, cur.pos, cur.line, s.len() as int),
    decreases s.len() - cur.pos,
{
    let skipped = skip_ws(s, cur);
    lemma_skip_ws_bounds(s, cur);
    lemma_scan_token_shape(s, skipped);
    match next_token(s, cur) {
        Scan::End => {},
        Scan::Bad(_) => {},
        Scan::Tok { token, next } => {
            lemma_stream_positions(s, next);
            let toks = stream_from(s, cur).toks;
            let rest = stream_from(s, next).toks;
            assert(toks.drop_first() =~= rest);
        },
    }
}

/// The lexer: walks the source string left to right, producing one token
/// at a time with one token of cached lookahead.
pub struct Lexer<'a> {
    source: &'a str,
    length: usize,
    position: usize,
    current_line: usize,
    current_column: usize,
    peeked: Option<Token>,
}

impl<'a> Lexer<'a> {
    /// The source as a character sequence.
    pub closed spec fn src(self) -> Seq<char> {
        self.source@
    }

    /// Where the lexer stands in the source, past any cached token.
    pub closed spec fn cursor(self) -> Cursor {
        Cursor {
            pos: self.position as int,
            line: self.current_line as int,
            column: self.current_column as int,
        }
    }

    /// The lexer's internal invariant: the cached length is the source
    /// length, the offset lies inside the source, and line and column
    /// stay 1-based and bounded by how much has been read.
    pub closed spec fn wf(self) -> bool {
        &&& self.length == self.source@.len()
        &&& self.source@.len() < usize::MAX
        &&& self.position <= self.length
        &&& 1 <= self.current_line <= self.position + 1
        &&& 1 <= self.current_column <= self.position + 1
    }

    /// The tokens still to come, the cached lookahead first.
    pub closed spec fn stream(self) -> StreamModel {
        match self.peeked {
            Some(t) => {
                let rest = stream_from(self.source@, self.cursor());
                StreamModel { toks: seq![t@] + rest.toks, bad: rest.bad }
            },
            None => stream_from(self.source@, self.cursor()),
        }
    }

    /// A fresh lexer at the start of the source, on line 1, column 1.
    pub fn new(source: &'a str) -> (l: Lexer<'a>)
        requires
            source@.len() < usize::MAX,
        ensures
            l.wf(),
            l.src() == source@,
            l.stream() == stream_from(source@, Cursor { pos: 0, line: 1, column: 1 }),
    {
        let length = source.unicode_len();
        Lexer { source, length, position: 0, current_line: 1, current_column: 1, peeked: None }
    }

    /// The character under the cursor, left unconsumed.
    fn peek_char(&self) -> (r: Option<char>)
        requires
            self.wf(),
        ensures
            r == (if self.position < self.source@.len() {
                Some(self.source@[self.position as int])
            } else {
                None::<char>
            }),
    {
        if self.position < self.length {
            Some(self.source.get_char(self.position))
        } else {
            None
        }
    }

    /// Consume one character, advancing offset, line and column.
    fn next_char(&mut self) -> (r: Option<char>)
        requires
            old(self).wf(),
        ensures
            final(self).wf(),
            final(self).source == old(self).source,
            final(self).length == old(self).length,
            final(self).peeked == old(self).peeked,
            old(self).position < old(self).length ==> {
                &&& r == Some(old(self).source@[old(self).position as int])
                &&& final(self).cursor() == advance(
                    old(self).cursor(),
                    old(self).source@[old(self).position as int],
                )
            },
            old(self).position >= old(self).length ==> r is None && *final(self) == *old(self),
    {
        if self.position < self.length {
            let c = self.source.get_char(self.position);
            self.position = self.position + 1;
            if c == '\n' {
                self.current_line = self.current_line + 1;
                self.current_column = 1;
            } else {
                self.current_column = self.current_column + 1;
            }
            Some(c)
        } else {
            None
        }
    }

    /// Consume the maximal run of digits that starts under the cursor.
    fn eat_digits(&mut self)
        requires
            old(self).wf(),
            old(self).position < old(self).source@.len(),
            is_digit_char(old(self).source@[old(self).position as int]),
        ensures
            final(self).wf(),
            final(self).source == old(self).source,
            final(self).length == old(self).length,
            final(self).peeked == old(self).peeked,
            old(self).position < final(self).position,
            final(self).position as int == digits_end(old(self).source@, old(self).position as int),
            final(self).current_line == old(self).current_line,
            final(self).current_column as int == old(self).current_column + (final(self).position
                - old(self).position),
    {
        loop
            invariant
                self.wf(),
                self.source == old(self).source,
                self.length == old(self).length,
                self.peeked == old(self).peeked,
                old(self).position <= self.position,
                digits_end(self.source@, old(self).position as int) == digits_end(
                    self.source@,
                    self.position as int,
                ),
                self.current_line == old(self).current_line,
                self.current_column as int == old(self).current_column + (self.position
                    - old(self).position),
            ensures
                self.position == self.length || !is_digit_char(
                    self.source@[self.position as int],
                ),
            decreases self.length - self.position,
        {
            let go: bool = match self.peek_char() {
                Some(c) => is_digit(c),
                None => false,
            };
            if !go {
                break ;
            }
            let _ = self.next_char();
        }
        proof {
            lemma_digits_end(self.source@, old(self).position as int);
        }
    }

    /// Consume the maximal run of letters that starts under the cursor.
    fn eat_letters(&mut self)
        requires
            old(self).wf(),
            old(self).position < old(self).source@.len(),
            is_alpha_char(old(self).source@[old(self).position as int]),
        ensures
            final(self).wf(),
            final(self).source == old(self).source,
            final(self).length == old(self).length,
            final(self).peeked == old(self).peeked,
            old(self).position < final(self).position,
            final(self).position as int == letters_end(old(self).source@, old(self).position as int),
            final(self).current_line == old(self).current_line,
            final(self).current_column as int == old(self).current_column + (final(self).position
                - old(self).position),
    {
        loop
            invariant
                self.wf(),
                self.source == old(self).source,
                self.length == old(self).length,
                self.peeked == old(self).peeked,
                old(self).position <= self.position,
                letters_end(self.source@, old(self).position as int) == letters_end(
                    self.source@,
                    self.position as int,
                ),
                self.current_line == old(self).current_line,
                self.current_column as int == old(self).current_column + (self.position
                    - old(self).position),
            ensures
                self.position == self.length || !is_alpha_char(
                    self.source@[self.position as int],
                ),
            decreases self.length - self.position,
        {
            let go: bool = match self.peek_char() {
                Some(c) => is_alpha(c),
                None => false,
            };
            if !go {
                break ;
            }
            let _ = self.next_char();
        }
        proof {
            lemma_letters_end(self.source@, old(self).position as int);
        }
    }

    /// Skip whitespace and scan the next token fresh, without touching
    /// the lookahead cache.
    fn scan_token(&mut self) -> (r: Result<Option<Token>, String>)
        requires
            old(self).wf(),
            old(self).peeked is None,
        ensures
            final(self).wf(),
            final(self).source == old(self).source,
            final(self).length == old(self).length,
            final(self).peeked is None,
            ({
                let m = old(self).stream();
                &&& m.toks.len() > 0 ==> (r matches Ok(Some(t)) && t@ == m.toks[0] && final(self).stream() == stream_tail(m))
                &&& m.toks.len() == 0 && m.bad is None ==> (r matches Ok(None) && final(self).stream() == m)
                &&& m.toks.len() == 0 && m.bad is Some ==> (r matches Err(msg) && msg@
                    == lex_error_msg(m.bad->0) && final(self).stream() == m)
            }),
    {
        let ghost s = self.source@;
        let ghost cur0 = self.cursor();
        let entry_position = self.position;
        let entry_line = self.current_line;
        let entry_column = self.current_column;
        loop
            invariant
                self.wf(),
                self.source == old(self).source,
                self.length == old(self).length,
                self.peeked == old(self).peeked,
                s == self.source@,
                cur0.pos <= self.position,
                skip_ws(s, cur0) == skip_ws(s, self.cursor()),
            ensures
                self.position == self.length || !is_space_char(self.source@[self.position as int]),
            decreases self.length - self.position,
        {
            let ghost pre = self.cursor();
            let go: bool = match self.peek_char() {
                Some(c) => is_space(c),
                None => false,
            };
            if !go {
                break ;
            }
            let _ = self.next_char();
            proof {
                assert(skip_ws(s, pre) == skip_ws(s, self.cursor()));
            }
        }
        let ghost cur1 = self.cursor();
        proof {
            assert(skip_ws(s, cur1) == cur1);
            assert(cur1 == skip_ws(s, cur0));
        }
        let start = self.position;
        let line = self.current_line;
        let column = self.current_column;
        match self.peek_char() {
            None => {
                proof {
                    assert(scan_at(s, cur1) is End);
                    assert(old(self).stream() == StreamModel {
                        toks: Seq::<SpecToken>::empty(),
                        bad: None::<SpecLexError>,
                    });
                    assert(self.stream() == old(self).stream());
                }
                Ok(None)
            },
            Some(c) => {
                if is_digit(c) {
                    self.eat_digits();
                    let ghost d = self.position as int;
                    let dot: bool = match self.peek_char() {
                        Some(c2) => c2 == '.',
                        None => false,
                    };
                    if dot {
                        let dot_line = self.current_line;
                        let dot_column = self.current_column;
                        let _ = self.next_char();
                        let frac: bool = match self.peek_char() {
                            Some(c3) => is_digit(c3),
                            None => false,
                        };
                        if !frac {
                            proof {
                                assert(digits_end(s, d + 1) == d + 1);
                                let e = SpecLexError {
                                    c: '.',
                                    line: cur1.line,
                                    column: cur1.column + (d - cur1.pos),
                                };
                                assert(scan_at(s, cur1) == Scan::Bad(e));
                                assert(old(self).stream() == StreamModel {
                                    toks: Seq::<SpecToken>::empty(),
                                    bad: Some(e),
                                });
                            }
                            let msg = lex_error_string('.', dot_line, dot_column);
                            self.position = entry_position;
                            self.current_line = entry_line;
                            self.current_column = entry_column;
                            return Err(msg);
                        }
                        self.eat_digits();
                        proof {
                            lemma_digits_end(s, d + 1);
                            lemma_digits_end(s, d + 2);
                        }
                    }
                    let text = self.source.substring_char(start, self.position).to_owned();
                    let t = Token::new(TokenKind::Number, text, start, self.position, line, column);
                    proof {
                        let len = (self.position - start) as int;
                        assert(scan_at(s, cur1) == token_at(s, cur1, TokenKind::Number, len));
                        assert(scan_at(s, cur1) matches Scan::Tok { token, next } && token =~= t@
                            && next == self.cursor());
                        assert(next_token(s, cur0) == (Scan::Tok {
                            token: t@,
                            next: self.cursor(),
                        }));
                        lemma_stream_step(s, cur0, t@, self.cursor());
                    }
                    Ok(Some(t))
                } else if is_alpha(c) {
                    self.eat_letters();
                    let text = self.source.substring_char(start, self.position).to_owned();
                    let t = Token::new(
                        TokenKind::Identifier,
                        text,
                        start,
                        self.position,
                        line,
                        column,
                    );
                    proof {
                        let len = (self.position - start) as int;
                        assert(scan_at(s, cur1) == token_at(s, cur1, TokenKind::Identifier, len));
                        assert(scan_at(s, cur1) matches Scan::Tok { token, next } && token =~= t@
                            && next == self.cursor());
                        assert(next_token(s, cur0) == (Scan::Tok {
                            token: t@,
                            next: self.cursor(),
                        }));
                        lemma_stream_step(s, cur0, t@, self.cursor());
                    }
                    Ok(Some(t))
                } else {
                    let kind: Option<TokenKind> = if c == '+' {
                        Some(TokenKind::Plus)
                    } else if c == '-' {
                        Some(TokenKind::Minus)
                    } else if c == '*' {
                        Some(TokenKind::Times)
                    } else if c == '/' {
                        Some(TokenKind::Divide)
                    } else if c == '^' {
                        Some(TokenKind::Exponent)
                    } else if c == '(' {
                        Some(TokenKind::LParen)
                    } else if c == ')' {
                        Some(TokenKind::RParen)
                    } else {
                        None
                    };
                    match kind {
                        Some(k) => {
                            let _ = self.next_char();
                            let text = self.source.substring_char(start, self.position).to_owned();
                            let t = Token::new(k, text, start, self.position, line, column);
                            proof {
                                assert(scan_at(s, cur1) == token_at(s, cur1, k, 1));
                                assert(scan_at(s, cur1) matches Scan::Tok { token, next } && token
                                    =~= t@ && next == self.cursor());
                                assert(next_token(s, cur0) == (Scan::Tok {
                                    token: t@,
                                    next: self.cursor(),
                                }));
                                lemma_stream_step(s, cur0, t@, self.cursor());
                            }
                            Ok(Some(t))
                        },
                        None => {
                            proof {
                                let e = SpecLexError { c, line: cur1.line, column: cur1.column };
                                assert(scan_at(s, cur1) == Scan::Bad(e));
                                assert(old(self).stream() == StreamModel {
                                    toks: Seq::<SpecToken>::empty(),
                                    bad: Some(e),
                                });
                            }
                            let msg = lex_error_string(c, line, column);
                            self.position = entry_position;
                            self.current_line = entry_line;
                            self.current_column = entry_column;
                            Err(msg)
                        },
                    }
                }
            },
        }
    }

    /// Look at the next token without consuming it; the first peek caches
    /// it, so repeated peeks are cheap and idempotent.  A lexical error
    /// in place of a next token is reported as `Err`.
    pub fn peek(&mut self) -> (r: Result<Option<Token>, String>)
        requires
            old(self).wf(),
        ensures
            final(self).wf(),
            final(self).src() == old(self).src(),
            ({
                let m = old(self).stream();
                &&& m.toks.len() > 0 ==> (r matches Ok(Some(t)) && t@ == m.toks[0] && final(self).stream() == m)
                &&& m.toks.len() == 0 && m.bad is None ==> (r matches Ok(None) && final(self).stream() == m)
                &&& m.toks.len() == 0 && m.bad is Some ==> (r matches Err(msg) && msg@
                    == lex_error_msg(m.bad->0) && final(self).stream() == m)
            }),
    {
        let ghost m = old(self).stream();
        match &self.peeked {
            Some(t) => {
                let r = t.clone();
                proof {
                    assert(m.toks[0] == t@);
                }
                Ok(Some(r))
            },
            None => {
                match self.scan_token() {
                    Err(e) => Err(e),
                    Ok(None) => Ok(None),
                    Ok(Some(t)) => {
                        let r = t.clone();
                        proof {
                            assert(m.toks.len() > 0);
                        }
                        self.peeked = Some(t);
                        proof {
                            assert(self.stream().toks =~= m.toks);
                            assert(self.stream() =~= m);
                        }
                        Ok(Some(r))
                    },
                }
            },
        }
    }

    /// Consume and return the next token; `None` at the end of the
    /// input, `Err` on a lexical error.
    pub fn next(&mut self) -> (r: Result<Option<Token>, String>)
        requires
            old(self).wf(),
        ensures
            final(self).wf(),
            final(self).src() == old(self).src(),
            ({
                let m = old(self).stream();
                &&& m.toks.len() > 0 ==> (r matches Ok(Some(t)) && t@ == m.toks[0] && final(self).stream() == stream_tail(m))
                &&& m.toks.len() == 0 && m.bad is None ==> (r matches Ok(None) && final(self).stream() == m)
                &&& m.toks.len() == 0 && m.bad is Some ==> (r matches Err(msg) && msg@
                    == lex_error_msg(m.bad->0) && final(self).stream() == m)
            }),
    {
        let ghost m = old(self).stream();
        let cached = self.peeked.take();
        match cached {
            Some(t) => {
                proof {
                    assert(m.toks[0] == t@);
                    assert(self.stream().toks =~= stream_tail(m).toks);
                    assert(self.stream() =~= stream_tail(m));
                }
                Ok(Some(t))
            },
            None => self.scan_token(),
        }
    }

    /// Consume the next token and require it to be of the given kind;
    /// any other token, the end of the input, or a lexical error is an
    /// error.
    pub fn expect(&mut self, kind: TokenKind) -> (r: Result<Token, String>)
        requires
            old(self).wf(),
        ensures
            final(self).wf(),
            final(self).src() == old(self).src(),
            ({
                let m = old(self).stream();
                &&& m.toks.len() > 0 && m.toks[0].kind == kind ==> (r matches Ok(t) && t@
                    == m.toks[0] && final(self).stream() == stream_tail(m))
                &&& m.toks.len() > 0 && m.toks[0].kind != kind ==> (r matches Err(msg) && msg@
                    == token_error_msg(m.toks[0]))
                &&& m.toks.len() == 0 && m.bad is None ==> (r matches Err(msg) && msg@
                    == eof_msg())
                &&& m.toks.len() == 0 && m.bad is Some ==> (r matches Err(msg) && msg@
                    == lex_error_msg(m.bad->0) && final(self).stream() == m)
            }),
    {
        match self.next() {
            Err(e) => Err(e),
            Ok(None) => Err(String::from_str("Unexpected EOF")),
            Ok(Some(t)) => {
                if t.kind == kind {
                    Ok(t)
                } else {
                    Err(t.error())
                }
            },
        }
    }
}

} // verus!
