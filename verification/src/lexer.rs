//! The lexer: from source text to located tokens.
//!
//! The lexer never fails. White space and `//` comments are skipped, every
//! other character ends up in some token, and what the language does not
//! know becomes an `Unknown` token for the parser to report.

use vstd::prelude::*;
use vstd::string::*;
use crate::chars::{
    byte_len, byte_offset, char_width, chars_of, digit_value, is_digit, is_digit_char,
    is_ident_part, is_ident_part_char, is_ident_start, is_ident_start_char, is_space,
    is_space_char, lemma_byte_len_is_encoded_len, lemma_byte_offset_monotonic,
};
use crate::span::{Span, Spanned};
use crate::text::{string_from_chars, text_is};
use crate::token::{tokens_view, Token, TokenView};

verus! {

/// The classes of characters that the lexer skips over in runs.
#[derive(Clone, Copy, Debug, PartialEq, Eq, Structural)]
pub enum CharClass {
    /// ASCII decimal digits.
    Digit,
    /// Letters, digits and the underscore.
    IdentPart,
    /// White space.
    Space,
    /// Everything but the line feed.
    NotNewline,
}

impl CharClass {
    /// Whether `c` belongs to the class.
    pub open spec fn holds(self, c: char) -> bool {
        match self {
            CharClass::Digit => is_digit(c),
            CharClass::IdentPart => is_ident_part(c),
            CharClass::Space => is_space(c),
            CharClass::NotNewline => c != '\n',
        }
    }

    /// Whether `c` belongs to the class.
    pub fn test(self, c: char) -> (b: bool)
        ensures
            b == self.holds(c),
    {
        match self {
            CharClass::Digit => is_digit_char(c),
            CharClass::IdentPart => is_ident_part_char(c),
            CharClass::Space => is_space_char(c),
            CharClass::NotNewline => c != '\n',
        }
    }
}

/// The first index at or after `i` whose character is not in `class`, or the
/// length of the text if there is none.
pub open spec fn scan(s: Seq<char>, i: int, class: CharClass) -> int
    decreases s.len() - i,
{
    if 0 <= i < s.len() && class.holds(s[i]) {
        scan(s, i + 1, class)
    } else {
        i
    }
}

/// Where a `//` comment that starts at `i` ends: before the line feed or at
/// the end of the text. `i` itself where no comment starts.
pub open spec fn after_comment(s: Seq<char>, i: int) -> int {
    if 0 <= i && i + 1 < s.len() && s[i] == '/' && s[i + 1] == '/' {
        scan(s, i + 2, CharClass::NotNewline)
    } else {
        i
    }
}

/// The first index at or after `i` that is neither white space nor inside a
/// comment.
pub open spec fn after_trivia(s: Seq<char>, i: int) -> int
    decreases s.len() - i,
{
    let j = after_comment(s, scan(s, i, CharClass::Space));
    if i < j <= s.len() {
        after_trivia(s, j)
    } else {
        i
    }
}

/// Where a number ends and whether it is written as a float.
pub struct NumberShape {
    pub end: int,
    pub float: bool,
}

/// The shape of the number whose digits start at `i` (after the sign, if
/// there is one): digits, then optionally a dot and digits, then optionally
/// an exponent mark, a sign and digits. A dot or an exponent makes a float.
pub open spec fn number_shape(s: Seq<char>, i: int) -> NumberShape {
    let a = scan(s, i, CharClass::Digit);
    let dot = 0 <= a < s.len() && s[a] == '.';
    let b = if dot {
        scan(s, a + 1, CharClass::Digit)
    } else {
        a
    };
    let exp = 0 <= b < s.len() && (s[b] == 'e' || s[b] == 'E');
    let c = if exp {
        let d = if b + 1 < s.len() && (s[b + 1] == '+' || s[b + 1] == '-') {
            b + 2
        } else {
            b + 1
        };
        scan(s, d, CharClass::Digit)
    } else {
        b
    };
    NumberShape { end: c, float: dot || exp }
}

/// The character that an escape with `c` after the backslash stands for.
pub open spec fn unescape(c: char) -> char {
    if c == 'n' {
        '\n'
    } else if c == 't' {
        '\t'
    } else if c == 'r' {
        '\r'
    } else {
        c
    }
}

/// What a string literal holds and where its body ends.
pub struct StringBody {
    pub content: Seq<char>,
    pub end: int,
}

/// The body of a string literal from `i` on, `i` being after the opening
/// quote. The body ends before the closing quote, or at the end of the text
/// when the literal is not closed.
pub open spec fn string_body(s: Seq<char>, i: int) -> StringBody
    decreases s.len() - i,
{
    if !(0 <= i < s.len()) {
        StringBody { content: Seq::empty(), end: i }
    } else if s[i] == '"' {
        StringBody { content: Seq::empty(), end: i }
    } else if s[i] == '\\' {
        if i + 1 < s.len() {
            let rest = string_body(s, i + 2);
            StringBody { content: seq![unescape(s[i + 1])] + rest.content, end: rest.end }
        } else {
            StringBody { content: Seq::empty(), end: i + 1 }
        }
    } else {
        let rest = string_body(s, i + 1);
        StringBody { content: seq![s[i]] + rest.content, end: rest.end }
    }
}

/// Whether every character of `s` is a decimal digit.
pub open spec fn all_digits(s: Seq<char>) -> bool {
    forall|k: int| 0 <= k < s.len() ==> is_digit(#[trigger] s[k])
}

/// The number that the decimal digits `s` write.
pub open spec fn decimal_value(s: Seq<char>) -> int
    decreases s.len(),
{
    if s.len() == 0 {
        0
    } else {
        decimal_value(s.drop_last()) * 10 + digit_value(s.last())
    }
}

/// Whether `text` names an integer type: `i` or `u`, then decimal digits
/// that write a width from 1 to 64.
pub open spec fn is_int_width(text: Seq<char>) -> bool {
    &&& text.len() >= 2
    &&& text[0] == 'i' || text[0] == 'u'
    &&& all_digits(text.skip(1))
    &&& 1 <= decimal_value(text.skip(1)) <= 64
}

/// The token that a word stands for. An integer type goes before the
/// keywords, and what is neither is an identifier.
pub open spec fn word_token(text: Seq<char>) -> TokenView {
    if is_int_width(text) {
        TokenView::IntWidth { signed: text[0] == 'i', width: decimal_value(text.skip(1)) as u8 }
    } else if text == "match"@ {
        TokenView::Match
    } else if text == "enum"@ {
        TokenView::Enum
    } else if text == "struct"@ {
        TokenView::Struct
    } else if text == "CString"@ {
        TokenView::CString
    } else if text == "HebrewString"@ {
        TokenView::HebrewString
    } else if text == "f32"@ {
        TokenView::F32
    } else if text == "f64"@ {
        TokenView::F64
    } else {
        TokenView::Identifier(text)
    }
}

/// The token that a single sign stands for, `=` aside.
pub open spec fn symbol_token(c: char) -> TokenView {
    if c == '{' {
        TokenView::LBrace
    } else if c == '}' {
        TokenView::RBrace
    } else if c == '[' {
        TokenView::LBracket
    } else if c == ']' {
        TokenView::RBracket
    } else if c == '(' {
        TokenView::LParen
    } else if c == ')' {
        TokenView::RParen
    } else if c == ':' {
        TokenView::Colon
    } else if c == ',' {
        TokenView::Comma
    } else if c == ';' {
        TokenView::Semicolon
    } else {
        TokenView::Unknown(c)
    }
}

/// A token and the index of the character after it.
pub struct Lexeme {
    pub token: TokenView,
    pub end: int,
}

/// The number token that starts at `i`, with its digits from `digits` on.
pub open spec fn number_lexeme(s: Seq<char>, i: int, digits: int) -> Lexeme {
    let shape = number_shape(s, digits);
    let text = s.subrange(i, shape.end);
    Lexeme {
        token: if shape.float {
            TokenView::Float(text)
        } else {
            TokenView::Integer(text)
        },
        end: shape.end,
    }
}

/// The token that starts at `i`, where `i` is the index of a character that
/// is not skipped.
pub open spec fn lexeme_at(s: Seq<char>, i: int) -> Lexeme
    recommends
        0 <= i < s.len(),
{
    let c = s[i];
    if c == '-' {
        if i + 1 < s.len() && (is_digit(s[i + 1]) || s[i + 1] == '.') {
            number_lexeme(s, i, i + 1)
        } else {
            Lexeme { token: TokenView::Unknown('-'), end: i + 1 }
        }
    } else if is_digit(c) || c == '.' {
        number_lexeme(s, i, i)
    } else if c == '"' {
        let body = string_body(s, i + 1);
        Lexeme {
            token: TokenView::StringLiteral(body.content),
            end: if 0 <= body.end < s.len() && s[body.end] == '"' {
                body.end + 1
            } else {
                body.end
            },
        }
    } else if is_ident_start(c) {
        let end = scan(s, i, CharClass::IdentPart);
        Lexeme { token: word_token(s.subrange(i, end)), end }
    } else if c == '=' {
        if i + 1 < s.len() && s[i + 1] == '>' {
            Lexeme { token: TokenView::FatArrow, end: i + 2 }
        } else {
            Lexeme { token: TokenView::Equal, end: i + 1 }
        }
    } else {
        Lexeme { token: symbol_token(c), end: i + 1 }
    }
}

/// The span in bytes of the characters `s[from..to]`.
pub open spec fn span_of(s: Seq<char>, from: int, to: int) -> Span {
    Span { start: byte_offset(s, from) as usize, end: byte_offset(s, to) as usize }
}

/// The tokens of `s` from the character with index `i` on, each with its
/// span in bytes.
pub open spec fn tokens_from(s: Seq<char>, i: int) -> Seq<(TokenView, Span)>
    decreases s.len() - i,
{
    let j = after_trivia(s, i);
    if 0 <= i <= j < s.len() {
        let lx = lexeme_at(s, j);
        if j < lx.end <= s.len() {
            seq![(lx.token, span_of(s, j, lx.end))] + tokens_from(s, lx.end)
        } else {
            Seq::empty()
        }
    } else {
        Seq::empty()
    }
}

/// The tokens of the whole text `s`.
pub open spec fn tokenize_spec(s: Seq<char>) -> Seq<(TokenView, Span)> {
    tokens_from(s, 0)
}

/// A run of `class` ends inside the text and not before it starts.
pub proof fn lemma_scan_bounds(s: Seq<char>, i: int, class: CharClass)
    requires
        0 <= i <= s.len(),
    ensures
        i <= scan(s, i, class) <= s.len(),
        forall|k: int| i <= k < scan(s, i, class) ==> class.holds(#[trigger] s[k]),
        scan(s, i, class) < s.len() ==> !class.holds(s[scan(s, i, class)]),
    decreases s.len() - i,
{
    if i < s.len() && class.holds(s[i]) {
        lemma_scan_bounds(s, i + 1, class);
    }
}

/// Skipping white space and comments ends inside the text and not before
/// it starts.
pub proof fn lemma_after_trivia_bounds(s: Seq<char>, i: int)
    requires
        0 <= i <= s.len(),
    ensures
        i <= after_trivia(s, i) <= s.len(),
    decreases s.len() - i,
{
    let j = after_comment(s, scan(s, i, CharClass::Space));
    if i < j <= s.len() {
        lemma_after_trivia_bounds(s, j);
    }
}

/// A number ends inside the text and not before its digits start.
pub proof fn lemma_number_bounds(s: Seq<char>, i: int)
    requires
        0 <= i <= s.len(),
    ensures
        i <= number_shape(s, i).end <= s.len(),
        i < s.len() && (is_digit(s[i]) || s[i] == '.') ==> i < number_shape(s, i).end,
{
    let a = scan(s, i, CharClass::Digit);
    lemma_scan_bounds(s, i, CharClass::Digit);
    let dot = 0 <= a < s.len() && s[a] == '.';
    if dot {
        lemma_scan_bounds(s, a + 1, CharClass::Digit);
    }
    let b = if dot {
        scan(s, a + 1, CharClass::Digit)
    } else {
        a
    };
    let exp = 0 <= b < s.len() && (s[b] == 'e' || s[b] == 'E');
    if exp {
        let d = if b + 1 < s.len() && (s[b + 1] == '+' || s[b + 1] == '-') {
            b + 2
        } else {
            b + 1
        };
        lemma_scan_bounds(s, d, CharClass::Digit);
    }
}

/// The body of a string literal ends inside the text and not before it
/// starts.
pub proof fn lemma_string_body_bounds(s: Seq<char>, i: int)
    requires
        0 <= i <= s.len(),
    ensures
        i <= string_body(s, i).end <= s.len(),
    decreases s.len() - i,
{
    if i < s.len() && s[i] != '"' {
        if s[i] == '\\' {
            if i + 1 < s.len() {
                lemma_string_body_bounds(s, i + 2);
            }
        } else {
            lemma_string_body_bounds(s, i + 1);
        }
    }
}

/// Every token takes at least one character and ends inside the text.
pub proof fn lemma_lexeme_bounds(s: Seq<char>, i: int)
    requires
        0 <= i < s.len(),
    ensures
        i < lexeme_at(s, i).end <= s.len(),
{
    lemma_number_bounds(s, i);
    lemma_number_bounds(s, i + 1);
    lemma_string_body_bounds(s, i + 1);
    lemma_scan_bounds(s, i, CharClass::IdentPart);
}

/// The span of every token lies inside the text, is not empty, and starts
/// at or after the place from which the tokens were read.
pub proof fn lemma_token_spans(s: Seq<char>, i: int)
    requires
        0 <= i <= s.len(),
        byte_len(s) <= usize::MAX,
    ensures
        forall|k: int|
            0 <= k < tokens_from(s, i).len() ==> (#[trigger] tokens_from(s, i)[k]).1.within(
                byte_len(s),
            ) && byte_offset(s, i) <= tokens_from(s, i)[k].1.start < tokens_from(s, i)[k].1.end,
    decreases s.len() - i,
{
    lemma_after_trivia_bounds(s, i);
    let j = after_trivia(s, i);
    if j < s.len() {
        lemma_lexeme_bounds(s, j);
        let lx = lexeme_at(s, j);
        lemma_token_spans(s, lx.end);
        lemma_byte_offset_monotonic(s, 0, i);
        lemma_byte_offset_monotonic(s, i, j);
        lemma_byte_offset_monotonic(s, j, lx.end);
        lemma_byte_offset_monotonic(s, lx.end, s.len() as int);
        let rest = tokens_from(s, lx.end);
        let all = tokens_from(s, i);
        assert(all == seq![(lx.token, span_of(s, j, lx.end))] + rest);
        assert forall|k: int| 0 <= k < all.len() implies (#[trigger] all[k]).1.within(
            byte_len(s),
        ) && byte_offset(s, i) <= all[k].1.start < all[k].1.end by {
            if k > 0 {
                assert(all[k] == rest[k - 1]);
            }
        }
    }
}

/// Whether the text of a token is what was written. It is for every token
/// but a string literal, whose text is what the literal stands for, and an
/// integer type, which may have been written with zeros before its width.
pub open spec fn written_as_shown(t: TokenView) -> bool {
    !(t is StringLiteral) && !(t is IntWidth)
}

/// A token reads as it was written: its text is the stretch of the source
/// that it was read from.
pub proof fn lemma_lexeme_text(s: Seq<char>, i: int)
    requires
        0 <= i < s.len(),
        written_as_shown(lexeme_at(s, i).token),
    ensures
        lexeme_at(s, i).token.text() == s.subrange(i, lexeme_at(s, i).end),
{
    reveal_strlit("{");
    reveal_strlit("}");
    reveal_strlit("[");
    reveal_strlit("]");
    reveal_strlit("(");
    reveal_strlit(")");
    reveal_strlit(":");
    reveal_strlit(",");
    reveal_strlit(";");
    reveal_strlit("=");
    reveal_strlit("=>");
    lemma_lexeme_bounds(s, i);
    let lx = lexeme_at(s, i);
    assert(lx.token.text() =~= s.subrange(i, lx.end));
}

/// Whether a token is no integer type or one of a width from 1 to 64.
pub open spec fn width_in_range(t: TokenView) -> bool {
    t matches TokenView::IntWidth { width, .. } ==> 1 <= width <= 64
}

/// The integer types among the tokens of a text have widths from 1 to 64.
pub proof fn lemma_token_widths(s: Seq<char>, i: int)
    requires
        0 <= i <= s.len(),
    ensures
        forall|k: int|
            0 <= k < tokens_from(s, i).len() ==> width_in_range(
                (#[trigger] tokens_from(s, i)[k]).0,
            ),
    decreases s.len() - i,
{
    lemma_after_trivia_bounds(s, i);
    let j = after_trivia(s, i);
    if j < s.len() {
        lemma_lexeme_bounds(s, j);
        let lx = lexeme_at(s, j);
        lemma_token_widths(s, lx.end);
        let rest = tokens_from(s, lx.end);
        let all = tokens_from(s, i);
        assert(all == seq![(lx.token, span_of(s, j, lx.end))] + rest);
        assert(width_in_range(lx.token));
        assert forall|k: int| 0 <= k < all.len() implies width_in_range((#[trigger] all[k]).0) by {
            if k > 0 {
                assert(all[k] == rest[k - 1]);
            }
        }
    }
}

/// The lexer's state: the text and how far it has been read.
pub struct Lexer {
    chars: Vec<char>,
    pos: usize,
    offset: usize,
}

impl Lexer {
    /// The text that is being read, as characters.
    pub closed spec fn source(&self) -> Seq<char> {
        self.chars@
    }

    /// The index of the next character to read.
    pub closed spec fn cursor(&self) -> int {
        self.pos as int
    }

    /// The cursor is inside the text, the byte offset kept beside it is the
    /// cursor's, and every byte offset of the text fits the machine word.
    pub closed spec fn wf(&self) -> bool {
        &&& self.pos <= self.chars.len()
        &&& self.offset == byte_offset(self.chars@, self.pos as int)
        &&& byte_len(self.chars@) <= usize::MAX
    }

    /// A lexer at the start of `input`.
    pub fn new(input: &str) -> (lx: Lexer)
        ensures
            lx.wf(),
            lx.source() == input@,
            lx.cursor() == 0,
    {
        let chars = chars_of(input);
        let n = input.as_bytes().len();
        proof {
            lemma_byte_len_is_encoded_len(chars@);
        }
        Lexer { chars, pos: 0, offset: 0 }
    }

    /// The next character, which stays unread.
    pub fn peek(&self) -> (c: Option<char>)
        requires
            self.wf(),
        ensures
            c == if self.cursor() < self.source().len() {
                Some(self.source()[self.cursor()])
            } else {
                None
            },
    {
        if self.pos < self.chars.len() {
            Some(self.chars[self.pos])
        } else {
            None
        }
    }

    /// The character after the next one, which stays unread.
    fn peek_second(&self) -> (c: Option<char>)
        requires
            self.wf(),
        ensures
            c == if self.cursor() + 1 < self.source().len() {
                Some(self.source()[self.cursor() + 1])
            } else {
                None
            },
    {
        if self.pos < self.chars.len() && self.pos + 1 < self.chars.len() {
            Some(self.chars[self.pos + 1])
        } else {
            None
        }
    }

    /// Reads the next character, if there is one.
    pub fn bump(&mut self) -> (c: Option<char>)
        requires
            old(self).wf(),
        ensures
            final(self).wf(),
            final(self).source() == old(self).source(),
            c == if old(self).cursor() < old(self).source().len() {
                Some(old(self).source()[old(self).cursor()])
            } else {
                None
            },
            final(self).cursor() == if c is Some {
                old(self).cursor() + 1
            } else {
                old(self).cursor()
            },
    {
        if self.pos < self.chars.len() {
            let c = self.chars[self.pos];
            proof {
                lemma_byte_offset_monotonic(
                    self.chars@,
                    self.pos as int + 1,
                    self.chars@.len() as int,
                );
            }
            self.offset = self.offset + char_width(c);
            self.pos = self.pos + 1;
            Some(c)
        } else {
            None
        }
    }

    /// Reads on while the next character belongs to `class`.
    pub fn consume_while(&mut self, class: CharClass)
        requires
            old(self).wf(),
        ensures
            final(self).wf(),
            final(self).source() == old(self).source(),
            final(self).cursor() == scan(old(self).source(), old(self).cursor(), class),
    {
        loop
            invariant
                self.wf(),
                self.source() == old(self).source(),
                scan(self.source(), self.cursor(), class) == scan(
                    old(self).source(),
                    old(self).cursor(),
                    class,
                ),
            ensures
                self.wf(),
                self.source() == old(self).source(),
                self.cursor() == scan(old(self).source(), old(self).cursor(), class),
            decreases self.source().len() - self.cursor(),
        {
            match self.peek() {
                Some(c) => {
                    if class.test(c) {
                        self.bump();
                    } else {
                        break ;
                    }
                },
                None => {
                    break ;
                },
            }
        }
    }

    /// Reads a number whose token started at the character with index
    /// `start`: the cursor stands after the sign, if there is one. Gives
    /// nothing when no character belongs to the token.
    pub fn lex_number(&mut self, start: usize) -> (tok: Option<Token>)
        requires
            old(self).wf(),
            start <= old(self).cursor(),
        ensures
            final(self).wf(),
            final(self).source() == old(self).source(),
            final(self).cursor() == number_shape(old(self).source(), old(self).cursor()).end,
            final(self).cursor() == start ==> tok is None,
            final(self).cursor() != start ==> tok is Some && tok->0@ == number_lexeme(
                old(self).source(),
                start as int,
                old(self).cursor(),
            ).token,
    {
        let mut float = false;
        self.consume_while(CharClass::Digit);
        if self.peek() == Some('.') {
            float = true;
            self.bump();
            self.consume_while(CharClass::Digit);
        }
        let mark = self.peek();
        if mark == Some('e') || mark == Some('E') {
            float = true;
            self.bump();
            let sign = self.peek();
            if sign == Some('+') || sign == Some('-') {
                self.bump();
            }
            self.consume_while(CharClass::Digit);
        }
        proof {
            lemma_number_bounds(old(self).source(), old(self).cursor());
        }
        if self.pos == start {
            return None;
        }
        let text = string_from_chars(&self.chars, start, self.pos);
        Some(
            if float {
                Token::Float(text)
            } else {
                Token::Integer(text)
            },
        )
    }

    /// Skips white space.
    pub fn skip_whitespace(&mut self)
        requires
            old(self).wf(),
        ensures
            final(self).wf(),
            final(self).source() == old(self).source(),
            final(self).cursor() == scan(
                old(self).source(),
                old(self).cursor(),
                CharClass::Space,
            ),
    {
        self.consume_while(CharClass::Space);
    }

    /// Skips a `//` comment, if one starts at the cursor, up to the end of
    /// its line.
    pub fn skip_comment(&mut self)
        requires
            old(self).wf(),
        ensures
            final(self).wf(),
            final(self).source() == old(self).source(),
            final(self).cursor() == after_comment(old(self).source(), old(self).cursor()),
    {
        if self.peek() == Some('/') && self.peek_second() == Some('/') {
            self.bump();
            self.bump();
            self.consume_while(CharClass::NotNewline);
        }
    }

    /// Skips white space and comments until neither follows.
    pub fn skip_trivia(&mut self)
        requires
            old(self).wf(),
        ensures
            final(self).wf(),
            final(self).source() == old(self).source(),
            final(self).cursor() == after_trivia(old(self).source(), old(self).cursor()),
    {
        loop
            invariant
                self.wf(),
                self.source() == old(self).source(),
                after_trivia(self.source(), self.cursor()) == after_trivia(
                    old(self).source(),
                    old(self).cursor(),
                ),
            ensures
                self.wf(),
                self.source() == old(self).source(),
                self.cursor() == after_trivia(old(self).source(), old(self).cursor()),
            decreases self.source().len() - self.cursor(),
        {
            let before = self.pos;
            proof {
                lemma_scan_bounds(self.source(), self.cursor(), CharClass::Space);
            }
            self.skip_whitespace();
            proof {
                let j = self.cursor();
                if j + 2 <= self.source().len() {
                    lemma_scan_bounds(self.source(), j + 2, CharClass::NotNewline);
                }
            }
            self.skip_comment();
            if self.pos == before {
                break ;
            }
        }
    }

    /// Reads the body of a string literal, the cursor being after the
    /// opening quote, and gives what the literal holds.
    fn lex_string_body(&mut self) -> (content: String)
        requires
            old(self).wf(),
        ensures
            final(self).wf(),
            final(self).source() == old(self).source(),
            content@ == string_body(old(self).source(), old(self).cursor()).content,
            final(self).cursor() == string_body(old(self).source(), old(self).cursor()).end,
    {
        let mut content = String::new();
        let ghost whole = string_body(self.source(), self.cursor());
        loop
            invariant
                self.wf(),
                self.source() == old(self).source(),
                whole == string_body(old(self).source(), old(self).cursor()),
                content@ + string_body(self.source(), self.cursor()).content == whole.content,
                string_body(self.source(), self.cursor()).end == whole.end,
            ensures
                self.wf(),
                self.source() == old(self).source(),
                content@ == whole.content,
                self.cursor() == whole.end,
            decreases self.source().len() - self.cursor(),
        {
            let ghost before = content@;
            let ghost here = self.cursor();
            match self.peek() {
                None => {
                    assert(content@ + Seq::<char>::empty() =~= content@);
                    break ;
                },
                Some(c) => {
                    if c == '"' {
                        assert(content@ + Seq::<char>::empty() =~= content@);
                        break ;
                    }
                    if c == '\\' {
                        self.bump();
                        match self.peek() {
                            Some(esc) => {
                                content.push(unescape_char(esc));
                                self.bump();
                                assert(before.push(unescape(esc)) + string_body(
                                    self.source(),
                                    here + 2,
                                ).content =~= before + (seq![unescape(esc)] + string_body(
                                    self.source(),
                                    here + 2,
                                ).content));
                            },
                            None => {
                                assert(content@ + Seq::<char>::empty() =~= content@);
                                break ;
                            },
                        }
                    } else {
                        content.push(c);
                        self.bump();
                        assert(before.push(c) + string_body(self.source(), here + 1).content
                            =~= before + (seq![c] + string_body(self.source(), here + 1).content));
                    }
                },
            }
        }
        content
    }

    /// The token for the word that runs from the character with index
    /// `start` up to the cursor.
    fn word(&self, start: usize) -> (tok: Token)
        requires
            self.wf(),
            start <= self.cursor(),
        ensures
            tok@ == word_token(self.source().subrange(start as int, self.cursor())),
    {
        match int_width(&self.chars, start, self.pos) {
            Some((signed, width)) => Token::IntWidth { signed, width },
            None => {
                let text = string_from_chars(&self.chars, start, self.pos);
                if text_is(&text, "match") {
                    Token::Match
                } else if text_is(&text, "enum") {
                    Token::Enum
                } else if text_is(&text, "struct") {
                    Token::Struct
                } else if text_is(&text, "CString") {
                    Token::CString
                } else if text_is(&text, "HebrewString") {
                    Token::HebrewString
                } else if text_is(&text, "f32") {
                    Token::F32
                } else if text_is(&text, "f64") {
                    Token::F64
                } else {
                    Token::Identifier(text)
                }
            },
        }
    }

    /// Reads the next token, after any white space and comments. Gives
    /// nothing at the end of the text.
    pub fn next_token(&mut self) -> (r: Option<Spanned<Token>>)
        requires
            old(self).wf(),
        ensures
            final(self).wf(),
            final(self).source() == old(self).source(),
            ({
                let s = old(self).source();
                let j = after_trivia(s, old(self).cursor());
                if j < s.len() {
                    &&& r matches Some(t)
                    &&& t.0@ == lexeme_at(s, j).token
                    &&& t.1 == span_of(s, j, lexeme_at(s, j).end)
                    &&& final(self).cursor() == lexeme_at(s, j).end
                } else {
                    &&& r is None
                    &&& final(self).cursor() == j
                }
            }),
    {
        proof {
            lemma_after_trivia_bounds(self.source(), self.cursor());
        }
        self.skip_trivia();
        let start = self.pos;
        let start_offset = self.offset;
        let c = match self.peek() {
            Some(c) => c,
            None => {
                return None;
            },
        };
        proof {
            lemma_lexeme_bounds(self.source(), start as int);
            lemma_number_bounds(self.source(), start as int);
            lemma_number_bounds(self.source(), start as int + 1);
        }
        let tok = if c == '-' {
            let numeric = match self.peek_second() {
                Some(d) => is_digit_char(d) || d == '.',
                None => false,
            };
            self.bump();
            if numeric {
                match self.lex_number(start) {
                    Some(t) => t,
                    None => vstd::pervasive::unreached(),
                }
            } else {
                Token::Unknown('-')
            }
        } else if is_digit_char(c) || c == '.' {
            match self.lex_number(start) {
                Some(t) => t,
                None => vstd::pervasive::unreached(),
            }
        } else if c == '"' {
            self.bump();
            proof {
                lemma_string_body_bounds(self.source(), start as int + 1);
            }
            let content = self.lex_string_body();
            if self.peek() == Some('"') {
                self.bump();
            }
            Token::StringLiteral(content)
        } else if is_ident_start_char(c) {
            proof {
                lemma_scan_bounds(self.source(), start as int, CharClass::IdentPart);
            }
            self.consume_while(CharClass::IdentPart);
            self.word(start)
        } else {
            self.bump();
            if c == '=' {
                if self.peek() == Some('>') {
                    self.bump();
                    Token::FatArrow
                } else {
                    Token::Equal
                }
            } else {
                symbol(c)
            }
        };
        proof {
            lemma_byte_offset_monotonic(self.chars@, start as int, self.pos as int);
            lemma_byte_offset_monotonic(self.chars@, self.pos as int, self.chars@.len() as int);
            lemma_byte_offset_monotonic(self.chars@, 0, start as int);
        }
        Some((tok, Span { start: start_offset, end: self.offset }))
    }

    /// Reads all the tokens that are left, in order.
    pub fn tokenize(&mut self) -> (tokens: Vec<Spanned<Token>>)
        requires
            old(self).wf(),
        ensures
            final(self).wf(),
            final(self).source() == old(self).source(),
            tokens_view(tokens@) == tokens_from(old(self).source(), old(self).cursor()),
    {
        let mut tokens: Vec<Spanned<Token>> = Vec::new();
        let ghost whole = tokens_from(self.source(), self.cursor());
        loop
            invariant
                self.wf(),
                self.source() == old(self).source(),
                whole == tokens_from(old(self).source(), old(self).cursor()),
                tokens_view(tokens@) + tokens_from(self.source(), self.cursor()) == whole,
            ensures
                self.wf(),
                self.source() == old(self).source(),
                tokens_view(tokens@) == whole,
            decreases self.source().len() - self.cursor(),
        {
            let ghost before = tokens@;
            let ghost here = self.cursor();
            proof {
                lemma_after_trivia_bounds(self.source(), here);
                let j = after_trivia(self.source(), here);
                if j < self.source().len() {
                    lemma_lexeme_bounds(self.source(), j);
                }
            }
            match self.next_token() {
                Some(t) => {
                    let ghost item = (t.0@, t.1);
                    tokens.push(t);
                    assert(tokens_view(tokens@) =~= tokens_view(before).push(item));
                    assert(tokens_view(before).push(item) + tokens_from(
                        self.source(),
                        self.cursor(),
                    ) =~= tokens_view(before) + (seq![item] + tokens_from(
                        self.source(),
                        self.cursor(),
                    )));
                },
                None => {
                    assert(tokens_view(tokens@) + Seq::<(TokenView, Span)>::empty()
                        =~= tokens_view(tokens@));
                    break ;
                },
            }
        }
        tokens
    }
}

/// The character that an escape with `c` after the backslash stands for.
pub fn unescape_char(c: char) -> (r: char)
    ensures
        r == unescape(c),
{
    if c == 'n' {
        '\n'
    } else if c == 't' {
        '\t'
    } else if c == 'r' {
        '\r'
    } else {
        c
    }
}

/// The token that a single sign stands for, `=` aside.
pub fn symbol(c: char) -> (tok: Token)
    ensures
        tok@ == symbol_token(c),
{
    if c == '{' {
        Token::LBrace
    } else if c == '}' {
        Token::RBrace
    } else if c == '[' {
        Token::LBracket
    } else if c == ']' {
        Token::RBracket
    } else if c == '(' {
        Token::LParen
    } else if c == ')' {
        Token::RParen
    } else if c == ':' {
        Token::Colon
    } else if c == ',' {
        Token::Comma
    } else if c == ';' {
        Token::Semicolon
    } else {
        Token::Unknown(c)
    }
}

/// Whether the word `chars[from..to]` names an integer type, and if so
/// whether it is signed and how wide it is.
pub fn int_width(chars: &Vec<char>, from: usize, to: usize) -> (r: Option<(bool, u8)>)
    requires
        from <= to <= chars.len(),
    ensures
        r is Some <==> is_int_width(chars@.subrange(from as int, to as int)),
        r matches Some(w) ==> w.0 == (chars@[from as int] == 'i') && w.1 == decimal_value(
            chars@.subrange(from as int, to as int).skip(1),
        ),
{
    let ghost text = chars@.subrange(from as int, to as int);
    if to - from < 2 {
        return None;
    }
    let first = chars[from];
    assert(text[0] == first);
    if first != 'i' && first != 'u' {
        return None;
    }
    let mut value: u32 = 0;
    let mut k: usize = from + 1;
    assert(chars@.subrange(from as int + 1, k as int) =~= Seq::<char>::empty());
    while k < to
        invariant
            from + 1 <= k <= to <= chars.len(),
            all_digits(chars@.subrange(from as int + 1, k as int)),
            value <= 100,
            value < 100 ==> value == decimal_value(chars@.subrange(from as int + 1, k as int)),
            value == 100 ==> decimal_value(chars@.subrange(from as int + 1, k as int)) >= 100,
            text == chars@.subrange(from as int, to as int),
        decreases to - k,
    {
        let c = chars[k];
        let ghost prefix = chars@.subrange(from as int + 1, k as int);
        let ghost longer = chars@.subrange(from as int + 1, k as int + 1);
        assert(longer.drop_last() =~= prefix);
        assert(longer.last() == c);
        if !is_digit_char(c) {
            assert(text.skip(1)[k - from - 1] == c);
            return None;
        }
        let d: u32 = (c as u32) - ('0' as u32);
        let next: u32 = value * 10 + d;
        value = if next > 100 {
            100
        } else {
            next
        };
        assert forall|m: int| 0 <= m < longer.len() implies is_digit(#[trigger] longer[m]) by {
            if m < prefix.len() {
                assert(longer[m] == prefix[m]);
            }
        }
        k += 1;
    }
    assert(text.skip(1) =~= chars@.subrange(from as int + 1, to as int));
    if 1 <= value && value <= 64 {
        Some((first == 'i', value as u8))
    } else {
        None
    }
}

} // verus!
