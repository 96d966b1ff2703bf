//! The lexer: it reads the characters of a source text and gives its tokens,
//! each with its line and the columns at which it starts and ends.

use vstd::prelude::*;
use std::str::Chars;
use vstd::std_specs::iter::IteratorSpec;
use crate::compiler::error::LexicalError;
use crate::compiler::token::{spec_keyword, Token, TokenView};
use crate::vm::utils::{chars_of, string_push};

verus! {

/// The columns at which a token starts and ends.
pub type PostionInLine = (u32, u32);

pub type LineOfCode = u32;

/// A token with its line and its columns.
pub type Spanned = (LineOfCode, Token, PostionInLine);

pub type LexResult = Result<Spanned, LexicalError>;

/// What a token with its place says, as a mathematical value.
pub type SpannedView = (u32, TokenView, (u32, u32));

/// What a token with its place says.
pub open spec fn spanned_view(spanned: Spanned) -> SpannedView {
    (spanned.0, spanned.1@, spanned.2)
}

/// What the lexer holds, as a mathematical value.
pub struct LexModel {
    /// The source.
    pub chars: Seq<char>,
    /// The place of the current character in the source.
    pub cursor: int,
    /// The column of the current character.
    pub pos: u32,
    /// The line of the current character.
    pub loc: u32,
    /// The tokens that were found and not yet handed out.
    pub pending: Seq<SpannedView>,
}

pub struct Lexer {
    chars: Vec<char>,
    cursor: usize,
    pending: Vec<Spanned>,
    current_pos: u32,
    current_loc: u32,
}

impl View for Lexer {
    type V = LexModel;

    closed spec fn view(&self) -> LexModel {
        LexModel {
            chars: self.chars@,
            cursor: self.cursor as int,
            pos: self.current_pos,
            loc: self.current_loc,
            pending: self.pending@.map_values(|s: Spanned| spanned_view(s)),
        }
    }
}

/// Whether Unicode counts a character as alphabetic.
pub uninterp spec fn spec_is_alphabetic(c: char) -> bool;

/// Whether a character is alphabetic, as `char::is_alphabetic` decides.
#[verifier::external_body]
fn char_is_alphabetic(c: char) -> (r: bool)
    ensures
        r == spec_is_alphabetic(c),
{
    c.is_alphabetic()
}

/// The text that an iterator over characters has yet to give, as
/// `Chars::as_str` returns it.
#[verifier::external_body]
fn chars_rest<'a>(chars: &Chars<'a>) -> (r: &'a str)
    ensures
        r@ == chars.remaining(),
{
    chars.as_str()
}

/// Whether a character is a decimal digit.
pub open spec fn is_digit(c: char) -> bool {
    48 <= c as u32 <= 57
}

/// Whether a character can stand inside a name: a letter of the Latin
/// alphabet, a digit or an underscore.
pub open spec fn is_name_char(c: char) -> bool {
    c == '_' || is_digit(c) || 97 <= c as u32 <= 122 || 65 <= c as u32 <= 90
}

/// Whether a character can stand inside a number: a digit or a dot.
pub open spec fn is_number_char(c: char) -> bool {
    c == '.' || is_digit(c)
}

/// One more than a number, or the number where it is the largest.
pub open spec fn next_number(n: u32) -> u32 {
    if n < u32::MAX {
        (n + 1) as u32
    } else {
        n
    }
}

/// The value of the digits of `s` from place `i` on, read after the digits
/// that gave `acc`; there is none where a character is no digit.
pub open spec fn spec_digits_value(s: Seq<char>, i: int, acc: int) -> Option<int>
    decreases s.len() - i,
{
    if i < 0 || i >= s.len() {
        Some(acc)
    } else if is_digit(s[i]) {
        spec_digits_value(s, i + 1, acc * 10 + (s[i] as u32 - 48))
    } else {
        None
    }
}

/// The number that a text spells: digits, after a minus sign or without one,
/// whose value fits 32 bits.
pub open spec fn spec_parse_number(s: Seq<char>) -> Option<i32> {
    if s.len() > 1 && s[0] == '-' {
        match spec_digits_value(s, 1, 0) {
            Some(v) => if -v >= i32::MIN {
                Some((-v) as i32)
            } else {
                None
            },
            None => None,
        }
    } else if s.len() > 0 && s[0] != '-' {
        match spec_digits_value(s, 0, 0) {
            Some(v) => if v <= i32::MAX {
                Some(v as i32)
            } else {
                None
            },
            None => None,
        }
    } else {
        None
    }
}

/// More digits make the value no smaller.
pub proof fn lemma_digits_grow(s: Seq<char>, i: int, acc: int)
    requires
        acc >= 0,
    ensures
        spec_digits_value(s, i, acc) matches Some(v) ==> v >= acc,
    decreases s.len() - i,
{
    if 0 <= i < s.len() && is_digit(s[i]) {
        lemma_digits_grow(s, i + 1, acc * 10 + (s[i] as u32 - 48));
    }
}

/// Reads a text as a number.
pub fn parse_number(s: &Vec<char>) -> (r: Option<i32>)
    ensures
        r == spec_parse_number(s@),
{
    if s.len() == 0 {
        return None;
    }
    let negative = s[0] == '-';
    if negative && s.len() == 1 {
        return None;
    }
    let mut i: usize = if negative {
        1
    } else {
        0
    };
    let ghost start = i as int;
    let mut acc: i64 = 0;
    while i < s.len()
        invariant
            start <= i <= s@.len(),
            s@.len() > 0,
            negative == (s@[0] == '-'),
            negative ==> s@.len() > 1,
            start == (if negative {
                1int
            } else {
                0int
            }),
            0 <= acc <= 0x8000_0000,
            spec_digits_value(s@, start, 0) == spec_digits_value(s@, i as int, acc as int),
        decreases s@.len() - i,
    {
        let u = s[i] as u32;
        if u < 48 || u > 57 {
            return None;
        }
        let next: i64 = acc * 10 + (u - 48) as i64;
        if next > 0x8000_0000 {
            proof {
                lemma_digits_grow(s@, i + 1, next as int);
            }
            return None;
        }
        acc = next;
        i += 1;
    }
    if negative {
        Some((-acc) as i32)
    } else if acc <= 0x7FFF_FFFF {
        Some(acc as i32)
    } else {
        None
    }
}

impl LexModel {
    /// The current character, if the source has not ended.
    pub open spec fn chr0(self) -> Option<char> {
        if 0 <= self.cursor < self.chars.len() {
            Some(self.chars[self.cursor])
        } else {
            None
        }
    }

    /// The character after the current one.
    pub open spec fn chr1(self) -> Option<char> {
        if 0 <= self.cursor + 1 < self.chars.len() {
            Some(self.chars[self.cursor + 1])
        } else {
            None
        }
    }

    /// Whether the cursor stands in the source or at its end.
    pub open spec fn wf(self) -> bool {
        0 <= self.cursor <= self.chars.len()
    }

    /// The lexer after it moved to the next character.
    pub open spec fn advance(self) -> LexModel {
        LexModel {
            cursor: if self.cursor < self.chars.len() {
                self.cursor + 1
            } else {
                self.cursor
            },
            pos: next_number(self.pos),
            ..self
        }
    }

    /// The lexer after a token was found.
    pub open spec fn emit(self, spanned: SpannedView) -> LexModel {
        LexModel { pending: self.pending.push(spanned), ..self }
    }

    /// The lexer after a token of one character was found at the current
    /// place.
    pub open spec fn emit_one(self, token: TokenView) -> LexModel {
        self.emit((self.loc, token, (self.pos, self.pos)))
    }

    /// Whether the current character starts a number: a digit, or a minus
    /// sign before a digit.
    pub open spec fn number_starts(self) -> bool {
        match self.chr0() {
            Some(c) => is_digit(c) || (c == '-' && (self.chr1() matches Some(d) && is_digit(d))),
            None => false,
        }
    }

    /// Whether the text of a string goes on after the current character: the
    /// next character is no quote, or a quote after a backslash.
    pub open spec fn string_continues(self) -> bool {
        match self.chr1() {
            Some(c) => c != '"' || self.chr0() == Some('\\'),
            None => false,
        }
    }

    /// The lexer at the last character of the name that starts at the
    /// current one, and the name.
    pub open spec fn scan_name(self, acc: Seq<char>) -> (LexModel, Seq<char>)
        decreases self.chars.len() - self.cursor,
    {
        if 0 <= self.cursor < self.chars.len() {
            let taken = acc.push(self.chars[self.cursor]);
            if self.chr1() matches Some(c) && is_name_char(c) {
                self.advance().scan_name(taken)
            } else {
                (self, taken)
            }
        } else {
            (self, acc)
        }
    }

    /// The lexer at the last character of the number that starts at the
    /// current one, and the characters of the number.
    pub open spec fn scan_number(self, acc: Seq<char>) -> (LexModel, Seq<char>)
        decreases self.chars.len() - self.cursor,
    {
        if 0 <= self.cursor < self.chars.len() {
            let taken = acc.push(self.chars[self.cursor]);
            if self.chr1() matches Some(c) && is_number_char(c) {
                self.advance().scan_number(taken)
            } else {
                (self, taken)
            }
        } else {
            (self, acc)
        }
    }

    /// The lexer at the last character of the text of the string whose
    /// opening quote is the current character, and the text.
    pub open spec fn scan_string(self, acc: Seq<char>) -> (LexModel, Seq<char>)
        decreases self.chars.len() - self.cursor,
    {
        if self.cursor >= 0 && self.string_continues() {
            let next = self.advance();
            next.scan_string(acc.push(next.chars[next.cursor]))
        } else {
            (self, acc)
        }
    }

    /// The name or the keyword that starts at the current character, and the
    /// lexer at its last character.
    pub open spec fn lex_name(self) -> (LexModel, SpannedView) {
        let (after, name) = self.scan_name(Seq::empty());
        let token = match spec_keyword(name) {
            Some(keyword) => keyword,
            None => TokenView::Name(name),
        };
        (after, (self.loc, token, (self.pos, after.pos)))
    }

    /// The number that starts at the current character, and the lexer at its
    /// last character. There is no number where the characters spell none
    /// that fits 32 bits.
    pub open spec fn lex_number(self) -> (LexModel, Option<SpannedView>) {
        let (after, text) = self.scan_number(Seq::empty());
        match spec_parse_number(text) {
            Some(number) => (
                after,
                Some((self.loc, TokenView::Number(number), (self.pos, after.pos))),
            ),
            None => (after, None),
        }
    }

    /// The string whose opening quote is the current character, and the lexer
    /// at its closing quote.
    pub open spec fn lex_string(self) -> (LexModel, SpannedView) {
        let (last, text) = self.scan_string(Seq::empty());
        let after = last.advance();
        (after, (self.loc, TokenView::String(text), (self.pos, after.pos)))
    }

    /// The lexer after the line ended.
    pub open spec fn reset_line(self) -> LexModel {
        LexModel { loc: next_number(self.loc), pos: 0, ..self }
    }

    /// The lexer after the current character `c`, which starts neither a name
    /// nor a number, was read: a punctuation mark gives its token, a quote
    /// the string that it opens, the end of a line its token and the next
    /// line; any other character gives nothing.
    pub open spec fn consume_character(self, c: char) -> LexModel {
        let arrow = self.chr1() == Some('>');
        let found = if c == '{' {
            self.emit_one(TokenView::LeftBrace)
        } else if c == '}' {
            self.emit_one(TokenView::RightBrace)
        } else if c == '[' {
            self.emit_one(TokenView::LeftBracket)
        } else if c == ']' {
            self.emit_one(TokenView::RightBracket)
        } else if c == '(' {
            self.emit_one(TokenView::LeftParen)
        } else if c == ')' {
            self.emit_one(TokenView::RightParen)
        } else if c == '=' {
            if arrow {
                self.emit_one(TokenView::EqualRightArrow).advance()
            } else {
                self.emit_one(TokenView::Equal)
            }
        } else if c == ';' {
            self.emit_one(TokenView::Semicolon)
        } else if c == ',' {
            self.emit_one(TokenView::Comma)
        } else if c == '"' {
            let (after, spanned) = self.lex_string();
            after.emit(spanned)
        } else if c == '+' {
            self.emit_one(TokenView::Plus)
        } else if c == '*' {
            self.emit_one(TokenView::Star)
        } else if c == '/' {
            self.emit_one(TokenView::Slash)
        } else if c == '%' {
            self.emit_one(TokenView::Percent)
        } else if c == '-' {
            if arrow {
                self.emit_one(TokenView::RightArrow).advance()
            } else {
                self.emit_one(TokenView::Dash)
            }
        } else if c == '|' {
            if arrow {
                self.emit_one(TokenView::Pipe).advance()
            } else {
                self.emit_one(TokenView::Bar)
            }
        } else if c == '\n' {
            self.emit_one(TokenView::NewLine).reset_line()
        } else {
            self
        };
        found.advance()
    }

    /// The lexer after one step, and whether the step succeeded: at a
    /// character a name, a number or what else the character starts is read;
    /// at the end of the source the end and the sentinel are found. The step
    /// fails where a number is no number.
    pub open spec fn consume(self) -> (LexModel, bool) {
        match self.chr0() {
            Some(c) => if spec_is_alphabetic(c) {
                let (after, spanned) = self.lex_name();
                (after.emit(spanned).advance(), true)
            } else if self.number_starts() {
                match self.lex_number() {
                    (after, Some(spanned)) => (after.emit(spanned).advance(), true),
                    (after, None) => (after, false),
                }
            } else {
                (self.consume_character(c), true)
            },
            None => (
                self.emit_one(TokenView::EndOfFile).emit_one(TokenView::Sentinel),
                true,
            ),
        }
    }
}

/// Scanning a name moves the lexer forward and keeps it in the source.
pub proof fn lemma_scan_name(m: LexModel, acc: Seq<char>)
    requires
        m.wf(),
    ensures
        m.scan_name(acc).0.wf(),
        m.scan_name(acc).0.cursor >= m.cursor,
        m.scan_name(acc).0.chars == m.chars,
        m.scan_name(acc).0.pending == m.pending,
        m.scan_name(acc).0.loc == m.loc,
        m.cursor < m.chars.len() ==> m.scan_name(acc).0.cursor < m.chars.len(),
    decreases m.chars.len() - m.cursor,
{
    if 0 <= m.cursor < m.chars.len() {
        if m.chr1() matches Some(c) && is_name_char(c) {
            lemma_scan_name(m.advance(), acc.push(m.chars[m.cursor]));
        }
    }
}

/// Scanning a number moves the lexer forward and keeps it in the source.
pub proof fn lemma_scan_number(m: LexModel, acc: Seq<char>)
    requires
        m.wf(),
    ensures
        m.scan_number(acc).0.wf(),
        m.scan_number(acc).0.cursor >= m.cursor,
        m.scan_number(acc).0.chars == m.chars,
        m.scan_number(acc).0.pending == m.pending,
        m.scan_number(acc).0.loc == m.loc,
        m.cursor < m.chars.len() ==> m.scan_number(acc).0.cursor < m.chars.len(),
        m.scan_number(acc).1.len() == acc.len() + (m.scan_number(acc).0.cursor - m.cursor) + (
        if m.cursor < m.chars.len() {
            1int
        } else {
            0int
        }),
    decreases m.chars.len() - m.cursor,
{
    if 0 <= m.cursor < m.chars.len() {
        if m.chr1() matches Some(c) && is_number_char(c) {
            lemma_scan_number(m.advance(), acc.push(m.chars[m.cursor]));
        }
    }
}

/// Scanning a string moves the lexer forward and keeps it in the source.
pub proof fn lemma_scan_string(m: LexModel, acc: Seq<char>)
    requires
        m.wf(),
    ensures
        m.scan_string(acc).0.wf(),
        m.scan_string(acc).0.cursor >= m.cursor,
        m.scan_string(acc).0.chars == m.chars,
        m.scan_string(acc).0.pending == m.pending,
        m.scan_string(acc).0.loc == m.loc,
    decreases m.chars.len() - m.cursor,
{
    if m.cursor >= 0 && m.string_continues() {
        let next = m.advance();
        lemma_scan_string(next, acc.push(next.chars[next.cursor]));
    }
}

/// A step keeps the lexer in its source. At a character it moves the lexer
/// forward, unless it fails on a number of one character; at the end of the
/// source it finds tokens.
pub proof fn lemma_consume(m: LexModel)
    requires
        m.wf(),
    ensures
        m.consume().0.wf(),
        m.consume().0.chars == m.chars,
        m.consume().0.cursor >= m.cursor,
        m.consume().0.pending.len() >= m.pending.len(),
        m.chr0() is Some && m.consume().1 ==> m.consume().0.cursor > m.cursor,
        m.chr0() is None ==> m.consume().1 && m.consume().0.pending.len() == m.pending.len()
            + 2,
{
    lemma_scan_name(m, Seq::empty());
    lemma_scan_number(m, Seq::empty());
    lemma_scan_string(m, Seq::empty());
}

} // verus!

verus! {

impl LexModel {
    /// Whether the lexer rests between two tokens: nothing is pending, or
    /// only the sentinel that follows the end of the source.
    pub open spec fn rested(self) -> bool {
        &&& self.wf()
        &&& self.pending.len() <= 1
        &&& self.pending.len() == 1 ==> self.pending[0].1 is Sentinel && self.cursor
            == self.chars.len()
    }

    /// How far the lexer is from the end of its tokens.
    pub open spec fn rank(self) -> int {
        2 * (self.chars.len() - self.cursor) + (if self.pending.len() == 0 {
            1int
        } else {
            0int
        })
    }

    /// The lexer after as many steps as it takes to find a token, at most
    /// `fuel` of them, and whether none of them failed.
    pub open spec fn fill(self, fuel: nat) -> (LexModel, bool)
        decreases fuel,
    {
        if self.pending.len() > 0 || fuel == 0 {
            (self, true)
        } else {
            let (after, ok) = self.consume();
            if ok {
                after.fill((fuel - 1) as nat)
            } else {
                (after, false)
            }
        }
    }

    /// The next token and the lexer after it was handed out. The lexer steps
    /// through the source until it finds a token; the sentinel ends the
    /// stream. A step that fails gives an error in the place of a token.
    pub open spec fn next(self) -> (LexModel, Option<Result<SpannedView, ()>>) {
        let (found, ok) = self.fill((self.chars.len() - self.cursor + 1) as nat);
        if !ok {
            (found, Some(Err(())))
        } else if found.pending.len() > 0 {
            let rest = LexModel {
                pending: found.pending.subrange(1, found.pending.len() as int),
                ..found
            };
            if found.pending[0].1 is Sentinel {
                (rest, None)
            } else {
                (rest, Some(Ok(found.pending[0])))
            }
        } else {
            (found, None)
        }
    }

    /// The tokens from the next one up to the sentinel, at most `fuel + 1`
    /// of them.
    pub open spec fn collect(self, fuel: nat) -> Seq<Result<SpannedView, ()>>
        decreases fuel,
    {
        match self.next() {
            (after, Some(r)) => if fuel == 0 {
                seq![r]
            } else {
                seq![r] + after.collect((fuel - 1) as nat)
            },
            (_, None) => Seq::empty(),
        }
    }
}

impl LexModel {
    /// The tokens from the next one up to the sentinel, each with its place,
    /// with an error in the place of a number that is no number.
    pub open spec fn tokens(self) -> Seq<Result<SpannedView, ()>> {
        self.collect(self.rank() as nat)
    }
}

/// What a result of the lexer says: a token with its place, or that there
/// was an error.
pub open spec fn result_view(r: LexResult) -> Result<SpannedView, ()> {
    match r {
        Ok(spanned) => Ok(spanned_view(spanned)),
        Err(_) => Err(()),
    }
}

/// A number of one digit is a number.
proof fn lemma_single_digit(text: Seq<char>)
    requires
        text.len() == 1,
        is_digit(text[0]),
    ensures
        spec_parse_number(text) is Some,
{
    reveal_with_fuel(spec_digits_value, 3);
}

/// A step from a rested lexer with nothing pending finds at most one token,
/// which is not the sentinel, or at the end of the source the end and the
/// sentinel; and it moves the lexer forward while the source lasts.
pub proof fn lemma_consume_shape(m: LexModel)
    requires
        m.wf(),
        m.pending.len() == 0,
    ensures
        m.consume().0.wf(),
        m.consume().0.chars == m.chars,
        m.chr0() is Some ==> m.consume().0.cursor > m.cursor && m.consume().0.pending.len() <= 1
            && (m.consume().0.pending.len() == 1 ==> !(m.consume().0.pending[0].1 is Sentinel)),
        !m.consume().1 ==> m.consume().0.pending.len() == 0,
        m.chr0() is None ==> m.consume().1 && m.consume().0.cursor == m.cursor
            && m.consume().0.pending.len() == 2 && !(m.consume().0.pending[0].1 is Sentinel)
            && m.consume().0.pending[1].1 is Sentinel,
{
    lemma_scan_name(m, Seq::empty());
    lemma_scan_number(m, Seq::empty());
    lemma_scan_string(m, Seq::empty());
    if m.chr0() is Some && !spec_is_alphabetic(m.chr0()->0) && m.number_starts() {
        let after = m.scan_number(Seq::empty()).0;
        let text = m.scan_number(Seq::empty()).1;
        if after.cursor == m.cursor {
            assert(text.len() == 1);
            if m.chr1() matches Some(c) && is_number_char(c) {
                lemma_scan_number(m.advance(), Seq::<char>::empty().push(m.chars[m.cursor]));
            } else {
                assert(text == Seq::<char>::empty().push(m.chars[m.cursor]));
                lemma_single_digit(text);
            }
        }
    }
    if m.chr0() is Some && spec_is_alphabetic(m.chr0()->0) {
        let name = m.scan_name(Seq::empty()).1;
        assert(!(m.lex_name().1.1 is Sentinel)) by {
            if spec_keyword(name) is Some {
            }
        }
    }
}

impl Lexer {
    fn from_chars(chars: Vec<char>) -> (r: Self)
        ensures
            r@ == (LexModel { chars: chars@, cursor: 0, pos: 1, loc: 1, pending: Seq::empty() }),
            r@.rested(),
    {
        let r = Lexer {
            chars,
            cursor: 0,
            pending: Vec::new(),
            current_pos: 1,
            current_loc: 1,
        };
        assert(r@.pending =~= Seq::empty());
        r
    }

    /// A lexer at the start of the characters, on line 1 and at column 1.
    pub fn new(chars: Chars<'_>) -> (r: Self)
        ensures
            r@ == (LexModel {
                chars: chars.remaining(),
                cursor: 0,
                pos: 1,
                loc: 1,
                pending: Seq::empty(),
            }),
            r@.rested(),
    {
        Lexer::from_chars(chars_of(chars_rest(&chars)))
    }

    /// A lexer at the start of a text, on line 1 and at column 1.
    pub fn new_from_str(str: &str) -> (r: Self)
        ensures
            r@ == (LexModel { chars: str@, cursor: 0, pos: 1, loc: 1, pending: Seq::empty() }),
            r@.rested(),
    {
        Lexer::from_chars(chars_of(str))
    }

    fn chr0(&self) -> (r: Option<char>)
        requires
            self@.wf(),
        ensures
            r == self@.chr0(),
    {
        if self.cursor < self.chars.len() {
            Some(self.chars[self.cursor])
        } else {
            None
        }
    }

    fn chr1(&self) -> (r: Option<char>)
        requires
            self@.wf(),
        ensures
            r == self@.chr1(),
    {
        if self.cursor < self.chars.len() && self.cursor + 1 < self.chars.len() {
            Some(self.chars[self.cursor + 1])
        } else {
            None
        }
    }

    fn is_number_start(&self, c: char, c1: Option<char>) -> (r: bool)
        ensures
            r == (is_digit(c) || (c == '-' && (c1 matches Some(d) && is_digit(d)))),
    {
        let u = c as u32;
        if u >= 48 && u <= 57 {
            true
        } else if c == '-' {
            match c1 {
                Some(d) => {
                    let v = d as u32;
                    v >= 48 && v <= 57
                },
                None => false,
            }
        } else {
            false
        }
    }

    fn move_next_char(&mut self)
        requires
            old(self)@.wf(),
        ensures
            final(self)@ == old(self)@.advance(),
            final(self)@.wf(),
    {
        if self.current_pos < u32::MAX {
            self.current_pos += 1;
        }
        if self.cursor < self.chars.len() {
            self.cursor += 1;
        }
    }

    fn get_pos(&self) -> (r: u32)
        ensures
            r == self@.pos,
    {
        self.current_pos
    }

    fn get_line(&self) -> (r: u32)
        ensures
            r == self@.loc,
    {
        self.current_loc
    }

    fn emit(&mut self, spanned: Spanned)
        ensures
            final(self)@ == old(self)@.emit(spanned_view(spanned)),
    {
        self.pending.push(spanned);
        assert(self@.pending =~= old(self)@.pending.push(spanned_view(spanned)));
    }

    fn is_name_start(&self, c: char) -> (r: bool)
        ensures
            r == spec_is_alphabetic(c),
    {
        char_is_alphabetic(c)
    }

    fn is_name_continuation(&self) -> (r: bool)
        requires
            self@.wf(),
        ensures
            r == (self@.chr1() matches Some(c) && is_name_char(c)),
    {
        match self.chr1() {
            Some(c) => {
                let u = c as u32;
                c == '_' || (u >= 48 && u <= 57) || (u >= 97 && u <= 122) || (u >= 65 && u <= 90)
            },
            None => false,
        }
    }

    fn is_string_continuation(&self) -> (r: bool)
        requires
            self@.wf(),
        ensures
            r == self@.string_continues(),
    {
        match self.chr1() {
            Some(c) => if c == '"' {
                self.is_escaped()
            } else {
                true
            },
            None => false,
        }
    }

    fn is_number_continuation(&self) -> (r: bool)
        requires
            self@.wf(),
        ensures
            r == (self@.chr1() matches Some(c) && is_number_char(c)),
    {
        match self.chr1() {
            Some(c) => {
                let u = c as u32;
                c == '.' || (u >= 48 && u <= 57)
            },
            None => false,
        }
    }

    fn is_escaped(&self) -> (r: bool)
        requires
            self@.wf(),
        ensures
            r == (self@.chr0() == Some('\\')),
    {
        match self.chr0() {
            Some(c) => c == '\\',
            None => false,
        }
    }

    /// Reads the name or the keyword that starts at the current character.
    fn lex_name(&mut self) -> (r: LexResult)
        requires
            old(self)@.wf(),
            old(self)@.chr0() is Some,
        ensures
            final(self)@ == old(self)@.lex_name().0,
            final(self)@.wf(),
            r matches Ok(spanned) && spanned_view(spanned) == old(self)@.lex_name().1,
    {
        let mut name = String::new();
        let line = self.get_line();
        let start_pos = self.get_pos();
        loop
            invariant_except_break
                self@.wf(),
                self@.chr0() is Some,
                old(self)@.scan_name(Seq::empty()) == self@.scan_name(name@),
            ensures
                self@.wf(),
                old(self)@.scan_name(Seq::empty()) == (self@, name@),
            decreases self@.chars.len() - self@.cursor,
        {
            match self.chr0() {
                Some(c) => {
                    string_push(&mut name, c);
                },
                None => {},
            }
            if !self.is_name_continuation() {
                break ;
            }
            self.move_next_char();
        }
        let end_pos = self.get_pos();
        match Token::str_to_keyword(name.as_str()) {
            Some(token) => Ok((line, token, (start_pos, end_pos))),
            None => Ok((line, Token::Name(name), (start_pos, end_pos))),
        }
    }

    /// Reads the string whose opening quote is the current character.
    fn lex_string(&mut self) -> (r: LexResult)
        requires
            old(self)@.wf(),
        ensures
            final(self)@ == old(self)@.lex_string().0,
            final(self)@.wf(),
            r matches Ok(spanned) && spanned_view(spanned) == old(self)@.lex_string().1,
    {
        let mut string = String::new();
        let line = self.get_line();
        let start_pos = self.get_pos();
        loop
            invariant_except_break
                self@.wf(),
                old(self)@.scan_string(Seq::empty()) == self@.scan_string(string@),
            ensures
                self@.wf(),
                old(self)@.scan_string(Seq::empty()) == (self@, string@),
            decreases self@.chars.len() - self@.cursor,
        {
            if !self.is_string_continuation() {
                break ;
            }
            self.move_next_char();
            match self.chr0() {
                Some(c) => {
                    string_push(&mut string, c);
                },
                None => {},
            }
        }
        self.move_next_char();
        let end_pos = self.get_pos();
        Ok((line, Token::String(string), (start_pos, end_pos)))
    }

    /// Reads the number that starts at the current character. Characters
    /// that spell no number that fits 32 bits are an error.
    fn lex_number(&mut self) -> (r: LexResult)
        requires
            old(self)@.wf(),
            old(self)@.chr0() is Some,
        ensures
            final(self)@ == old(self)@.lex_number().0,
            final(self)@.wf(),
            match old(self)@.lex_number().1 {
                Some(expected) => r matches Ok(spanned) && spanned_view(spanned) == expected,
                None => r is Err,
            },
    {
        let mut text: Vec<char> = Vec::new();
        let line = self.get_line();
        let start_pos = self.get_pos();
        loop
            invariant_except_break
                self@.wf(),
                self@.chr0() is Some,
                old(self)@.scan_number(Seq::empty()) == self@.scan_number(text@),
            ensures
                self@.wf(),
                old(self)@.scan_number(Seq::empty()) == (self@, text@),
            decreases self@.chars.len() - self@.cursor,
        {
            match self.chr0() {
                Some(c) => {
                    text.push(c);
                },
                None => {},
            }
            if !self.is_number_continuation() {
                break ;
            }
            self.move_next_char();
        }
        let end_pos = self.get_pos();
        match parse_number(&text) {
            Some(number) => Ok((line, Token::Number(number), (start_pos, end_pos))),
            None => Err(
                LexicalError {
                    error: String::from_str("Error in parse number"),
                    location: (clamp_position(line), clamp_position(start_pos)),
                },
            ),
        }
    }

    fn reset_line(&mut self)
        ensures
            final(self)@ == old(self)@.reset_line(),
    {
        if self.current_loc < u32::MAX {
            self.current_loc += 1;
        }
        self.current_pos = 0;
    }

    fn emit_one_character(&mut self, token: Token)
        ensures
            final(self)@ == old(self)@.emit_one(token@),
    {
        let line = self.get_line();
        let pos = self.get_pos();
        self.emit((line, token, (pos, pos)));
    }

    /// Reads the current character `c`, which starts neither a name nor a
    /// number.
    fn consume_character(&mut self, c: char) -> (r: Result<(), LexicalError>)
        requires
            old(self)@.wf(),
        ensures
            r is Ok,
            final(self)@ == old(self)@.consume_character(c),
            final(self)@.wf(),
    {
        proof {
            lemma_scan_string(self@, Seq::empty());
        }
        let arrow = match self.chr1() {
            Some(d) => d == '>',
            None => false,
        };
        if c == '{' {
            self.emit_one_character(Token::LeftBrace);
        } else if c == '}' {
            self.emit_one_character(Token::RightBrace);
        } else if c == '[' {
            self.emit_one_character(Token::LeftBracket);
        } else if c == ']' {
            self.emit_one_character(Token::RightBracket);
        } else if c == '(' {
            self.emit_one_character(Token::LeftParen);
        } else if c == ')' {
            self.emit_one_character(Token::RightParen);
        } else if c == '=' {
            if arrow {
                self.emit_one_character(Token::EqualRightArrow);
                self.move_next_char();
            } else {
                self.emit_one_character(Token::Equal);
            }
        } else if c == ';' {
            self.emit_one_character(Token::Semicolon);
        } else if c == ',' {
            self.emit_one_character(Token::Comma);
        } else if c == '"' {
            match self.lex_string() {
                Ok(string) => {
                    self.emit(string);
                },
                Err(e) => {
                    return Err(e);
                },
            }
        } else if c == '+' {
            self.emit_one_character(Token::Plus);
        } else if c == '*' {
            self.emit_one_character(Token::Star);
        } else if c == '/' {
            self.emit_one_character(Token::Slash);
        } else if c == '%' {
            self.emit_one_character(Token::Percent);
        } else if c == '-' {
            if arrow {
                self.emit_one_character(Token::RightArrow);
                self.move_next_char();
            } else {
                self.emit_one_character(Token::Dash);
            }
        } else if c == '|' {
            if arrow {
                self.emit_one_character(Token::Pipe);
                self.move_next_char();
            } else {
                self.emit_one_character(Token::Bar);
            }
        } else if c == '\n' {
            self.emit_one_character(Token::NewLine);
            self.reset_line();
        }
        self.move_next_char();
        Ok(())
    }

    /// Takes one step: reads what the current character starts, or finds the
    /// end of the source.
    fn consume(&mut self) -> (r: Result<(), LexicalError>)
        requires
            old(self)@.wf(),
        ensures
            final(self)@ == old(self)@.consume().0,
            final(self)@.wf(),
            r is Ok <==> old(self)@.consume().1,
    {
        proof {
            lemma_consume(self@);
            lemma_scan_name(self@, Seq::empty());
            lemma_scan_number(self@, Seq::empty());
        }
        match self.chr0() {
            Some(c) => {
                if self.is_name_start(c) {
                    let name = match self.lex_name() {
                        Ok(name) => name,
                        Err(e) => {
                            return Err(e);
                        },
                    };
                    self.emit(name);
                    self.move_next_char();
                    Ok(())
                } else if self.is_number_start(c, self.chr1()) {
                    let number = match self.lex_number() {
                        Ok(number) => number,
                        Err(e) => {
                            return Err(e);
                        },
                    };
                    self.emit(number);
                    self.move_next_char();
                    Ok(())
                } else {
                    self.consume_character(c)
                }
            },
            None => {
                let line = self.get_line();
                let tok_pos = self.get_pos();
                self.emit((line, Token::EndOfFile, (tok_pos, tok_pos)));
                self.emit((line, Token::Sentinel, (tok_pos, tok_pos)));
                Ok(())
            },
        }
    }

    /// Steps through the source until a token is found, and hands the token
    /// out.
    fn consume_next(&mut self) -> (r: LexResult)
        requires
            old(self)@.wf(),
        ensures
            final(self)@.wf(),
            ({
                let filled = old(self)@.fill(
                    (old(self)@.chars.len() - old(self)@.cursor + 1) as nat,
                );
                let found = filled.0;
                if filled.1 {
                    &&& found.pending.len() > 0
                    &&& r matches Ok(spanned) && spanned_view(spanned) == found.pending[0]
                    &&& final(self)@ == (LexModel {
                        pending: found.pending.subrange(1, found.pending.len() as int),
                        ..found
                    })
                } else {
                    r is Err && final(self)@ == found
                }
            }),
    {
        let ghost total = (self@.chars.len() - self@.cursor + 1) as nat;
        let ghost fuel = total;
        while self.pending.len() == 0
            invariant
                self@.wf(),
                total == (old(self)@.chars.len() - old(self)@.cursor + 1) as nat,
                old(self)@.fill(total) == self@.fill(fuel),
                fuel >= self@.chars.len() - self@.cursor + (if self@.pending.len() == 0 {
                    1int
                } else {
                    0int
                }),
            decreases fuel,
        {
            proof {
                lemma_consume(self@);
            }
            let ghost before = self@;
            match self.consume() {
                Ok(_) => {},
                Err(e) => {
                    assert(before.fill(fuel) == (self@, false));
                    return Err(e);
                },
            }
            proof {
                assert(before.fill(fuel) == self@.fill((fuel - 1) as nat));
                fuel = (fuel - 1) as nat;
            }
        }
        let ghost found = self@;
        let first = self.pending.remove(0);
        assert(self@.pending =~= found.pending.subrange(1, found.pending.len() as int));
        Ok(first)
    }

    /// The next token of the source, or an error in its place. The sentinel
    /// that follows the end of the source ends the stream.
    pub fn next(&mut self) -> (r: Option<LexResult>)
        requires
            old(self)@.rested(),
        ensures
            final(self)@.rested(),
            final(self)@ == old(self)@.next().0,
            match old(self)@.next().1 {
                Some(expected) => r matches Some(result) && result_view(result) == expected,
                None => r is None,
            },
            r is Some ==> final(self)@.rank() < old(self)@.rank(),
    {
        proof {
            lemma_next_rested(self@);
        }
        match self.consume_next() {
            Ok((line, token, position)) => {
                match token {
                    Token::Sentinel => None,
                    token => Some(Ok((line, token, position))),
                }
            },
            Err(e) => Some(Err(e)),
        }
    }

    /// Every token of the source from the next one on, up to the end of the
    /// source, each with its place; an error stands in the place of a number
    /// that is no number.
    pub fn collect(self) -> (r: Vec<LexResult>)
        requires
            self@.rested(),
        ensures
            r@.map_values(|x: LexResult| result_view(x)) == self@.tokens(),
    {
        let mut lexer = self;
        let mut tokens: Vec<LexResult> = Vec::new();
        let ghost done: Seq<Result<SpannedView, ()>> = Seq::empty();
        let ghost fuel = self@.rank() as nat;
        loop
            invariant_except_break
                lexer@.rested(),
                fuel >= lexer@.rank(),
                done == tokens@.map_values(|x: LexResult| result_view(x)),
                self@.collect(self@.rank() as nat) == done + lexer@.collect(fuel),
            ensures
                tokens@.map_values(|x: LexResult| result_view(x)) == self@.collect(
                    self@.rank() as nat,
                ),
            decreases lexer@.rank(),
        {
            let ghost before = lexer@;
            match lexer.next() {
                Some(result) => {
                    tokens.push(result);
                    proof {
                        let r = result_view(result);
                        assert(fuel > 0);
                        assert(done + (seq![r] + lexer@.collect((fuel - 1) as nat)) =~= done.push(
                            r,
                        ) + lexer@.collect((fuel - 1) as nat));
                        done = done.push(r);
                        fuel = (fuel - 1) as nat;
                        assert(done =~= tokens@.map_values(|x: LexResult| result_view(x)));
                    }
                },
                None => {
                    proof {
                        assert(done + Seq::<Result<SpannedView, ()>>::empty() =~= done);
                    }
                    break ;
                },
            }
        }
        tokens
    }
}

/// A column or a line as a signed number, the largest where it does not fit.
fn clamp_position(n: u32) -> (r: i32)
    ensures
        r == (if n <= i32::MAX {
            n as i32
        } else {
            i32::MAX
        }),
{
    if n <= 0x7FFF_FFFF {
        n as i32
    } else {
        0x7FFF_FFFF
    }
}

/// Steps from a rested lexer with nothing pending find a token or fail, and
/// leave at most the sentinel behind it.
proof fn lemma_fill_rested(m: LexModel, fuel: nat)
    requires
        m.wf(),
        m.pending.len() == 0,
        fuel >= m.chars.len() - m.cursor + 1,
    ensures
        ({
            let (found, ok) = m.fill(fuel);
            &&& found.wf()
            &&& found.chars == m.chars
            &&& ok ==> {
                &&& 1 <= found.pending.len() <= 2
                &&& !(found.pending[0].1 is Sentinel)
                &&& found.pending.len() == 2 ==> found.pending[1].1 is Sentinel && found.cursor
                    == found.chars.len()
                &&& found.pending.len() == 1 ==> found.cursor > m.cursor
            }
            &&& !ok ==> found.cursor > m.cursor && found.pending.len() == 0
        }),
    decreases fuel,
{
    lemma_consume_shape(m);
    lemma_consume(m);
    let (after, ok) = m.consume();
    if ok && after.pending.len() == 0 {
        lemma_fill_rested(after, (fuel - 1) as nat);
    } else if ok {
        assert(after.fill((fuel - 1) as nat) == (after, true));
    }
}

/// Handing out a token leaves the lexer rested, and nearer to the end of its
/// tokens unless the stream has ended.
proof fn lemma_next_rested(m: LexModel)
    requires
        m.rested(),
    ensures
        m.next().0.rested(),
        m.next().1 is Some ==> m.next().0.rank() < m.rank(),
        m.fill((m.chars.len() - m.cursor + 1) as nat).0.wf(),
{
    if m.pending.len() == 0 {
        lemma_fill_rested(m, (m.chars.len() - m.cursor + 1) as nat);
    }
}

/// The tokens of a rested lexer do not depend on how many more than enough
/// are asked for.
pub proof fn lemma_collect_enough(m: LexModel, fuel: nat)
    requires
        m.rested(),
        fuel >= m.rank(),
    ensures
        m.collect(fuel) == m.tokens(),
    decreases m.rank(),
{
    lemma_next_rested(m);
    match m.next() {
        (after, Some(r)) => {
            lemma_collect_enough(after, (fuel - 1) as nat);
            lemma_collect_enough(after, (m.rank() - 1) as nat);
        },
        (_, None) => {},
    }
}

/// The tokens of a rested lexer are its next token and then the tokens of
/// the lexer after it; there are none where the stream has ended.
pub proof fn lemma_tokens_next(m: LexModel)
    requires
        m.rested(),
    ensures
        m.next().0.rested(),
        match m.next().1 {
            Some(r) => m.tokens() == seq![r] + m.next().0.tokens(),
            None => m.tokens() == Seq::<Result<SpannedView, ()>>::empty(),
        },
{
    lemma_next_rested(m);
    match m.next() {
        (after, Some(r)) => {
            lemma_collect_enough(after, (m.rank() - 1) as nat);
        },
        (_, None) => {},
    }
}

} // verus!
