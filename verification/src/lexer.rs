//! The lexer of the shell language: names, numbers, string literals and a
//! few punctuation tokens; `#` starts a comment that runs to the end of the
//! line.
use vstd::prelude::*;
use vstd::string::StringSliceAdditionalSpecFns;
use vstd::utf8::decode_utf8;
use vstd::utf8::encode_utf8;
use vstd::utf8::encode_utf8_decode_utf8;
use vstd::utf8::encode_utf8_valid_utf8;
use vstd::utf8::is_ascii_chars;
use vstd::utf8::is_ascii_chars_encode_utf8;
use vstd::utf8::is_ascii_chars_nat_bound;
use vstd::utf8::is_char_boundary;
use vstd::utf8::is_char_boundary_iff_not_is_continuation_byte;
use vstd::utf8::is_char_boundary_start_end_of_seq;
use vstd::utf8::valid_utf8_split;

use crate::errors::LexerError;
use crate::errors::SpecLexerError;
use crate::text::char_is_alphabetic;
use crate::text::char_is_alphanumeric;
use crate::text::char_is_whitespace;
use crate::text::decimal;
use crate::text::decimal_string;
use crate::text::is_alphabetic;
use crate::text::is_alphanumeric;
use crate::text::is_digit;
use crate::text::is_whitespace;

verus! {

/// A position in the source: the line (counted from 0) and the index of the
/// character in the whole source (counted from 0).
#[derive(Debug, Clone, Copy)]
pub struct Loc {
    pub row: usize,
    pub col: usize,
}

/// The kinds of token.
#[derive(Debug, Clone, Copy, PartialEq, Eq, Structural)]
pub enum TokenEnum {
    Name,
    OParan,
    CParan,
    OCurly,
    CCurly,
    SemiColon,
    Number,
    String,
    Dash,
    ForwardSlash,
    BackSlash,
}

/// A token: its kind, its text and where it starts.
#[derive(Debug)]
pub struct Token {
    pub value: String,
    pub loc: Loc,
    pub token: TokenEnum,
}

/// The mathematical value of a [`Token`].
pub struct SpecToken {
    pub token: TokenEnum,
    pub value: Seq<char>,
    pub loc: Loc,
}

impl View for Token {
    type V = SpecToken;

    open spec fn view(&self) -> SpecToken {
        SpecToken { token: self.token, value: self.value@, loc: self.loc }
    }
}

/// The lexer: the source, the index of the next character (`cur`), the index
/// just after the last newline consumed (`bol`) and the number of newlines
/// consumed (`row`).
#[derive(Debug)]
pub struct Lexer {
    pub source: String,
    pub cur: usize,
    pub bol: usize,
    pub row: usize,
}

/// The mathematical state of a [`Lexer`]. `blen` is the length of the source
/// in bytes, which is what the lexer compares `cur` with to decide whether
/// characters are left.
pub struct LexState {
    pub src: Seq<char>,
    pub blen: nat,
    pub cur: nat,
    pub bol: nat,
    pub row: nat,
}

impl View for Lexer {
    type V = LexState;

    open spec fn view(&self) -> LexState {
        LexState {
            src: self.source@,
            blen: encode_utf8(self.source@).len(),
            cur: self.cur as nat,
            bol: self.bol as nat,
            row: self.row as nat,
        }
    }
}

/// A class of characters that the lexer skips over.
pub enum CharClass {
    Whitespace,
    NotNewline,
    Alphanumeric,
    AsciiDigit,
    NotQuote,
}

impl CharClass {
    pub open spec fn holds(self, c: char) -> bool {
        match self {
            CharClass::Whitespace => char_is_whitespace(c),
            CharClass::NotNewline => c != '\n',
            CharClass::Alphanumeric => char_is_alphanumeric(c),
            CharClass::AsciiDigit => is_digit(c),
            CharClass::NotQuote => c != '"',
        }
    }

    fn test(&self, c: char) -> (res: bool)
        ensures
            res == self.holds(c),
    {
        match self {
            CharClass::Whitespace => is_whitespace(c),
            CharClass::NotNewline => c != '\n',
            CharClass::Alphanumeric => is_alphanumeric(c),
            CharClass::AsciiDigit => '0' <= c && c <= '9',
            CharClass::NotQuote => c != '"',
        }
    }
}

/// The token kind of a one-character punctuation token.
pub open spec fn literal_token(c: char) -> Option<TokenEnum> {
    if c == '(' {
        Some(TokenEnum::OParan)
    } else if c == ')' {
        Some(TokenEnum::CParan)
    } else if c == '{' {
        Some(TokenEnum::OCurly)
    } else if c == '}' {
        Some(TokenEnum::CCurly)
    } else if c == ';' {
        Some(TokenEnum::SemiColon)
    } else if c == '-' {
        Some(TokenEnum::Dash)
    } else if c == '/' {
        Some(TokenEnum::ForwardSlash)
    } else if c == '\\' {
        Some(TokenEnum::BackSlash)
    } else {
        None
    }
}

/// How a location is displayed: line and column counted from 1.
pub open spec fn loc_display(loc: Loc) -> Seq<char> {
    decimal((loc.row + 1) as nat) + seq![':'] + decimal((loc.col + 1) as nat)
}

/// The text of the source between byte offsets `a` and `b` of its UTF-8
/// encoding.
pub open spec fn byte_slice(src: Seq<char>, a: int, b: int) -> Seq<char> {
    decode_utf8(encode_utf8(src).subrange(a, b))
}

/// The byte offsets `a` and `b` delimit a part of the source's UTF-8
/// encoding that starts and ends at character boundaries.
pub open spec fn slice_ok(src: Seq<char>, a: int, b: int) -> bool {
    &&& 0 <= a <= b <= encode_utf8(src).len()
    &&& is_char_boundary(encode_utf8(src), a)
    &&& is_char_boundary(encode_utf8(src), b)
}

/// The number of newlines in `src` from index `i` on.
pub open spec fn newlines_from(src: Seq<char>, i: int) -> nat
    decreases src.len() - i,
{
    if 0 <= i < src.len() {
        (if src[i] == '\n' {
            1nat
        } else {
            0nat
        }) + newlines_from(src, i + 1)
    } else {
        0
    }
}

impl LexState {
    /// Whether characters are left, by the byte length of the source.
    pub open spec fn has_char(self) -> bool {
        self.cur < self.blen
    }

    /// The lexer after consuming one character.
    pub open spec fn chop(self) -> LexState {
        if self.has_char() {
            if self.src[self.cur as int] == '\n' {
                LexState {
                    src: self.src,
                    blen: self.blen,
                    cur: self.cur + 1,
                    bol: self.cur + 1,
                    row: self.row + 1,
                }
            } else {
                LexState {
                    src: self.src,
                    blen: self.blen,
                    cur: self.cur + 1,
                    bol: self.bol,
                    row: self.row,
                }
            }
        } else {
            self
        }
    }

    /// Consuming a character neither reads past the characters nor
    /// overflows the line counter.
    pub open spec fn chop_safe(self) -> bool {
        self.has_char() ==> {
            &&& self.cur < self.src.len()
            &&& self.src[self.cur as int] == '\n' ==> self.row < usize::MAX
        }
    }

    /// The lexer after consuming the longest run of characters of a class.
    pub open spec fn scan(self, class: CharClass) -> LexState
        decreases self.blen - self.cur,
    {
        if self.has_char() && class.holds(self.src[self.cur as int]) {
            self.chop().scan(class)
        } else {
            self
        }
    }

    /// Scanning a class neither reads past the characters nor overflows the
    /// line counter.
    pub open spec fn scan_safe(self, class: CharClass) -> bool
        decreases self.blen - self.cur,
    {
        self.has_char() ==> {
            &&& self.cur < self.src.len()
            &&& class.holds(self.src[self.cur as int]) ==> {
                &&& self.chop_safe()
                &&& self.chop().scan_safe(class)
            }
        }
    }

    /// The lexer after skipping whitespace.
    pub open spec fn trim_left(self) -> LexState {
        self.scan(CharClass::Whitespace)
    }

    /// The lexer after skipping the rest of the line and its newline.
    pub open spec fn drop_line(self) -> LexState {
        let s = self.scan(CharClass::NotNewline);
        if s.has_char() {
            s.chop()
        } else {
            s
        }
    }

    /// Dropping the line neither reads past the characters nor overflows
    /// the line counter.
    pub open spec fn drop_line_safe(self) -> bool {
        &&& self.scan_safe(CharClass::NotNewline)
        &&& self.scan(CharClass::NotNewline).chop_safe()
    }

    /// The location of the next character.
    pub open spec fn loc(self) -> Loc {
        Loc { row: self.row as usize, col: self.cur as usize }
    }

    /// The source is ASCII, and the line counter cannot overflow however much
    /// of it is consumed: from such a state every token can be read safely.
    pub open spec fn lexable(self) -> bool {
        &&& is_ascii_chars(self.src)
        &&& self.blen == self.src.len()
        &&& self.blen <= usize::MAX
        &&& self.row + newlines_from(self.src, self.cur as int) <= usize::MAX
    }

    /// The lexer after skipping whitespace and at most one comment line
    /// followed by whitespace.
    pub open spec fn skip_blank(self) -> LexState {
        let s1 = self.trim_left();
        if s1.cur < s1.src.len() && s1.src[s1.cur as int] == '#' {
            s1.drop_line().trim_left()
        } else {
            s1
        }
    }

    /// The lexer after reading the next token, and the token or error.
    pub open spec fn next_token(self) -> (LexState, Result<SpecToken, SpecLexerError>) {
        let s = self.skip_blank();
        if !s.has_char() {
            (s, Err(SpecLexerError::EOF))
        } else {
            let first = s.src[s.cur as int];
            let loc = s.loc();
            if char_is_alphabetic(first) {
                let e = s.scan(CharClass::Alphanumeric);
                (
                    e,
                    Ok(
                        SpecToken {
                            token: TokenEnum::Name,
                            value: byte_slice(s.src, s.cur as int, e.cur as int),
                            loc,
                        },
                    ),
                )
            } else if literal_token(first) is Some {
                (
                    s.chop(),
                    Ok(SpecToken { token: literal_token(first)->0, value: seq![first], loc }),
                )
            } else if first == '"' {
                let b = s.chop();
                let e = b.scan(CharClass::NotQuote);
                if e.has_char() {
                    (
                        e.chop(),
                        Ok(
                            SpecToken {
                                token: TokenEnum::String,
                                value: byte_slice(s.src, b.cur as int, e.cur as int),
                                loc,
                            },
                        ),
                    )
                } else {
                    (e, Err(SpecLexerError::UnclosedStringLiteral(loc_display(loc))))
                }
            } else if is_digit(first) {
                let e = s.scan(CharClass::AsciiDigit);
                (
                    e,
                    Ok(
                        SpecToken {
                            token: TokenEnum::Number,
                            value: byte_slice(s.src, s.cur as int, e.cur as int),
                            loc,
                        },
                    ),
                )
            } else {
                (s, Err(SpecLexerError::NotImplemented))
            }
        }
    }
}

impl LexState {
    /// Reading the next token neither reads past the characters, nor cuts
    /// the source inside a character (the lexer cuts the text of a token at
    /// the byte offsets given by its character indices), nor overflows the
    /// line counter.
    pub open spec fn next_token_safe(self) -> bool {
        let t = self.trim_left();
        let b = self.skip_blank();
        let first = b.src[b.cur as int];
        &&& self.scan_safe(CharClass::Whitespace)
        &&& (t.cur < t.src.len() && t.src[t.cur as int] == '#') ==> {
            &&& t.drop_line_safe()
            &&& t.drop_line().scan_safe(CharClass::Whitespace)
        }
        &&& b.has_char() ==> {
            &&& b.cur < b.src.len()
            &&& if char_is_alphabetic(first) {
                &&& b.scan_safe(CharClass::Alphanumeric)
                &&& slice_ok(b.src, b.cur as int, b.scan(CharClass::Alphanumeric).cur as int)
            } else if literal_token(first) is Some {
                b.chop_safe()
            } else if first == '"' {
                let c = b.chop();
                let e = c.scan(CharClass::NotQuote);
                &&& b.chop_safe()
                &&& c.scan_safe(CharClass::NotQuote)
                &&& e.has_char() ==> slice_ok(b.src, c.cur as int, e.cur as int) && e.chop_safe()
            } else if is_digit(first) {
                &&& b.scan_safe(CharClass::AsciiDigit)
                &&& slice_ok(b.src, b.cur as int, b.scan(CharClass::AsciiDigit).cur as int)
            } else {
                true
            }
        }
    }
}

/// The mathematical value of the result of `next_token`.
pub open spec fn token_result_view(r: Result<Token, LexerError>) -> Result<SpecToken, SpecLexerError> {
    match r {
        Ok(t) => Ok(t@),
        Err(e) => Err(e@),
    }
}

// Facts about the lexer's state transitions.

/// Consuming a character keeps the source and moves forward by at most one.
pub proof fn lemma_chop(s: LexState)
    ensures
        s.chop().src == s.src,
        s.chop().blen == s.blen,
        s.has_char() ==> s.chop().cur == s.cur + 1,
        !s.has_char() ==> s.chop() == s,
{
}

/// Scanning keeps the source, never moves backward, and stops at a character
/// outside the class or at the end.
pub proof fn lemma_scan(s: LexState, class: CharClass)
    ensures
        s.scan(class).src == s.src,
        s.scan(class).blen == s.blen,
        s.scan(class).cur >= s.cur,
        s.cur <= s.blen ==> s.scan(class).cur <= s.blen,
        s.scan(class).has_char() ==> !class.holds(s.src[s.scan(class).cur as int]),
        forall|i: int| s.cur <= i < s.scan(class).cur ==> class.holds(#[trigger] s.src[i]),
    decreases s.blen - s.cur,
{
    if s.has_char() && class.holds(s.src[s.cur as int]) {
        lemma_scan(s.chop(), class);
    }
}

/// The count of newlines ahead drops by one exactly when a newline is
/// consumed.
pub proof fn lemma_newlines_step(src: Seq<char>, i: int)
    requires
        0 <= i < src.len(),
    ensures
        newlines_from(src, i) == newlines_from(src, i + 1) + (if src[i] == '\n' {
            1nat
        } else {
            0nat
        }),
{
}

/// A lexable state stays lexable when a character is consumed, and consuming
/// it is safe.
pub proof fn lemma_chop_lexable(s: LexState)
    requires
        s.lexable(),
    ensures
        s.chop_safe(),
        s.chop().lexable(),
{
    if s.has_char() {
        lemma_newlines_step(s.src, s.cur as int);
    }
}

/// Scanning a lexable state is safe and leaves it lexable.
pub proof fn lemma_scan_lexable(s: LexState, class: CharClass)
    requires
        s.lexable(),
    ensures
        s.scan_safe(class),
        s.scan(class).lexable(),
    decreases s.blen - s.cur,
{
    lemma_chop_lexable(s);
    if s.has_char() && class.holds(s.src[s.cur as int]) {
        lemma_scan_lexable(s.chop(), class);
    }
}

/// Skipping blanks in a lexable state is safe and leaves it lexable.
pub proof fn lemma_skip_blank_lexable(s: LexState)
    requires
        s.lexable(),
    ensures
        s.scan_safe(CharClass::Whitespace),
        s.trim_left().lexable(),
        s.trim_left().drop_line_safe(),
        s.trim_left().drop_line().lexable(),
        s.trim_left().drop_line().scan_safe(CharClass::Whitespace),
        s.skip_blank().lexable(),
{
    lemma_scan_lexable(s, CharClass::Whitespace);
    let t = s.trim_left();
    lemma_scan_lexable(t, CharClass::NotNewline);
    let u = t.scan(CharClass::NotNewline);
    lemma_chop_lexable(u);
    lemma_scan_lexable(t.drop_line(), CharClass::Whitespace);
}

/// Reading a token keeps the source and moves forward, strictly when a
/// token comes out, and not past the end when it starts before it; at the
/// end no token comes out.
pub proof fn lemma_next_token_progress(s: LexState)
    ensures
        s.next_token().0.src == s.src,
        s.next_token().0.blen == s.blen,
        s.next_token().0.cur >= s.cur,
        s.cur <= s.blen ==> s.next_token().0.cur <= s.blen,
        s.next_token().1 is Ok ==> s.next_token().0.cur > s.cur,
        s.next_token().1 is Ok ==> s.has_char(),
{
    let t = s.trim_left();
    lemma_scan(s, CharClass::Whitespace);
    lemma_scan(t, CharClass::NotNewline);
    lemma_chop(t.scan(CharClass::NotNewline));
    lemma_scan(t.drop_line(), CharClass::Whitespace);
    let b = s.skip_blank();
    if b.has_char() {
        lemma_scan(b, CharClass::Alphanumeric);
        lemma_scan(b, CharClass::AsciiDigit);
        lemma_chop(b);
        let c = b.chop();
        lemma_scan(c, CharClass::NotQuote);
        lemma_chop(c.scan(CharClass::NotQuote));
    }
}

/// In an ASCII source every offset up to its length is a character
/// boundary, and the text between two offsets is the characters between
/// them.
pub proof fn lemma_ascii_slice(src: Seq<char>, a: int, b: int)
    requires
        is_ascii_chars(src),
        0 <= a <= b <= src.len(),
    ensures
        slice_ok(src, a, b),
        byte_slice(src, a, b) == src.subrange(a, b),
{
    let bytes = encode_utf8(src);
    is_ascii_chars_encode_utf8(src);
    is_ascii_chars_nat_bound(src);
    encode_utf8_valid_utf8(src);
    is_char_boundary_start_end_of_seq(bytes);
    if a < bytes.len() {
        is_char_boundary_iff_not_is_continuation_byte(bytes, a);
    }
    if b < bytes.len() {
        is_char_boundary_iff_not_is_continuation_byte(bytes, b);
    }
    let sub = src.subrange(a, b);
    assert(is_ascii_chars(sub));
    is_ascii_chars_encode_utf8(sub);
    assert(encode_utf8(sub) =~= bytes.subrange(a, b));
    encode_utf8_decode_utf8(sub);
}

/// A token read from a lexable state leaves the lexer lexable, and reading
/// it is safe.
pub proof fn lemma_next_token_lexable(s: LexState)
    requires
        s.lexable(),
    ensures
        s.next_token_safe(),
        s.next_token().0.lexable(),
{
    lemma_skip_blank_lexable(s);
    lemma_next_token_progress(s);
    let t = s.trim_left();
    lemma_scan(s, CharClass::Whitespace);
    lemma_scan(t, CharClass::NotNewline);
    lemma_chop(t.scan(CharClass::NotNewline));
    lemma_scan(t.drop_line(), CharClass::Whitespace);
    let b = s.skip_blank();
    if b.has_char() {
        lemma_scan(b, CharClass::Alphanumeric);
        lemma_scan_lexable(b, CharClass::Alphanumeric);
        lemma_ascii_slice(b.src, b.cur as int, b.scan(CharClass::Alphanumeric).cur as int);
        lemma_scan(b, CharClass::AsciiDigit);
        lemma_scan_lexable(b, CharClass::AsciiDigit);
        lemma_ascii_slice(b.src, b.cur as int, b.scan(CharClass::AsciiDigit).cur as int);
        lemma_chop(b);
        lemma_chop_lexable(b);
        let c = b.chop();
        lemma_scan(c, CharClass::NotQuote);
        lemma_scan_lexable(c, CharClass::NotQuote);
        let e = c.scan(CharClass::NotQuote);
        lemma_chop(e);
        lemma_chop_lexable(e);
        if e.has_char() {
            lemma_ascii_slice(b.src, c.cur as int, e.cur as int);
        }
    }
}

/// A source is at least as long in bytes as in characters, and as long only
/// when it is ASCII.
pub proof fn lemma_utf8_len(src: Seq<char>)
    ensures
        encode_utf8(src).len() >= src.len(),
        encode_utf8(src).len() == src.len() ==> is_ascii_chars(src),
    decreases src.len(),
{
    if src.len() > 0 {
        let rest = src.drop_first();
        lemma_utf8_len(rest);
        let c = src[0] as u32;
        assert(encode_utf8(src) == vstd::utf8::encode_scalar(c) + encode_utf8(rest));
        assert(vstd::utf8::encode_scalar(c).len() >= 1);
        if encode_utf8(src).len() == src.len() {
            assert(vstd::utf8::encode_scalar(c).len() == 1);
            assert(vstd::utf8::has_width_1_encoding(c));
            assert forall|i: int| 0 <= i < src.len() implies '\0' <= #[trigger] src[i] <= '\u{7f}' by {
                if i > 0 {
                    assert(src[i] == rest[i - 1]);
                    assert('\0' <= rest[i - 1] <= '\u{7f}');
                } else {
                    vstd::utf8::char_u32_cast(src[0], c);
                    assert(c <= 0x7f);
                    assert((c as char) <= '\u{7f}');
                }
            }
        }
    }
}

/// Scanning safely from a character index within the characters stays
/// within them.
pub proof fn lemma_scan_within(s: LexState, class: CharClass)
    requires
        s.scan_safe(class),
        s.cur <= s.src.len(),
    ensures
        s.scan(class).cur <= s.src.len(),
    decreases s.blen - s.cur,
{
    if s.has_char() && class.holds(s.src[s.cur as int]) {
        lemma_scan_within(s.chop(), class);
    }
}

/// Reading a token safely from a character index within the characters
/// stays within them.
pub proof fn lemma_next_token_within(s: LexState)
    requires
        s.next_token_safe(),
        s.cur <= s.src.len(),
    ensures
        s.next_token().0.cur <= s.src.len(),
{
    lemma_scan_within(s, CharClass::Whitespace);
    let t = s.trim_left();
    lemma_scan(s, CharClass::Whitespace);
    if t.cur < t.src.len() && t.src[t.cur as int] == '#' {
        lemma_scan_within(t, CharClass::NotNewline);
        lemma_scan(t, CharClass::NotNewline);
        lemma_chop(t.scan(CharClass::NotNewline));
        lemma_scan_within(t.drop_line(), CharClass::Whitespace);
        lemma_scan(t.drop_line(), CharClass::Whitespace);
    }
    let b = s.skip_blank();
    if b.has_char() {
        let first = b.src[b.cur as int];
        lemma_chop(b);
        if char_is_alphabetic(first) {
            lemma_scan_within(b, CharClass::Alphanumeric);
        } else if literal_token(first) is Some {
        } else if first == '"' {
            let c = b.chop();
            lemma_scan_within(c, CharClass::NotQuote);
            lemma_scan(c, CharClass::NotQuote);
            lemma_chop(c.scan(CharClass::NotQuote));
        } else if is_digit(first) {
            lemma_scan_within(b, CharClass::AsciiDigit);
        }
    }
}

/// The text of a source between two byte offsets at character boundaries.
fn slice_str(s: &str, a: usize, b: usize) -> (res: &str)
    requires
        slice_ok(s@, a as int, b as int),
    ensures
        res@ == byte_slice(s@, a as int, b as int),
{
    let ghost bytes = encode_utf8(s@);
    proof {
        encode_utf8_valid_utf8(s@);
        valid_utf8_split(bytes, a as int);
        let rest = bytes.subrange(a as int, bytes.len() as int);
        encode_utf8_valid_utf8(s@);
        is_char_boundary_start_end_of_seq(rest);
        if b < bytes.len() && b > a {
            is_char_boundary_iff_not_is_continuation_byte(bytes, b as int);
            is_char_boundary_iff_not_is_continuation_byte(rest, b - a);
            assert(rest[b - a] == bytes[b as int]);
        }
        if b == bytes.len() {
            assert(rest.len() == b - a);
        }
    }
    let (_, rest) = s.split_at(a);
    let (mid, _) = rest.split_at(b - a);
    proof {
        assert(mid.spec_bytes() =~= bytes.subrange(a as int, b as int));
        encode_utf8_decode_utf8(mid@);
    }
    mid
}

impl Loc {
    pub fn new(row: usize, col: usize) -> (loc: Loc)
        ensures
            loc.row == row,
            loc.col == col,
    {
        return Loc { row, col };
    }

    /// The location as `line:column`, both counted from 1.
    pub fn to_string(&self) -> (res: String)
        ensures
            res@ == loc_display(*self),
    {
        let mut s = decimal_string(self.row as u128 + 1);
        s.append(":");
        let col = decimal_string(self.col as u128 + 1);
        s.append(col.as_str());
        proof {
            reveal_strlit(":");
        }
        return s;
    }
}

impl Token {
    pub fn new(token: TokenEnum, value: String, loc: Loc) -> (t: Token)
        ensures
            t.token == token,
            t.value == value,
            t.loc == loc,
    {
        Token { token, value, loc }
    }
}

/// The punctuation token for a character, with its text.
fn literal_token_of(c: char) -> (res: Option<(TokenEnum, &'static str)>)
    ensures
        res is Some <==> literal_token(c) is Some,
        res matches Some((kind, text)) ==> kind == literal_token(c)->0 && text@ == seq![c],
{
    if c == '(' {
        proof {
            reveal_strlit("(");
        }
        Some((TokenEnum::OParan, "("))
    } else if c == ')' {
        proof {
            reveal_strlit(")");
        }
        Some((TokenEnum::CParan, ")"))
    } else if c == '{' {
        proof {
            reveal_strlit("{");
        }
        Some((TokenEnum::OCurly, "{"))
    } else if c == '}' {
        proof {
            reveal_strlit("}");
        }
        Some((TokenEnum::CCurly, "}"))
    } else if c == ';' {
        proof {
            reveal_strlit(";");
        }
        Some((TokenEnum::SemiColon, ";"))
    } else if c == '-' {
        proof {
            reveal_strlit("-");
        }
        Some((TokenEnum::Dash, "-"))
    } else if c == '/' {
        proof {
            reveal_strlit("/");
        }
        Some((TokenEnum::ForwardSlash, "/"))
    } else if c == '\\' {
        proof {
            reveal_strlit("\\");
        }
        Some((TokenEnum::BackSlash, "\\"))
    } else {
        None
    }
}

impl Lexer {
    pub fn new(source: String) -> (lex: Lexer)
        ensures
            lex.source == source,
            lex.cur == 0,
            lex.bol == 0,
            lex.row == 0,
    {
        Lexer { source, cur: 0, bol: 0, row: 0 }
    }

    /// Whether characters are left: `cur` is below the byte length of the
    /// source.
    pub fn has_char(&self) -> (res: bool)
        ensures
            res == self@.has_char(),
            self@.blen <= usize::MAX,
    {
        let bytes = self.source.as_str().as_bytes();
        proof {
            vstd::slice::axiom_spec_len(bytes);
        }
        return self.cur < bytes.len();
    }

    pub fn is_eof(&self) -> (res: bool)
        ensures
            res == !self@.has_char(),
            self@.blen <= usize::MAX,
    {
        return !self.has_char();
    }

    /// Consumes the longest run of characters of a class.
    fn scan(&mut self, class: CharClass)
        requires
            old(self)@.scan_safe(class),
        ensures
            final(self)@ == old(self)@.scan(class),
            final(self).source == old(self).source,
        decreases old(self)@.blen - old(self)@.cur,
    {
        if self.has_char() && class.test(self.current_char()) {
            self.chop_char();
            self.scan(class);
        }
    }

    /// Skips whitespace.
    pub fn trim_left(&mut self)
        requires
            old(self)@.scan_safe(CharClass::Whitespace),
        ensures
            final(self)@ == old(self)@.trim_left(),
            final(self).source == old(self).source,
    {
        self.scan(CharClass::Whitespace);
    }

    /// Consumes one character, counting the line it ends if it is a newline.
    pub fn chop_char(&mut self)
        requires
            old(self)@.chop_safe(),
        ensures
            final(self)@ == old(self)@.chop(),
            final(self).source == old(self).source,
    {
        if self.has_char() {
            let x = self.current_char();
            self.cur += 1;

            if x == '\n' {
                self.bol = self.cur;
                self.row += 1
            }
        }
    }

    /// The next character, if any.
    pub fn curent_char_peek(&self) -> (res: Option<char>)
        ensures
            res == (if self.cur < self.source@.len() {
                Some(self.source@[self.cur as int])
            } else {
                None::<char>
            }),
    {
        let s = self.source.as_str();
        if self.cur < s.unicode_len() {
            Some(s.get_char(self.cur))
        } else {
            None
        }
    }

    /// The next character.
    pub fn current_char(&self) -> (res: char)
        requires
            self.cur < self.source@.len(),
        ensures
            res == self.source@[self.cur as int],
    {
        return self.source.as_str().get_char(self.cur);
    }

    /// The character after the next one, if any.
    pub fn peek(&self) -> (res: Option<char>)
        ensures
            res == (if self.cur + 1 < self.source@.len() {
                Some(self.source@[self.cur + 1])
            } else {
                None::<char>
            }),
    {
        let s = self.source.as_str();
        let n = s.unicode_len();
        if self.cur < n && self.cur + 1 < n {
            Some(s.get_char(self.cur + 1))
        } else {
            None
        }
    }

    /// Skips the rest of the line and its newline.
    fn drop_line(&mut self)
        requires
            old(self)@.drop_line_safe(),
        ensures
            final(self)@ == old(self)@.drop_line(),
            final(self).source == old(self).source,
    {
        self.scan(CharClass::NotNewline);

        if self.has_char() {
            self.chop_char();
        }
    }

    /// The location of the next character.
    pub fn loc(&self) -> (loc: Loc)
        ensures
            loc == self@.loc(),
    {
        return Loc::new(self.row, self.cur);
    }

    /// Reads the next token.
    pub fn next_token(&mut self) -> (res: Result<Token, LexerError>)
        requires
            old(self)@.next_token_safe(),
        ensures
            (final(self)@, token_result_view(res)) == old(self)@.next_token(),
            final(self).source == old(self).source,
    {
        let ghost s0 = self@;
        self.trim_left();

        match self.curent_char_peek() {
            Some(c) => {
                if c == '#' {
                    self.drop_line();
                    self.trim_left();
                }
            },
            None => {},
        }

        if self.is_eof() {
            return Err(LexerError::EOF);
        }
        let ghost s = self@;
        let loc = self.loc();
        let first = self.current_char();

        if is_alphabetic(first) {
            let index = self.cur;
            self.scan(CharClass::Alphanumeric);
            let value = slice_str(self.source.as_str(), index, self.cur);
            let token = Token::new(TokenEnum::Name, String::from_str(value), loc);

            return Ok(token);
        }
        if let Some((kind, text)) = literal_token_of(first) {
            self.chop_char();
            let token = Token::new(kind, String::from_str(text), loc);
            return Ok(token);
        }
        if first == '"' {
            self.chop_char();
            let start = self.cur;
            self.scan(CharClass::NotQuote);

            if self.has_char() {
                let value = String::from_str(slice_str(self.source.as_str(), start, self.cur));
                self.chop_char();
                let token = Token::new(TokenEnum::String, value, loc);

                return Ok(token);
            }
            return Err(LexerError::UnclosedStringLiteral(loc.to_string()));
        }
        if '0' <= first && first <= '9' {
            let index = self.cur;
            self.scan(CharClass::AsciiDigit);
            let value = slice_str(self.source.as_str(), index, self.cur);
            let token = Token::new(TokenEnum::Number, String::from_str(value), loc);

            return Ok(token);
        }
        return Err(LexerError::NotImplemented);
    }
}

} // verus!
