//! The lexer: source text to tokens, read one at a time with one token of
//! lookahead.
//!
//! Blanks (space, tab, line feed, carriage return) separate tokens and are
//! otherwise skipped. A word is a run of letters, digits and the characters
//! `_ . / - * ? ~ :`; every character outside ASCII counts as a letter. The
//! tokens are:
//!
//! | text | kind |
//! |---|---|
//! | `;` | separator |
//! | `\|` | pipe |
//! | `=` | assign |
//! | `==` `!=` `>` `>=` `<` `<=` `=~` `!~` | comparison and match operators |
//! | `{` `` `{ `` `*{` | block start; the first character is the sigil |
//! | `}` | block end |
//! | `[` `]` | list start and end |
//! | `"..."` with `\` escaping the next character | quoted string |
//! | `r{...}` up to the first `}` | regex |
//! | `$word` `@word` `%word` | variable, array variable, field |
//! | a word that starts with a digit, or with `-` and a digit | integer |
//! | another word with `*` or `?` in it | glob |
//! | any other word | string |
//!
//! Text that is none of these is an error token, and so is a quoted string
//! or a regex that is not closed. The stream ends with the first error
//! token, or at the end of the text: there with the end-of-input token, or
//! with an error token when a block was started and not ended.
use vstd::prelude::*;
use crate::text::{to_chars, from_chars};

verus! {

/// The kinds of tokens.
#[derive(Debug, Clone, Copy, PartialEq, Eq, Structural)]
pub enum TokenType {
    String,
    QuotedString,
    Integer,
    Glob,
    Regex,
    BlockStart,
    BlockEnd,
    ListStart,
    ListEnd,
    Pipe,
    Separator,
    Assign,
    Variable,
    ArrayVariable,
    Field,
    Equal,
    NotEqual,
    GreaterThan,
    GreaterThanOrEqual,
    LessThan,
    LessThanOrEqual,
    Match,
    NotMatch,
    EOF,
    Error,
}

/// The name of a kind of token.
pub open spec fn kind_name(kind: TokenType) -> Seq<char> {
    match kind {
        TokenType::String => "String"@,
        TokenType::QuotedString => "QuotedString"@,
        TokenType::Integer => "Integer"@,
        TokenType::Glob => "Glob"@,
        TokenType::Regex => "Regex"@,
        TokenType::BlockStart => "BlockStart"@,
        TokenType::BlockEnd => "BlockEnd"@,
        TokenType::ListStart => "ListStart"@,
        TokenType::ListEnd => "ListEnd"@,
        TokenType::Pipe => "Pipe"@,
        TokenType::Separator => "Separator"@,
        TokenType::Assign => "Assign"@,
        TokenType::Variable => "Variable"@,
        TokenType::ArrayVariable => "ArrayVariable"@,
        TokenType::Field => "Field"@,
        TokenType::Equal => "Equal"@,
        TokenType::NotEqual => "NotEqual"@,
        TokenType::GreaterThan => "GreaterThan"@,
        TokenType::GreaterThanOrEqual => "GreaterThanOrEqual"@,
        TokenType::LessThan => "LessThan"@,
        TokenType::LessThanOrEqual => "LessThanOrEqual"@,
        TokenType::Match => "Match"@,
        TokenType::NotMatch => "NotMatch"@,
        TokenType::EOF => "EOF"@,
        TokenType::Error => "Error"@,
    }
}

impl TokenType {
    /// The name of this kind.
    pub fn name(&self) -> (name: &'static str)
        ensures
            name@ == kind_name(*self),
    {
        match self {
            TokenType::String => "String",
            TokenType::QuotedString => "QuotedString",
            TokenType::Integer => "Integer",
            TokenType::Glob => "Glob",
            TokenType::Regex => "Regex",
            TokenType::BlockStart => "BlockStart",
            TokenType::BlockEnd => "BlockEnd",
            TokenType::ListStart => "ListStart",
            TokenType::ListEnd => "ListEnd",
            TokenType::Pipe => "Pipe",
            TokenType::Separator => "Separator",
            TokenType::Assign => "Assign",
            TokenType::Variable => "Variable",
            TokenType::ArrayVariable => "ArrayVariable",
            TokenType::Field => "Field",
            TokenType::Equal => "Equal",
            TokenType::NotEqual => "NotEqual",
            TokenType::GreaterThan => "GreaterThan",
            TokenType::GreaterThanOrEqual => "GreaterThanOrEqual",
            TokenType::LessThan => "LessThan",
            TokenType::LessThanOrEqual => "LessThanOrEqual",
            TokenType::Match => "Match",
            TokenType::NotMatch => "NotMatch",
            TokenType::EOF => "EOF",
            TokenType::Error => "Error",
        }
    }
}

/// A token: its kind, its text and the offset of its first character.
#[derive(Debug, Clone)]
pub struct Token {
    pub kind: TokenType,
    pub text: String,
    pub position: usize,
}

/// The mathematical view of a token.
pub struct TokenView {
    pub kind: TokenType,
    pub text: Seq<char>,
    pub position: nat,
}

impl View for Token {
    type V = TokenView;

    open spec fn view(&self) -> TokenView {
        TokenView { kind: self.kind, text: self.text@, position: self.position as nat }
    }
}

/// The views of a sequence of tokens, in order.
pub open spec fn token_views(v: Seq<Token>) -> Seq<TokenView> {
    v.map_values(|t: Token| t@)
}

pub open spec fn is_blank(c: char) -> bool {
    c == ' ' || c == '\t' || c == '\n' || c == '\r'
}

pub open spec fn is_digit(c: char) -> bool {
    '0' <= c <= '9'
}

/// Letters: those of ASCII, and every character outside ASCII.
pub open spec fn is_letter(c: char) -> bool {
    'a' <= c <= 'z' || 'A' <= c <= 'Z' || c as u32 >= 0x80
}

pub open spec fn is_wildcard(c: char) -> bool {
    c == '*' || c == '?'
}

pub open spec fn is_word(c: char) -> bool {
    is_letter(c) || is_digit(c) || is_wildcard(c) || c == '_' || c == '.' || c == '/' || c == '-'
        || c == '~' || c == ':'
}

/// The first offset at or after `i` that holds no blank.
pub open spec fn blank_end(text: Seq<char>, i: int) -> int
    decreases text.len() - i,
{
    if 0 <= i < text.len() && is_blank(text[i]) {
        blank_end(text, i + 1)
    } else {
        i
    }
}

/// The first offset at or after `i` that holds no word character.
pub open spec fn word_end(text: Seq<char>, i: int) -> int
    decreases text.len() - i,
{
    if 0 <= i < text.len() && is_word(text[i]) {
        word_end(text, i + 1)
    } else {
        i
    }
}

/// The offset after the quote that closes a quoted string whose body starts
/// at `i`, or `None` when the text ends first. A backslash takes the next
/// character with it.
pub open spec fn quoted_end(text: Seq<char>, i: int) -> Option<int>
    decreases text.len() - i,
{
    if i < 0 || i >= text.len() {
        None
    } else if text[i] == '"' {
        Some(i + 1)
    } else if text[i] == '\\' {
        if i + 1 < text.len() {
            quoted_end(text, i + 2)
        } else {
            None
        }
    } else {
        quoted_end(text, i + 1)
    }
}

/// The offset after the first `}` at or after `i`, or `None` when there is
/// none.
pub open spec fn brace_end(text: Seq<char>, i: int) -> Option<int>
    decreases text.len() - i,
{
    if i < 0 || i >= text.len() {
        None
    } else if text[i] == '}' {
        Some(i + 1)
    } else {
        brace_end(text, i + 1)
    }
}

/// Whether `text[from..to]` holds a wildcard.
pub open spec fn has_wildcard(text: Seq<char>, from: int, to: int) -> bool {
    exists|i: int| from <= i < to && is_wildcard(#[trigger] text[i])
}

/// The character at `i`, if there is one.
pub open spec fn char_at(text: Seq<char>, i: int) -> Option<char> {
    if 0 <= i < text.len() {
        Some(text[i])
    } else {
        None
    }
}

/// The kind of the token that starts at `start`, and the offset after it.
pub open spec fn scan(text: Seq<char>, start: int) -> (TokenType, int)
    recommends
        0 <= start < text.len(),
{
    let c = text[start];
    let next = char_at(text, start + 1);
    if c == ';' {
        (TokenType::Separator, start + 1)
    } else if c == '|' {
        (TokenType::Pipe, start + 1)
    } else if c == '=' {
        if next == Some('=') {
            (TokenType::Equal, start + 2)
        } else if next == Some('~') {
            (TokenType::Match, start + 2)
        } else {
            (TokenType::Assign, start + 1)
        }
    } else if c == '!' {
        if next == Some('=') {
            (TokenType::NotEqual, start + 2)
        } else if next == Some('~') {
            (TokenType::NotMatch, start + 2)
        } else {
            (TokenType::Error, start + 1)
        }
    } else if c == '>' {
        if next == Some('=') {
            (TokenType::GreaterThanOrEqual, start + 2)
        } else {
            (TokenType::GreaterThan, start + 1)
        }
    } else if c == '<' {
        if next == Some('=') {
            (TokenType::LessThanOrEqual, start + 2)
        } else {
            (TokenType::LessThan, start + 1)
        }
    } else if c == '{' {
        (TokenType::BlockStart, start + 1)
    } else if c == '}' {
        (TokenType::BlockEnd, start + 1)
    } else if (c == '`' || c == '*') && next == Some('{') {
        (TokenType::BlockStart, start + 2)
    } else if c == '[' {
        (TokenType::ListStart, start + 1)
    } else if c == ']' {
        (TokenType::ListEnd, start + 1)
    } else if c == '"' {
        match quoted_end(text, start + 1) {
            Some(end) => (TokenType::QuotedString, end),
            None => (TokenType::Error, text.len() as int),
        }
    } else if c == 'r' && next == Some('{') {
        match brace_end(text, start + 2) {
            Some(end) => (TokenType::Regex, end),
            None => (TokenType::Error, text.len() as int),
        }
    } else if c == '$' {
        (TokenType::Variable, word_end(text, start + 1))
    } else if c == '@' {
        (TokenType::ArrayVariable, word_end(text, start + 1))
    } else if c == '%' {
        (TokenType::Field, word_end(text, start + 1))
    } else if is_digit(c) || (c == '-' && next is Some && is_digit(next->0)) {
        (TokenType::Integer, word_end(text, start + 1))
    } else if is_word(c) {
        let end = word_end(text, start + 1);
        if has_wildcard(text, start, end) {
            (TokenType::Glob, end)
        } else {
            (TokenType::String, end)
        }
    } else {
        (TokenType::Error, start + 1)
    }
}

/// The token that ends a stream at the end of the text.
pub open spec fn end_token(text: Seq<char>) -> TokenView {
    TokenView { kind: TokenType::EOF, text: Seq::<char>::empty(), position: text.len() }
}

/// The token that ends a stream at the end of the text when a block is
/// still open.
pub open spec fn unclosed_token(text: Seq<char>) -> TokenView {
    TokenView { kind: TokenType::Error, text: Seq::<char>::empty(), position: text.len() }
}

/// The number of open blocks after a token of the given kind.
pub open spec fn depth_after(depth: nat, kind: TokenType) -> nat {
    if kind == TokenType::BlockStart {
        depth + 1
    } else if kind == TokenType::BlockEnd && depth > 0 {
        (depth - 1) as nat
    } else {
        depth
    }
}

/// The tokens of `text` from offset `pos` on, where `depth` blocks are
/// open. The last one is the end-of-input token or an error token.
pub open spec fn tokens_from(text: Seq<char>, pos: int, depth: nat) -> Seq<TokenView>
    decreases text.len() - pos,
    via tokens_from_decreases
{
    let start = blank_end(text, pos);
    if pos < 0 || start >= text.len() {
        if depth > 0 {
            seq![unclosed_token(text)]
        } else {
            seq![end_token(text)]
        }
    } else {
        let found = scan(text, start);
        let token = TokenView {
            kind: found.0,
            text: text.subrange(start, found.1),
            position: start as nat,
        };
        if found.0 == TokenType::Error {
            seq![token]
        } else {
            seq![token] + tokens_from(text, found.1, depth_after(depth, found.0))
        }
    }
}

#[via_fn]
proof fn tokens_from_decreases(text: Seq<char>, pos: int, depth: nat) {
    if pos >= 0 {
        lemma_blank_end(text, pos);
        if blank_end(text, pos) < text.len() {
            lemma_scan_advances(text, blank_end(text, pos));
        }
    }
}

/// The tokens of a text.
pub open spec fn tokenize(text: Seq<char>) -> Seq<TokenView> {
    tokens_from(text, 0, 0)
}

pub proof fn lemma_blank_end(text: Seq<char>, i: int)
    requires
        0 <= i,
    ensures
        i <= blank_end(text, i),
        i <= text.len() ==> blank_end(text, i) <= text.len(),
        blank_end(text, i) < text.len() ==> !is_blank(text[blank_end(text, i)]),
    decreases text.len() - i,
{
    if i < text.len() && is_blank(text[i]) {
        lemma_blank_end(text, i + 1);
    }
}

pub proof fn lemma_word_end(text: Seq<char>, i: int)
    requires
        0 <= i,
    ensures
        i <= word_end(text, i),
        i <= text.len() ==> word_end(text, i) <= text.len(),
        forall|j: int| i <= j < word_end(text, i) ==> is_word(#[trigger] text[j]),
        word_end(text, i) < text.len() ==> !is_word(text[word_end(text, i)]),
    decreases text.len() - i,
{
    if i < text.len() && is_word(text[i]) {
        lemma_word_end(text, i + 1);
    }
}

pub proof fn lemma_quoted_end(text: Seq<char>, i: int)
    requires
        0 <= i,
    ensures
        quoted_end(text, i) matches Some(end) ==> i < end <= text.len(),
    decreases text.len() - i,
{
    if i < text.len() && text[i] != '"' {
        if text[i] == '\\' {
            if i + 1 < text.len() {
                lemma_quoted_end(text, i + 2);
            }
        } else {
            lemma_quoted_end(text, i + 1);
        }
    }
}

pub proof fn lemma_brace_end(text: Seq<char>, i: int)
    requires
        0 <= i,
    ensures
        brace_end(text, i) matches Some(end) ==> i < end <= text.len(),
    decreases text.len() - i,
{
    if i < text.len() && text[i] != '}' {
        lemma_brace_end(text, i + 1);
    }
}

/// Every token holds at least one character and ends within the text.
pub proof fn lemma_scan_advances(text: Seq<char>, start: int)
    requires
        0 <= start < text.len(),
    ensures
        start < scan(text, start).1 <= text.len(),
{
    lemma_word_end(text, start + 1);
    lemma_quoted_end(text, start + 1);
    lemma_brace_end(text, start + 2);
}

/// A stream of tokens is well formed when it ends with the end-of-input
/// token or an error token and holds neither before its end.
pub open spec fn well_formed_stream(tokens: Seq<TokenView>) -> bool {
    &&& tokens.len() >= 1
    &&& is_final(tokens.last().kind)
    &&& forall|i: int| 0 <= i < tokens.len() - 1 ==> !is_final((#[trigger] tokens[i]).kind)
}

/// The kinds that end a stream.
pub open spec fn is_final(kind: TokenType) -> bool {
    kind == TokenType::EOF || kind == TokenType::Error
}

/// The tokens of a text form a well-formed stream.
pub proof fn lemma_tokens_well_formed(text: Seq<char>, pos: int, depth: nat)
    requires
        0 <= pos,
    ensures
        well_formed_stream(tokens_from(text, pos, depth)),
    decreases text.len() - pos,
{
    lemma_blank_end(text, pos);
    let start = blank_end(text, pos);
    if start < text.len() {
        lemma_scan_advances(text, start);
        let found = scan(text, start);
        if found.0 != TokenType::Error {
            lemma_tokens_well_formed(text, found.1, depth_after(depth, found.0));
            lemma_scan_never_eof(text, start);
            let rest = tokens_from(text, found.1, depth_after(depth, found.0));
            let all = tokens_from(text, pos, depth);
            assert(all.len() == rest.len() + 1);
            assert(all.last() == rest.last());
            assert forall|i: int| 0 <= i < all.len() - 1 implies !is_final(
                (#[trigger] all[i]).kind,
            ) by {
                if i > 0 {
                    assert(all[i] == rest[i - 1]);
                }
            }
        }
    }
}

/// Whether a token stands in the text where it says, at or after `from`.
pub open spec fn spans(text: Seq<char>, token: TokenView, from: int) -> bool {
    &&& from <= token.position
    &&& token.position + token.text.len() <= text.len()
    &&& text.subrange(token.position as int, (token.position + token.text.len()) as int)
        == token.text
}

/// Tokens are pieces of the text: each token holds the characters that
/// stand at its position, and each token starts where the one before it
/// has ended, or further on.
pub proof fn lemma_tokens_span(text: Seq<char>, pos: int, depth: nat)
    requires
        0 <= pos <= text.len(),
    ensures
        forall|i: int|
            0 <= i < tokens_from(text, pos, depth).len() ==> spans(
                text,
                #[trigger] tokens_from(text, pos, depth)[i],
                pos,
            ),
        forall|i: int, j: int|
            0 <= i < j < tokens_from(text, pos, depth).len() ==> (#[trigger] tokens_from(
                text,
                pos,
                depth,
            )[i]).position + tokens_from(text, pos, depth)[i].text.len() <= (#[trigger] tokens_from(
                text,
                pos,
                depth,
            )[j]).position,
    decreases text.len() - pos,
{
    let all = tokens_from(text, pos, depth);
    lemma_blank_end(text, pos);
    let start = blank_end(text, pos);
    if start >= text.len() {
        assert(text.subrange(text.len() as int, text.len() as int) =~= Seq::<char>::empty());
    } else {
        lemma_scan_advances(text, start);
        let found = scan(text, start);
        if found.0 != TokenType::Error {
            let rest = tokens_from(text, found.1, depth_after(depth, found.0));
            lemma_tokens_span(text, found.1, depth_after(depth, found.0));
            assert forall|i: int| 0 <= i < all.len() implies spans(text, #[trigger] all[i], pos) by {
                if i > 0 {
                    assert(all[i] == rest[i - 1]);
                    assert(spans(text, rest[i - 1], found.1));
                }
            }
            assert forall|i: int, j: int| 0 <= i < j < all.len() implies (#[trigger] all[i]).position
                + all[i].text.len() <= (#[trigger] all[j]).position by {
                assert(all[j] == rest[j - 1]);
                assert(spans(text, rest[j - 1], found.1));
                if i > 0 {
                    assert(all[i] == rest[i - 1]);
                }
            }
        }
    }
}

/// An error token without text is the token that ends the stream of a text
/// that leaves a block open; every other error token holds the text that
/// is no token.
pub proof fn lemma_error_without_text(text: Seq<char>, pos: int, depth: nat)
    requires
        0 <= pos,
    ensures
        forall|i: int|
            0 <= i < tokens_from(text, pos, depth).len() && (#[trigger] tokens_from(
                text,
                pos,
                depth,
            )[i]).kind == TokenType::Error && tokens_from(text, pos, depth)[i].text.len() == 0
                ==> tokens_from(text, pos, depth)[i] == unclosed_token(text),
    decreases text.len() - pos,
{
    let all = tokens_from(text, pos, depth);
    lemma_blank_end(text, pos);
    let start = blank_end(text, pos);
    if start < text.len() {
        lemma_scan_advances(text, start);
        let found = scan(text, start);
        assert(text.subrange(start, found.1).len() > 0);
        if found.0 != TokenType::Error {
            let rest = tokens_from(text, found.1, depth_after(depth, found.0));
            lemma_error_without_text(text, found.1, depth_after(depth, found.0));
            assert forall|i: int|
                0 <= i < all.len() && (#[trigger] all[i]).kind == TokenType::Error
                    && all[i].text.len() == 0 implies all[i] == unclosed_token(text) by {
                if i > 0 {
                    assert(all[i] == rest[i - 1]);
                }
            }
        }
    }
}

/// No token within the text is the end-of-input token.
pub proof fn lemma_scan_never_eof(text: Seq<char>, start: int)
    requires
        0 <= start < text.len(),
    ensures
        scan(text, start).0 != TokenType::EOF,
{
}

fn blank(c: char) -> (b: bool)
    ensures
        b == is_blank(c),
{
    c == ' ' || c == '\t' || c == '\n' || c == '\r'
}

fn digit(c: char) -> (b: bool)
    ensures
        b == is_digit(c),
{
    '0' <= c && c <= '9'
}

fn wildcard(c: char) -> (b: bool)
    ensures
        b == is_wildcard(c),
{
    c == '*' || c == '?'
}

fn word(c: char) -> (b: bool)
    ensures
        b == is_word(c),
{
    ('a' <= c && c <= 'z') || ('A' <= c && c <= 'Z') || c as u32 >= 0x80 || digit(c) || wildcard(
        c,
    ) || c == '_' || c == '.' || c == '/' || c == '-' || c == '~' || c == ':'
}

fn skip_blank(text: &Vec<char>, from: usize) -> (end: usize)
    requires
        from <= text.len(),
    ensures
        end == blank_end(text@, from as int),
        from <= end <= text.len(),
{
    let mut i = from;
    while i < text.len() && blank(text[i])
        invariant
            from <= i <= text.len(),
            blank_end(text@, from as int) == blank_end(text@, i as int),
        decreases text.len() - i,
    {
        i += 1;
    }
    i
}

fn skip_word(text: &Vec<char>, from: usize) -> (end: usize)
    requires
        from <= text.len(),
    ensures
        end == word_end(text@, from as int),
        from <= end <= text.len(),
{
    let mut i = from;
    while i < text.len() && word(text[i])
        invariant
            from <= i <= text.len(),
            word_end(text@, from as int) == word_end(text@, i as int),
        decreases text.len() - i,
    {
        i += 1;
    }
    i
}

fn skip_quoted(text: &Vec<char>, from: usize) -> (end: Option<usize>)
    requires
        from <= text.len(),
    ensures
        end matches Some(e) ==> quoted_end(text@, from as int) == Some(e as int) && from < e
            <= text.len(),
        end is None ==> quoted_end(text@, from as int) is None,
{
    let mut i = from;
    while i < text.len()
        invariant
            from <= i <= text.len(),
            quoted_end(text@, from as int) == quoted_end(text@, i as int),
        decreases text.len() - i,
    {
        let c = text[i];
        if c == '"' {
            return Some(i + 1);
        } else if c == '\\' {
            if i + 1 < text.len() {
                i += 2;
            } else {
                return None;
            }
        } else {
            i += 1;
        }
    }
    None
}

fn skip_to_brace(text: &Vec<char>, from: usize) -> (end: Option<usize>)
    requires
        from <= text.len(),
    ensures
        end matches Some(e) ==> brace_end(text@, from as int) == Some(e as int) && from < e
            <= text.len(),
        end is None ==> brace_end(text@, from as int) is None,
{
    let mut i = from;
    while i < text.len()
        invariant
            from <= i <= text.len(),
            brace_end(text@, from as int) == brace_end(text@, i as int),
        decreases text.len() - i,
    {
        if text[i] == '}' {
            return Some(i + 1);
        }
        i += 1;
    }
    None
}

fn find_wildcard(text: &Vec<char>, from: usize, to: usize) -> (found: bool)
    requires
        from <= to <= text.len(),
    ensures
        found == has_wildcard(text@, from as int, to as int),
{
    let mut i = from;
    while i < to
        invariant
            from <= i <= to <= text.len(),
            !has_wildcard(text@, from as int, i as int),
        decreases to - i,
    {
        if wildcard(text[i]) {
            return true;
        }
        i += 1;
    }
    false
}

/// Whether the character at `i` is `c`.
fn holds(text: &Vec<char>, i: usize, c: char) -> (b: bool)
    ensures
        b == (char_at(text@, i as int) == Some(c)),
{
    i < text.len() && text[i] == c
}

fn scan_token(text: &Vec<char>, start: usize) -> (found: (TokenType, usize))
    requires
        start < text.len(),
    ensures
        found.0 == scan(text@, start as int).0,
        found.1 == scan(text@, start as int).1,
        start < found.1 <= text.len(),
{
    proof {
        lemma_scan_advances(text@, start as int);
    }
    let c = text[start];
    let after = start + 1;
    if c == ';' {
        (TokenType::Separator, after)
    } else if c == '|' {
        (TokenType::Pipe, after)
    } else if c == '=' {
        if holds(text, after, '=') {
            (TokenType::Equal, after + 1)
        } else if holds(text, after, '~') {
            (TokenType::Match, after + 1)
        } else {
            (TokenType::Assign, after)
        }
    } else if c == '!' {
        if holds(text, after, '=') {
            (TokenType::NotEqual, after + 1)
        } else if holds(text, after, '~') {
            (TokenType::NotMatch, after + 1)
        } else {
            (TokenType::Error, after)
        }
    } else if c == '>' {
        if holds(text, after, '=') {
            (TokenType::GreaterThanOrEqual, after + 1)
        } else {
            (TokenType::GreaterThan, after)
        }
    } else if c == '<' {
        if holds(text, after, '=') {
            (TokenType::LessThanOrEqual, after + 1)
        } else {
            (TokenType::LessThan, after)
        }
    } else if c == '{' {
        (TokenType::BlockStart, after)
    } else if c == '}' {
        (TokenType::BlockEnd, after)
    } else if (c == '`' || c == '*') && holds(text, after, '{') {
        (TokenType::BlockStart, after + 1)
    } else if c == '[' {
        (TokenType::ListStart, after)
    } else if c == ']' {
        (TokenType::ListEnd, after)
    } else if c == '"' {
        match skip_quoted(text, after) {
            Some(end) => (TokenType::QuotedString, end),
            None => (TokenType::Error, text.len()),
        }
    } else if c == 'r' && holds(text, after, '{') {
        match skip_to_brace(text, after + 1) {
            Some(end) => (TokenType::Regex, end),
            None => (TokenType::Error, text.len()),
        }
    } else if c == '$' {
        (TokenType::Variable, skip_word(text, after))
    } else if c == '@' {
        (TokenType::ArrayVariable, skip_word(text, after))
    } else if c == '%' {
        (TokenType::Field, skip_word(text, after))
    } else if digit(c) || (c == '-' && after < text.len() && digit(text[after])) {
        (TokenType::Integer, skip_word(text, after))
    } else if word(c) {
        let end = skip_word(text, after);
        if find_wildcard(text, start, end) {
            (TokenType::Glob, end)
        } else {
            (TokenType::String, end)
        }
    } else {
        (TokenType::Error, after)
    }
}

/// The tokens of `text`, in order.
pub fn read_tokens(text: &str) -> (tokens: Vec<Token>)
    ensures
        token_views(tokens@) == tokenize(text@),
        well_formed_stream(token_views(tokens@)),
{
    let chars = to_chars(text);
    let mut tokens: Vec<Token> = Vec::new();
    let mut pos: usize = 0;
    let mut depth: usize = 0;
    let mut done = false;
    while !done
        invariant
            chars@ == text@,
            pos <= chars.len(),
            depth <= pos,
            !done ==> tokenize(text@) == token_views(tokens@) + tokens_from(
                text@,
                pos as int,
                depth as nat,
            ),
            done ==> tokenize(text@) == token_views(tokens@),
        decreases (if done { 0 } else { 1 + chars.len() - pos }),
    {
        let ghost before = token_views(tokens@);
        let start = skip_blank(&chars, pos);
        if start >= chars.len() {
            let kind = if depth > 0 {
                TokenType::Error
            } else {
                TokenType::EOF
            };
            tokens.push(Token { kind, text: String::new(), position: start });
            done = true;
            assert(token_views(tokens@) == before + (if depth > 0 {
                seq![unclosed_token(text@)]
            } else {
                seq![end_token(text@)]
            }));
        } else {
            let found = scan_token(&chars, start);
            let token = Token {
                kind: found.0,
                text: from_chars(&chars, start, found.1),
                position: start,
            };
            let ghost view = token@;
            tokens.push(token);
            assert(token_views(tokens@) == before + seq![view]);
            if found.0 == TokenType::Error {
                done = true;
            } else {
                let ghost rest = tokens_from(
                    text@,
                    found.1 as int,
                    depth_after(depth as nat, found.0),
                );
                assert(before + (seq![view] + rest) == (before + seq![view]) + rest);
                if found.0 == TokenType::BlockStart {
                    depth += 1;
                } else if found.0 == TokenType::BlockEnd && depth > 0 {
                    depth -= 1;
                }
                pos = found.1;
            }
        }
    }
    proof {
        lemma_tokens_well_formed(text@, 0, 0);
    }
    tokens
}

/// A cursor over the tokens of a text. `peek` shows the next token and `pop`
/// takes it; the last token of the stream is never passed.
pub struct Lexer {
    tokens: Vec<Token>,
    index: usize,
    separator: char,
}

impl Lexer {
    /// All the tokens of the text.
    pub closed spec fn tokens(&self) -> Seq<TokenView> {
        token_views(self.tokens@)
    }

    /// How many tokens were taken.
    pub closed spec fn index(&self) -> int {
        self.index as int
    }

    /// The character that separates the segments of a name.
    pub closed spec fn separator(&self) -> char {
        self.separator
    }

    /// The cursor stands on a token of a well-formed stream.
    pub open spec fn wf(&self) -> bool {
        &&& well_formed_stream(self.tokens())
        &&& 0 <= self.index() < self.tokens().len()
    }

    /// The next token.
    pub open spec fn current(&self) -> TokenView {
        self.tokens()[self.index()]
    }

    /// Where the cursor stands after a `pop`.
    pub open spec fn next_index(&self) -> int {
        step(self.tokens(), self.index())
    }

    /// A lexer at the start of `text`, for names with `.` between segments.
    pub fn new(text: &str) -> (lexer: Lexer)
        ensures
            lexer.wf(),
            lexer.tokens() == tokenize(text@),
            lexer.index() == 0,
            lexer.separator() == '.',
    {
        Lexer { tokens: read_tokens(text), index: 0, separator: '.' }
    }

    /// A lexer at the start of `text`, for names with `separator` between
    /// segments.
    pub fn with_separator(text: &str, separator: char) -> (lexer: Lexer)
        ensures
            lexer.wf(),
            lexer.tokens() == tokenize(text@),
            lexer.index() == 0,
            lexer.separator() == separator,
    {
        Lexer { tokens: read_tokens(text), index: 0, separator }
    }

    /// The character between the segments of a name.
    pub fn name_separator(&self) -> (c: char)
        ensures
            c == self.separator(),
    {
        self.separator
    }

    /// The kind of the next token.
    pub fn peek_type(&self) -> (kind: TokenType)
        requires
            self.wf(),
        ensures
            kind == self.current().kind,
    {
        self.tokens[self.index].kind
    }

    /// The next token, which stays in the stream.
    pub fn peek(&self) -> (token: (TokenType, &str))
        requires
            self.wf(),
        ensures
            token.0 == self.current().kind,
            token.1@ == self.current().text,
    {
        (self.tokens[self.index].kind, self.tokens[self.index].text.as_str())
    }

    /// The offset in the text of the next token.
    pub fn position(&self) -> (offset: usize)
        requires
            self.wf(),
        ensures
            offset == self.current().position,
    {
        self.tokens[self.index].position
    }

    /// Takes the next token. The token that ends the stream stays.
    pub fn pop(&mut self) -> (token: (TokenType, String))
        requires
            old(self).wf(),
        ensures
            final(self).wf(),
            final(self).tokens() == old(self).tokens(),
            final(self).separator() == old(self).separator(),
            final(self).index() == old(self).next_index(),
            token.0 == old(self).current().kind,
            token.1@ == old(self).current().text,
    {
        assert(self.tokens().len() == self.tokens.len());
        let kind = self.tokens[self.index].kind;
        let text = self.tokens[self.index].text.clone();
        let last = self.tokens.len() - 1;
        if self.index < last {
            self.index += 1;
        }
        (kind, text)
    }
}

/// The index after `index` in a stream, which never passes the last token.
pub open spec fn step(tokens: Seq<TokenView>, index: int) -> int {
    if index + 1 < tokens.len() {
        index + 1
    } else {
        index
    }
}

/// Whether `after` reads the same stream as `before`, from any token of it.
pub open spec fn same_stream(before: Lexer, after: Lexer) -> bool {
    &&& after.wf()
    &&& after.tokens() == before.tokens()
    &&& after.separator() == before.separator()
}

} // verus!
