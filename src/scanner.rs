//! The lexer: turns source text into tokens, one call at a time.
use crate::value::{copy_range, str_chars};
use vstd::prelude::*;

verus! {

/// The kinds of token.
#[derive(Debug, Clone, Copy, PartialEq, Eq, Structural)]
pub enum TokenType {
    LeftParen,
    RightParen,
    LeftBrace,
    RightBrace,
    Comma,
    Dot,
    Minus,
    Plus,
    Semicolon,
    Slash,
    Star,
    Bang,
    BangEqual,
    Equal,
    EqualEqual,
    Greater,
    GreaterEqual,
    Less,
    LessEqual,
    Identifier,
    String,
    Number,
    And,
    Class,
    Else,
    False,
    For,
    Fun,
    If,
    Null,
    Or,
    Print,
    Return,
    Super,
    This,
    True,
    Var,
    While,
    Error,
    Comment,
}

/// A token: its kind, the source text it spans (for an error token, the
/// diagnostic message instead), and the line it was found on.
#[derive(Debug)]
pub struct Token {
    pub token_type: TokenType,
    pub data: Vec<char>,
    pub line: usize,
}

pub ghost struct TokenModel {
    pub token_type: TokenType,
    pub data: Seq<char>,
    pub line: int,
}

impl View for Token {
    type V = TokenModel;

    open spec fn view(&self) -> TokenModel {
        TokenModel { token_type: self.token_type, data: self.data@, line: self.line as int }
    }
}

/// Whether `char::is_alphanumeric` holds of a character.
pub uninterp spec fn alphanumeric(c: char) -> bool;

/// Relies on `char::is_alphanumeric`: whether the character is alphabetic or
/// numeric in Unicode.
#[verifier::external_body]
fn is_alphanumeric_char(c: char) -> (r: bool)
    ensures
        r == alphanumeric(c),
{
    c.is_alphanumeric()
}

pub open spec fn is_digit(c: char) -> bool {
    '0' <= c <= '9'
}

pub open spec fn is_alpha(c: char) -> bool {
    ('a' <= c <= 'z') || ('A' <= c <= 'Z') || c == '_'
}

pub open spec fn is_space(c: char) -> bool {
    c == ' ' || c == '\t' || c == '\r' || c == '\n'
}

pub open spec fn single_char_kind(c: char) -> Option<TokenType> {
    if c == '(' { Some(TokenType::LeftParen) }
    else if c == ')' { Some(TokenType::RightParen) }
    else if c == '{' { Some(TokenType::LeftBrace) }
    else if c == '}' { Some(TokenType::RightBrace) }
    else if c == ';' { Some(TokenType::Semicolon) }
    else if c == ',' { Some(TokenType::Comma) }
    else if c == '.' { Some(TokenType::Dot) }
    else if c == '-' { Some(TokenType::Minus) }
    else if c == '+' { Some(TokenType::Plus) }
    else if c == '*' { Some(TokenType::Star) }
    else { None }
}

/// For `!`, `=`, `<` and `>`: the kind alone and the kind followed by `=`.
pub open spec fn pair_kinds(c: char) -> Option<(TokenType, TokenType)> {
    if c == '!' { Some((TokenType::Bang, TokenType::BangEqual)) }
    else if c == '=' { Some((TokenType::Equal, TokenType::EqualEqual)) }
    else if c == '<' { Some((TokenType::Less, TokenType::LessEqual)) }
    else if c == '>' { Some((TokenType::Greater, TokenType::GreaterEqual)) }
    else { None }
}

pub open spec fn keyword_kind(w: Seq<char>) -> TokenType {
    if w == seq!['a', 'n', 'd'] { TokenType::And }
    else if w == seq!['c', 'l', 'a', 's', 's'] { TokenType::Class }
    else if w == seq!['e', 'l', 's', 'e'] { TokenType::Else }
    else if w == seq!['i', 'f'] { TokenType::If }
    else if w == seq!['n', 'u', 'l', 'l'] { TokenType::Null }
    else if w == seq!['o', 'r'] { TokenType::Or }
    else if w == seq!['p', 'r', 'i', 'n', 't'] { TokenType::Print }
    else if w == seq!['r', 'e', 't', 'u', 'r', 'n'] { TokenType::Return }
    else if w == seq!['s', 'u', 'p', 'e', 'r'] { TokenType::Super }
    else if w == seq!['v', 'a', 'r'] { TokenType::Var }
    else if w == seq!['w', 'h', 'i', 'l', 'e'] { TokenType::While }
    else if w == seq!['t', 'r', 'u', 'e'] { TokenType::True }
    else if w == seq!['f', 'a', 'l', 's', 'e'] { TokenType::False }
    else if w == seq!['f', 'o', 'r'] { TokenType::For }
    else if w == seq!['f', 'u', 'n'] { TokenType::Fun }
    else if w == seq!['t', 'h', 'i', 's'] { TokenType::This }
    else { TokenType::Identifier }
}

/// The end of the run of digits and dots that starts at `j`.
pub open spec fn number_end(s: Seq<char>, j: int) -> int
    decreases s.len() - j,
{
    if 0 <= j < s.len() && (is_digit(s[j]) || s[j] == '.') {
        number_end(s, j + 1)
    } else {
        j
    }
}

/// The end of the run of identifier characters that starts at `j`.
pub open spec fn ident_end(s: Seq<char>, j: int) -> int
    decreases s.len() - j,
{
    if 0 <= j < s.len() && (alphanumeric(s[j]) || s[j] == '_') {
        ident_end(s, j + 1)
    } else {
        j
    }
}

/// The first position from `j` on that holds `stop`, or the end of `s`.
pub open spec fn find_from(s: Seq<char>, j: int, stop: char) -> int
    decreases s.len() - j,
{
    if 0 <= j < s.len() && s[j] != stop {
        find_from(s, j + 1, stop)
    } else {
        j
    }
}

pub open spec fn count_newlines(t: Seq<char>) -> nat
    decreases t.len(),
{
    if t.len() == 0 {
        0
    } else {
        count_newlines(t.drop_last()) + if t.last() == '\n' { 1nat } else { 0nat }
    }
}

/// The message of the error token for a string that is never closed.
pub open spec fn no_end_quote_message() -> Seq<char> {
    "TOKEN ERROR: No end quote"@
}

/// The message of the error token for a character that starts no token.
pub open spec fn unexpected_character_message() -> Seq<char> {
    "TOKEN ERROR: Unexpected character"@
}

pub open spec fn tok(k: TokenType, s: Seq<char>, a: int, b: int, line: int) -> TokenModel {
    TokenModel { token_type: k, data: s.subrange(a, b), line }
}

/// The token that starts at `i`, the position after it, and the line count
/// after it.
pub open spec fn lex(s: Seq<char>, i: int, line: int) -> (TokenModel, int, int) {
    let c = s[i];
    let eq_next = i + 1 < s.len() && s[i + 1] == '=';
    if single_char_kind(c) is Some {
        (tok(single_char_kind(c)->Some_0, s, i, i + 1, line), i + 1, line)
    } else if pair_kinds(c) is Some {
        let (one, two) = pair_kinds(c)->Some_0;
        if eq_next {
            (tok(two, s, i, i + 2, line), i + 2, line)
        } else {
            (tok(one, s, i, i + 1, line), i + 1, line)
        }
    } else if c == '/' {
        if i + 1 < s.len() && s[i + 1] == '/' {
            let e = find_from(s, i + 2, '\n');
            (tok(TokenType::Comment, s, i, e, line), e, line)
        } else {
            (tok(TokenType::Slash, s, i, i + 1, line), i + 1, line)
        }
    } else if c == '"' {
        let q = find_from(s, i + 1, '"');
        let l = line + count_newlines(s.subrange(i + 1, q));
        if q >= s.len() {
            (TokenModel { token_type: TokenType::Error, data: no_end_quote_message(), line: l }, q, l)
        } else {
            (tok(TokenType::String, s, i, q + 1, l), q + 1, l)
        }
    } else if is_digit(c) {
        let e = number_end(s, i + 1);
        (tok(TokenType::Number, s, i, e, line), e, line)
    } else if is_alpha(c) {
        let e = ident_end(s, i + 1);
        (tok(keyword_kind(s.subrange(i, e)), s, i, e, line), e, line)
    } else {
        (
            TokenModel {
                token_type: TokenType::Error,
                data: unexpected_character_message(),
                line,
            },
            i + 1,
            line,
        )
    }
}

/// The position of the next token from `i` on, after blanks, and the line
/// count there.
pub open spec fn skip_blanks(s: Seq<char>, i: int, line: int) -> (int, int)
    decreases s.len() - i,
{
    if 0 <= i < s.len() && is_space(s[i]) {
        skip_blanks(s, i + 1, if s[i] == '\n' { line + 1 } else { line })
    } else {
        (i, line)
    }
}

pub proof fn lemma_number_end(s: Seq<char>, j: int)
    requires
        0 <= j <= s.len(),
    ensures
        j <= number_end(s, j) <= s.len(),
    decreases s.len() - j,
{
    if j < s.len() && (is_digit(s[j]) || s[j] == '.') {
        lemma_number_end(s, j + 1);
    }
}

pub proof fn lemma_ident_end(s: Seq<char>, j: int)
    requires
        0 <= j <= s.len(),
    ensures
        j <= ident_end(s, j) <= s.len(),
    decreases s.len() - j,
{
    if j < s.len() && (alphanumeric(s[j]) || s[j] == '_') {
        lemma_ident_end(s, j + 1);
    }
}

pub proof fn lemma_find_from(s: Seq<char>, j: int, stop: char)
    requires
        0 <= j <= s.len(),
    ensures
        j <= find_from(s, j, stop) <= s.len(),
        find_from(s, j, stop) < s.len() ==> s[find_from(s, j, stop)] == stop,
    decreases s.len() - j,
{
    if j < s.len() && s[j] != stop {
        lemma_find_from(s, j + 1, stop);
    }
}

pub proof fn lemma_count_newlines_bound(t: Seq<char>)
    ensures
        count_newlines(t) <= t.len(),
    decreases t.len(),
{
    if t.len() > 0 {
        lemma_count_newlines_bound(t.drop_last());
    }
}

/// A lexed token ends past its start and within the text, and the line count
/// grows by at most the characters consumed.
pub proof fn lemma_lex_progress(s: Seq<char>, i: int, line: int)
    requires
        0 <= i < s.len(),
    ensures
        i < lex(s, i, line).1 <= s.len(),
        line <= lex(s, i, line).2 <= line + (lex(s, i, line).1 - i),
{
    let c = s[i];
    if c == '"' {
        lemma_find_from(s, i + 1, '"');
        lemma_count_newlines_bound(s.subrange(i + 1, find_from(s, i + 1, '"')));
    } else if c == '/' && i + 1 < s.len() && s[i + 1] == '/' {
        lemma_find_from(s, i + 2, '\n');
    } else if is_digit(c) {
        lemma_number_end(s, i + 1);
    } else if is_alpha(c) {
        lemma_ident_end(s, i + 1);
    }
}

pub proof fn lemma_skip_blanks(s: Seq<char>, i: int, line: int)
    requires
        0 <= i <= s.len(),
    ensures
        i <= skip_blanks(s, i, line).0 <= s.len(),
        line <= skip_blanks(s, i, line).1 <= line + (skip_blanks(s, i, line).0 - i),
        skip_blanks(s, i, line).0 < s.len() ==> !is_space(s[skip_blanks(s, i, line).0]),
    decreases s.len() - i,
{
    if i < s.len() && is_space(s[i]) {
        lemma_skip_blanks(s, i + 1, if s[i] == '\n' { line + 1 } else { line });
    }
}

/// The tokens of `s` from position `i` on, comments left out, or the first
/// error token.
pub open spec fn scan_from(s: Seq<char>, i: int, line: int) -> Result<Seq<TokenModel>, TokenModel>
    decreases s.len() - i,
    via scan_from_decreases
{
    if i < 0 || i > s.len() {
        Ok(Seq::empty())
    } else {
        let (j, l) = skip_blanks(s, i, line);
        if j >= s.len() || j < i {
            Ok(Seq::empty())
        } else {
            let (t, k, l2) = lex(s, j, l);
            if t.token_type == TokenType::Error {
                Err(t)
            } else {
                match scan_from(s, k, l2) {
                    Ok(rest) => Ok(
                        if t.token_type == TokenType::Comment {
                            rest
                        } else {
                            seq![t] + rest
                        },
                    ),
                    Err(e) => Err(e),
                }
            }
        }
    }
}

#[via_fn]
proof fn scan_from_decreases(s: Seq<char>, i: int, line: int) {
    if 0 <= i <= s.len() {
        lemma_skip_blanks(s, i, line);
        let (j, l) = skip_blanks(s, i, line);
        if i <= j < s.len() {
            lemma_lex_progress(s, j, l);
        }
    }
}

/// `acc` followed by what `rest` holds, or the error of `rest`.
pub open spec fn prepend(acc: Seq<TokenModel>, rest: Result<Seq<TokenModel>, TokenModel>) -> Result<
    Seq<TokenModel>,
    TokenModel,
> {
    match rest {
        Ok(ts) => Ok(acc + ts),
        Err(e) => Err(e),
    }
}

pub open spec fn tokens_model(ts: Seq<Token>) -> Seq<TokenModel> {
    ts.map_values(|t: Token| t@)
}

fn word_eq(a: &Vec<char>, w: &[char]) -> (r: bool)
    ensures
        r == (a@ == w@),
{
    if a.len() != w.len() {
        return false;
    }
    let mut i: usize = 0;
    while i < a.len()
        invariant
            a@.len() == w@.len(),
            0 <= i <= a@.len(),
            forall|k: int| 0 <= k < i ==> a@[k] == w@[k],
        decreases a@.len() - i,
    {
        if a[i] != w[i] {
            return false;
        }
        i += 1;
    }
    assert(a@ =~= w@);
    true
}

/// The keyword that a word spells, or `Identifier`.
pub fn keyword_type(word: &Vec<char>) -> (r: TokenType)
    ensures
        r == keyword_kind(word@),
{
    if word_eq(word, &['a', 'n', 'd']) { TokenType::And }
    else if word_eq(word, &['c', 'l', 'a', 's', 's']) { TokenType::Class }
    else if word_eq(word, &['e', 'l', 's', 'e']) { TokenType::Else }
    else if word_eq(word, &['i', 'f']) { TokenType::If }
    else if word_eq(word, &['n', 'u', 'l', 'l']) { TokenType::Null }
    else if word_eq(word, &['o', 'r']) { TokenType::Or }
    else if word_eq(word, &['p', 'r', 'i', 'n', 't']) { TokenType::Print }
    else if word_eq(word, &['r', 'e', 't', 'u', 'r', 'n']) { TokenType::Return }
    else if word_eq(word, &['s', 'u', 'p', 'e', 'r']) { TokenType::Super }
    else if word_eq(word, &['v', 'a', 'r']) { TokenType::Var }
    else if word_eq(word, &['w', 'h', 'i', 'l', 'e']) { TokenType::While }
    else if word_eq(word, &['t', 'r', 'u', 'e']) { TokenType::True }
    else if word_eq(word, &['f', 'a', 'l', 's', 'e']) { TokenType::False }
    else if word_eq(word, &['f', 'o', 'r']) { TokenType::For }
    else if word_eq(word, &['f', 'u', 'n']) { TokenType::Fun }
    else if word_eq(word, &['t', 'h', 'i', 's']) { TokenType::This }
    else { TokenType::Identifier }
}

/// Makes the token of the given kind that spans `size` characters from
/// `*index`, and moves `*index` past it.
pub fn make_token(token_type: TokenType, source: &Vec<char>, index: &mut usize, size: usize, line: usize) -> (r: Token)
    requires
        *old(index) + size <= source@.len(),
    ensures
        r@ == tok(token_type, source@, *old(index) as int, *old(index) + size, line as int),
        *final(index) == *old(index) + size,
{
    let n = source.len();
    let data = copy_range(source, *index, *index + size);
    let something = Token { token_type, data, line };
    *index = *index + size;
    something
}

/// Whether the character after `index` is `the_char`; if so, the token grows
/// by one.
pub fn check_next_token(source: &Vec<char>, index: usize, token_size: &mut usize, the_char: char) -> (r: bool)
    requires
        index < source@.len(),
        *old(token_size) < usize::MAX,
    ensures
        r == (index + 1 < source@.len() && source@[index + 1] == the_char),
        *final(token_size) == if r { *old(token_size) + 1 } else { *old(token_size) as int },
{
    if source.len() - index <= 1 {
        return false;
    }
    if source[index + 1] == the_char {
        *token_size += 1;
        return true;
    }
    false
}

fn find_char(source: &Vec<char>, from: usize, stop: char) -> (r: usize)
    requires
        from <= source@.len(),
    ensures
        r == find_from(source@, from as int, stop),
{
    let mut j = from;
    while j < source.len() && source[j] != stop
        invariant
            from <= j <= source@.len(),
            find_from(source@, j as int, stop) == find_from(source@, from as int, stop),
        decreases source@.len() - j,
    {
        j += 1;
    }
    j
}

fn digits_end(source: &Vec<char>, from: usize) -> (r: usize)
    requires
        from <= source@.len(),
    ensures
        r == number_end(source@, from as int),
{
    let mut j = from;
    while j < source.len() && (('0' <= source[j] && source[j] <= '9') || source[j] == '.')
        invariant
            from <= j <= source@.len(),
            number_end(source@, j as int) == number_end(source@, from as int),
        decreases source@.len() - j,
    {
        j += 1;
    }
    j
}

fn word_end(source: &Vec<char>, from: usize) -> (r: usize)
    requires
        from <= source@.len(),
    ensures
        r == ident_end(source@, from as int),
{
    let mut j = from;
    while j < source.len() && (is_alphanumeric_char(source[j]) || source[j] == '_')
        invariant
            from <= j <= source@.len(),
            ident_end(source@, j as int) == ident_end(source@, from as int),
        decreases source@.len() - j,
    {
        j += 1;
    }
    j
}

/// Reads the token that starts at `*index`, moves `*index` past it and counts
/// the lines that it spans.
pub fn scan_text_and_make_tokens(source: &Vec<char>, index: &mut usize, lines: &mut usize) -> (r: Token)
    requires
        *old(index) < source@.len(),
        *old(lines) + (source@.len() - *old(index)) <= usize::MAX,
    ensures
        (r@, *final(index) as int, *final(lines) as int) == lex(
            source@,
            *old(index) as int,
            *old(lines) as int,
        ),
        *final(lines) + (source@.len() - *final(index)) <= usize::MAX,
{
    proof {
        lemma_lex_progress(source@, *index as int, *lines as int);
    }
    let source_len = source.len();
    let mut token_size: usize = 1;
    let the_char = source[*index];
    let line = *lines;
    if the_char == '(' {
        make_token(TokenType::LeftParen, source, index, token_size, line)
    } else if the_char == ')' {
        make_token(TokenType::RightParen, source, index, token_size, line)
    } else if the_char == '{' {
        make_token(TokenType::LeftBrace, source, index, token_size, line)
    } else if the_char == '}' {
        make_token(TokenType::RightBrace, source, index, token_size, line)
    } else if the_char == ';' {
        make_token(TokenType::Semicolon, source, index, token_size, line)
    } else if the_char == ',' {
        make_token(TokenType::Comma, source, index, token_size, line)
    } else if the_char == '.' {
        make_token(TokenType::Dot, source, index, token_size, line)
    } else if the_char == '-' {
        make_token(TokenType::Minus, source, index, token_size, line)
    } else if the_char == '+' {
        make_token(TokenType::Plus, source, index, token_size, line)
    } else if the_char == '*' {
        make_token(TokenType::Star, source, index, token_size, line)
    } else if the_char == '!' || the_char == '=' || the_char == '<' || the_char == '>' {
        let two = check_next_token(source, *index, &mut token_size, '=');
        let kind = if the_char == '!' {
            if two { TokenType::BangEqual } else { TokenType::Bang }
        } else if the_char == '=' {
            if two { TokenType::EqualEqual } else { TokenType::Equal }
        } else if the_char == '<' {
            if two { TokenType::LessEqual } else { TokenType::Less }
        } else {
            if two { TokenType::GreaterEqual } else { TokenType::Greater }
        };
        make_token(kind, source, index, token_size, line)
    } else if the_char == '/' {
        if !check_next_token(source, *index, &mut token_size, '/') {
            return make_token(TokenType::Slash, source, index, token_size, line);
        }
        let end = find_char(source, *index + 2, '\n');
        make_token(TokenType::Comment, source, index, end - *index, line)
    } else if the_char == '"' {
        let start = *index;
        let mut j = start + 1;
        let ghost q = find_from(source@, start + 1, '"');
        proof {
            lemma_find_from(source@, start + 1, '"');
        }
        while j < source.len() && source[j] != '"'
            invariant
                start + 1 <= j <= source@.len(),
                start < source@.len(),
                *lines + (source@.len() - j) <= usize::MAX,
                line + (source@.len() - start) <= usize::MAX,
                find_from(source@, j as int, '"') == q,
                *lines == line + count_newlines(source@.subrange(start + 1, j as int)),
            decreases source@.len() - j,
        {
            assert(source@.subrange(start + 1, j + 1).drop_last() =~= source@.subrange(
                start + 1,
                j as int,
            ));
            if source[j] == '\n' {
                *lines += 1;
            }
            j += 1;
        }
        if j >= source.len() {
            let data = str_chars("TOKEN ERROR: No end quote");
            *index = j;
            return Token { token_type: TokenType::Error, data, line: *lines };
        }
        make_token(TokenType::String, source, index, j + 1 - start, *lines)
    } else if '0' <= the_char && the_char <= '9' {
        let end = digits_end(source, *index + 1);
        make_token(TokenType::Number, source, index, end - *index, line)
    } else if ('a' <= the_char && the_char <= 'z') || ('A' <= the_char && the_char <= 'Z')
        || the_char == '_' {
        let end = word_end(source, *index + 1);
        let word = copy_range(source, *index, end);
        let kind = keyword_type(&word);
        make_token(kind, source, index, end - *index, line)
    } else {
        let data = str_chars("TOKEN ERROR: Unexpected character");
        *index = *index + 1;
        Token { token_type: TokenType::Error, data, line }
    }
}

fn is_space_char(c: char) -> (r: bool)
    ensures
        r == is_space(c),
{
    c == ' ' || c == '\t' || c == '\r' || c == '\n'
}

proof fn lemma_scan_skip(s: Seq<char>, i: int, line: int)
    requires
        0 <= i <= s.len(),
    ensures
        scan_from(s, i, line) == scan_from(s, skip_blanks(s, i, line).0, skip_blanks(s, i, line).1),
        skip_blanks(s, skip_blanks(s, i, line).0, skip_blanks(s, i, line).1) == skip_blanks(
            s,
            i,
            line,
        ),
        i <= skip_blanks(s, i, line).0,
{
    lemma_skip_blanks(s, i, line);
    let (j, l) = skip_blanks(s, i, line);
    lemma_skip_blanks(s, j, l);
    assert(skip_blanks(s, j, l) == (j, l));
}

/// Moves `*index` past blanks, counting newlines; whether any input is left.
pub fn advance_to_next_token_index(source: &Vec<char>, index: &mut usize, lines: &mut usize) -> (r: bool)
    requires
        *old(index) <= source@.len(),
        *old(lines) + (source@.len() - *old(index)) <= usize::MAX,
    ensures
        (*final(index) as int, *final(lines) as int) == skip_blanks(
            source@,
            *old(index) as int,
            *old(lines) as int,
        ),
        *final(lines) + (source@.len() - *final(index)) <= usize::MAX,
        r == (*final(index) < source@.len()),
{
    proof {
        lemma_skip_blanks(source@, *index as int, *lines as int);
    }
    while *index < source.len() && is_space_char(source[*index])
        invariant
            *index <= source@.len(),
            *lines + (source@.len() - *index) <= usize::MAX,
            skip_blanks(source@, *index as int, *lines as int) == skip_blanks(
                source@,
                *old(index) as int,
                *old(lines) as int,
            ),
        decreases source@.len() - *index,
    {
        if source[*index] == '\n' {
            *lines += 1;
        }
        *index += 1;
    }
    *index < source.len()
}

/// The tokens of the source, comments left out, or the first error token.
pub fn scan(source: &Vec<char>) -> (r: Result<Vec<Token>, Token>)
    requires
        source@.len() < usize::MAX,
    ensures
        match scan_from(source@, 0, 1) {
            Ok(ts) => r is Ok && tokens_model(r->Ok_0@) == ts,
            Err(e) => r is Err && r->Err_0@ == e,
        },
{
    let mut index: usize = 0;
    let mut lines: usize = 1;
    let mut all_tokens: Vec<Token> = Vec::new();
    loop
        invariant
            index <= source@.len() < usize::MAX,
            lines + (source@.len() - index) <= usize::MAX,
            scan_from(source@, 0, 1) == prepend(
                tokens_model(all_tokens@),
                scan_from(source@, index as int, lines as int),
            ),
        decreases source@.len() - index,
    {
        proof {
            lemma_scan_skip(source@, index as int, lines as int);
        }
        let more = advance_to_next_token_index(source, &mut index, &mut lines);
        if !more {
            assert(tokens_model(all_tokens@) + Seq::empty() =~= tokens_model(all_tokens@));
            return Ok(all_tokens);
        }
        let ghost before = tokens_model(all_tokens@);
        let ghost (i0, l0) = (index as int, lines as int);
        let token = scan_text_and_make_tokens(source, &mut index, &mut lines);
        proof {
            lemma_lex_progress(source@, i0, l0);
        }
        if token.token_type == TokenType::Error {
            return Err(token);
        }
        if token.token_type != TokenType::Comment {
            all_tokens.push(token);
            assert(tokens_model(all_tokens@) =~= before.push(lex(source@, i0, l0).0));
            proof {
                match scan_from(source@, index as int, lines as int) {
                    Ok(rest) => {
                        assert(before + (seq![lex(source@, i0, l0).0] + rest) =~= before.push(
                            lex(source@, i0, l0).0,
                        ) + rest);
                    },
                    Err(_) => {},
                }
            }
        }
    }
}

} // verus!
