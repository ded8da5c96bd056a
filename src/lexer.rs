//! Splits source text into markup segments and the token lists of `{...}` segments.
use crate::number::{digits_or_dots, is_digit, literal_number, parse_literal, Number, NumberError};
use crate::text::{chars_of, push_char, string_of};
use vstd::prelude::*;

verus! {

#[derive(Debug, PartialEq)]
pub enum Token {
    At,
    Hashtag,
    Colon,
    OParen,
    CParen,
    OBracket,
    CBracket,
    Plus,
    Minus,
    Slash,
    Asterisk,
    Percent,
    Dot,
    Equals,
    NotEquals,
    GreaterThan,
    GreaterThanOrEquals,
    LessThan,
    LessThanOrEquals,
    Not,
    And,
    Bar,
    Comma,
    Concat,
    If,
    Else,
    For,
    In,
    Ident(String),
    Boolean(bool),
    Number(Number),
    String(String),
    Keys,
    Base,
}

/// A token with its text as a sequence of characters.
pub enum TokenModel {
    /// A token that carries no text.
    Plain(Token),
    Ident(Seq<char>),
    Str(Seq<char>),
}

impl View for Token {
    type V = TokenModel;

    open spec fn view(&self) -> TokenModel {
        match self {
            Token::Ident(s) => TokenModel::Ident(s@),
            Token::String(s) => TokenModel::Str(s@),
            _ => TokenModel::Plain(*self),
        }
    }
}

#[derive(Debug, PartialEq)]
pub enum DocumentKind<'a> {
    Markup(&'a str),
    Template(Vec<Token>),
}

pub enum DocumentModel {
    Markup(Seq<char>),
    Template(Seq<TokenModel>),
}

pub open spec fn tokens_model(v: Seq<Token>) -> Seq<TokenModel> {
    v.map_values(|t: Token| t@)
}

impl<'a> View for DocumentKind<'a> {
    type V = DocumentModel;

    open spec fn view(&self) -> DocumentModel {
        match self {
            DocumentKind::Markup(s) => DocumentModel::Markup(s@),
            DocumentKind::Template(v) => DocumentModel::Template(tokens_model(v@)),
        }
    }
}

#[derive(Clone, Copy, Debug, PartialEq, Eq, Structural)]
pub enum LexError {
    /// A character that starts no token.
    UnexpectedCharacter(char),
    /// A run of digits and dots that is not a number.
    MalformedNumber,
    /// A numeric literal too large to hold.
    NumberOutOfRange,
    /// A string literal that the input ends inside.
    UnterminatedString,
}

// ---- the lexical grammar -------------------------------------------------------------------

/// Unicode white space, as `char::is_whitespace`.
pub open spec fn is_whitespace(c: char) -> bool {
    let u = c as u32;
    (9 <= u <= 13) || u == 32 || u == 0x85 || u == 0xA0 || u == 0x1680 || (0x2000 <= u <= 0x200A)
        || u == 0x2028 || u == 0x2029 || u == 0x202F || u == 0x205F || u == 0x3000
}

pub open spec fn is_letter(c: char) -> bool {
    (65 <= c as u32 <= 90) || (97 <= c as u32 <= 122)
}

pub open spec fn is_word_char(c: char) -> bool {
    is_letter(c) || is_digit(c) || c == '_'
}

pub open spec fn skip_ws(s: Seq<char>, i: int) -> int
    decreases s.len() - i,
{
    if 0 <= i < s.len() && is_whitespace(s[i]) {
        skip_ws(s, i + 1)
    } else {
        i
    }
}

/// End of the identifier or keyword that starts at `i`.
pub open spec fn word_end(s: Seq<char>, i: int) -> int
    decreases s.len() - i,
{
    if 0 <= i < s.len() && is_word_char(s[i]) {
        word_end(s, i + 1)
    } else {
        i
    }
}

/// End of the run of digits and dots that starts at `i`.
pub open spec fn number_end(s: Seq<char>, i: int) -> int
    decreases s.len() - i,
{
    if 0 <= i < s.len() && (is_digit(s[i]) || s[i] == '.') {
        number_end(s, i + 1)
    } else {
        i
    }
}

pub open spec fn unescaped(c: char) -> char {
    if c == 'n' {
        '\n'
    } else if c == 't' {
        '\t'
    } else if c == 'r' {
        '\r'
    } else {
        c
    }
}

/// The body of a string literal from `i` (just past the opening quote): its text and
/// the position past the closing quote.
pub open spec fn string_body(s: Seq<char>, i: int, acc: Seq<char>) -> Result<
    (Seq<char>, int),
    LexError,
>
    decreases s.len() - i,
{
    if i < 0 || i >= s.len() {
        Err(LexError::UnterminatedString)
    } else if s[i] == '"' {
        Ok((acc, i + 1))
    } else if s[i] == '\\' {
        if i + 1 >= s.len() {
            Err(LexError::UnterminatedString)
        } else {
            string_body(s, i + 2, acc.push(unescaped(s[i + 1])))
        }
    } else {
        string_body(s, i + 1, acc.push(s[i]))
    }
}

/// Keywords and boolean literals, else an identifier.
pub open spec fn word_token(w: Seq<char>) -> TokenModel {
    if w == seq!['i', 'f'] {
        TokenModel::Plain(Token::If)
    } else if w == seq!['e', 'l', 's', 'e'] {
        TokenModel::Plain(Token::Else)
    } else if w == seq!['f', 'o', 'r'] {
        TokenModel::Plain(Token::For)
    } else if w == seq!['i', 'n'] {
        TokenModel::Plain(Token::In)
    } else if w == seq!['k', 'e', 'y', 's'] {
        TokenModel::Plain(Token::Keys)
    } else if w == seq!['b', 'a', 's', 'e'] {
        TokenModel::Plain(Token::Base)
    } else if w == seq!['t', 'r', 'u', 'e'] {
        TokenModel::Plain(Token::Boolean(true))
    } else if w == seq!['f', 'a', 'l', 's', 'e'] {
        TokenModel::Plain(Token::Boolean(false))
    } else {
        TokenModel::Ident(w)
    }
}

/// Two-character operators, tried before their one-character prefixes.
pub open spec fn pair_token(c: char, d: char) -> Option<Token> {
    if c == '!' && d == '=' {
        Some(Token::NotEquals)
    } else if c == '<' && d == '=' {
        Some(Token::LessThanOrEquals)
    } else if c == '>' && d == '=' {
        Some(Token::GreaterThanOrEquals)
    } else if c == '+' && d == '+' {
        Some(Token::Concat)
    } else {
        None
    }
}

pub open spec fn single_token(c: char) -> Option<Token> {
    if c == '@' {
        Some(Token::At)
    } else if c == '#' {
        Some(Token::Hashtag)
    } else if c == ':' {
        Some(Token::Colon)
    } else if c == '/' {
        Some(Token::Slash)
    } else if c == ',' {
        Some(Token::Comma)
    } else if c == '+' {
        Some(Token::Plus)
    } else if c == '-' {
        Some(Token::Minus)
    } else if c == '*' {
        Some(Token::Asterisk)
    } else if c == '%' {
        Some(Token::Percent)
    } else if c == '!' {
        Some(Token::Not)
    } else if c == '&' {
        Some(Token::And)
    } else if c == '|' {
        Some(Token::Bar)
    } else if c == '=' {
        Some(Token::Equals)
    } else if c == '<' {
        Some(Token::LessThan)
    } else if c == '>' {
        Some(Token::GreaterThan)
    } else if c == '(' {
        Some(Token::OParen)
    } else if c == ')' {
        Some(Token::CParen)
    } else if c == '[' {
        Some(Token::OBracket)
    } else if c == ']' {
        Some(Token::CBracket)
    } else {
        None
    }
}

pub open spec fn number_error(e: NumberError) -> LexError {
    if e == NumberError::Malformed {
        LexError::MalformedNumber
    } else {
        LexError::NumberOutOfRange
    }
}

/// The token at `i` after white space, and the position past it; `None` where the
/// template ends, at a `}` (consumed) or at the end of the input.
pub open spec fn lex_token(s: Seq<char>, i: int) -> Result<(Option<TokenModel>, int), LexError> {
    let j = skip_ws(s, i);
    if j < 0 || j >= s.len() {
        Ok((None, j))
    } else {
        let c = s[j];
        if c == '"' {
            match string_body(s, j + 1, seq![]) {
                Ok((body, k)) => Ok((Some(TokenModel::Str(body)), k)),
                Err(e) => Err(e),
            }
        } else if is_digit(c) {
            let k = number_end(s, j);
            match literal_number(s.subrange(j, k)) {
                Ok(n) => Ok((Some(TokenModel::Plain(Token::Number(n))), k)),
                Err(e) => Err(number_error(e)),
            }
        } else if is_word_char(c) {
            let k = word_end(s, j);
            Ok((Some(word_token(s.subrange(j, k))), k))
        } else if c == '}' {
            Ok((None, j + 1))
        } else if j + 1 < s.len() && pair_token(c, s[j + 1]) is Some {
            Ok((Some(TokenModel::Plain(pair_token(c, s[j + 1])->0)), j + 2))
        } else if single_token(c) is Some {
            Ok((Some(TokenModel::Plain(single_token(c)->0)), j + 1))
        } else {
            Err(LexError::UnexpectedCharacter(c))
        }
    }
}

// ---- positions only move forward -----------------------------------------------------------

pub proof fn lemma_skip_ws(s: Seq<char>, i: int)
    requires
        0 <= i <= s.len(),
    ensures
        i <= skip_ws(s, i) <= s.len(),
    decreases s.len() - i,
{
    if i < s.len() && is_whitespace(s[i]) {
        lemma_skip_ws(s, i + 1);
    }
}

pub proof fn lemma_word_end(s: Seq<char>, i: int)
    requires
        0 <= i <= s.len(),
    ensures
        i <= word_end(s, i) <= s.len(),
        forall|k: int| i <= k < word_end(s, i) ==> is_word_char(#[trigger] s[k]),
    decreases s.len() - i,
{
    if i < s.len() && is_word_char(s[i]) {
        lemma_word_end(s, i + 1);
    }
}

pub proof fn lemma_number_end(s: Seq<char>, i: int)
    requires
        0 <= i <= s.len(),
    ensures
        i <= number_end(s, i) <= s.len(),
        digits_or_dots(s.subrange(i, number_end(s, i))),
    decreases s.len() - i,
{
    if i < s.len() && (is_digit(s[i]) || s[i] == '.') {
        lemma_number_end(s, i + 1);
        let r = s.subrange(i, number_end(s, i));
        let r1 = s.subrange(i + 1, number_end(s, i));
        assert forall|k: int| 0 <= k < r.len() implies is_digit(#[trigger] r[k]) || r[k] == '.' by {
            if k > 0 {
                assert(r[k] == r1[k - 1]);
            }
        }
    } else {
        assert forall|k: int| 0 <= k < s.subrange(i, i).len() implies is_digit(
            #[trigger] s.subrange(i, i)[k],
        ) || s.subrange(i, i)[k] == '.' by {}
    }
}

pub proof fn lemma_string_body(s: Seq<char>, i: int, acc: Seq<char>)
    requires
        0 <= i,
    ensures
        string_body(s, i, acc) matches Ok((_, k)) ==> i < k <= s.len(),
    decreases s.len() - i,
{
    if 0 <= i < s.len() && s[i] != '"' {
        if s[i] == '\\' {
            if i + 1 < s.len() {
                lemma_string_body(s, i + 2, acc.push(unescaped(s[i + 1])));
            }
        } else {
            lemma_string_body(s, i + 1, acc.push(s[i]));
        }
    }
}

pub proof fn lemma_lex_token(s: Seq<char>, i: int)
    requires
        0 <= i <= s.len(),
    ensures
        lex_token(s, i) matches Ok((t, k)) ==> i <= k <= s.len() && (t is Some ==> i < k),
{
    let j = skip_ws(s, i);
    lemma_skip_ws(s, i);
    if j < s.len() {
        lemma_string_body(s, j + 1, seq![]);
        lemma_number_end(s, j);
        lemma_word_end(s, j);
        lemma_number_end(s, j + 1);
        lemma_word_end(s, j + 1);
    }
}

/// Tokens of a template segment from `i` up to its end, and the position past that end.
pub open spec fn lex_template(s: Seq<char>, i: int) -> Result<(Seq<TokenModel>, int), LexError>
    decreases s.len() - i,
{
    if i < 0 || i > s.len() {
        Ok((seq![], i))
    } else {
        match lex_token(s, i) {
            Err(e) => Err(e),
            Ok((None, k)) => Ok((seq![], k)),
            Ok((Some(t), k)) => {
                proof {
                    lemma_lex_token(s, i);
                }
                match lex_template(s, k) {
                    Ok((ts, m)) => Ok((seq![t] + ts, m)),
                    Err(e) => Err(e),
                }
            },
        }
    }
}

pub proof fn lemma_lex_template(s: Seq<char>, i: int)
    requires
        0 <= i <= s.len(),
    ensures
        lex_template(s, i) matches Ok((_, k)) ==> i <= k <= s.len(),
    decreases s.len() - i,
{
    lemma_lex_token(s, i);
    if let Ok((Some(t), k)) = lex_token(s, i) {
        lemma_lex_template(s, k);
    }
}

/// Position of the first `{` at or after `i`, or the end of the input.
pub open spec fn find_open(s: Seq<char>, i: int) -> int
    decreases s.len() - i,
{
    if 0 <= i < s.len() && s[i] != '{' {
        find_open(s, i + 1)
    } else {
        i
    }
}

pub proof fn lemma_find_open(s: Seq<char>, i: int)
    requires
        0 <= i <= s.len(),
    ensures
        i <= find_open(s, i) <= s.len(),
        find_open(s, i) < s.len() ==> s[find_open(s, i)] == '{',
    decreases s.len() - i,
{
    if i < s.len() && s[i] != '{' {
        lemma_find_open(s, i + 1);
    }
}

/// Segments of the input from `i`: markup up to each `{`, then the template that follows it;
/// the last segment is the markup after the last template (possibly empty).
pub open spec fn lex_from(s: Seq<char>, i: int) -> Result<Seq<DocumentModel>, LexError>
    decreases s.len() - i,
{
    if i < 0 || i > s.len() {
        Ok(seq![])
    } else {
        let j = find_open(s, i);
        proof {
            lemma_find_open(s, i);
        }
        if j >= s.len() {
            Ok(seq![DocumentModel::Markup(s.subrange(i, s.len() as int))])
        } else {
            match lex_template(s, j + 1) {
                Err(e) => Err(e),
                Ok((toks, k)) => {
                    proof {
                        lemma_lex_template(s, j + 1);
                    }
                    match lex_from(s, k) {
                        Ok(rest) => Ok(
                            seq![
                                DocumentModel::Markup(s.subrange(i, j)),
                                DocumentModel::Template(toks),
                            ] + rest,
                        ),
                        Err(e) => Err(e),
                    }
                },
            }
        }
    }
}

/// The segments of a whole source text.
pub open spec fn lex_document(s: Seq<char>) -> Result<Seq<DocumentModel>, LexError> {
    lex_from(s, 0)
}


pub open spec fn documents_model<'a>(v: Seq<DocumentKind<'a>>) -> Seq<DocumentModel> {
    v.map_values(|d: DocumentKind<'a>| d@)
}

pub open spec fn lex_result_model<'a>(r: Result<Vec<DocumentKind<'a>>, LexError>) -> Result<
    Seq<DocumentModel>,
    LexError,
> {
    match r {
        Ok(v) => Ok(documents_model(v@)),
        Err(e) => Err(e),
    }
}

pub open spec fn after_tokens(pre: Seq<TokenModel>, r: Result<(Seq<TokenModel>, int), LexError>) -> Result<
    (Seq<TokenModel>, int),
    LexError,
> {
    match r {
        Ok((ts, k)) => Ok((pre + ts, k)),
        Err(e) => Err(e),
    }
}

pub open spec fn after_documents(pre: Seq<DocumentModel>, r: Result<Seq<DocumentModel>, LexError>) -> Result<
    Seq<DocumentModel>,
    LexError,
> {
    match r {
        Ok(ds) => Ok(pre + ds),
        Err(e) => Err(e),
    }
}

// ---- the scanner ---------------------------------------------------------------------------

pub(crate) fn whitespace(c: char) -> (r: bool)
    ensures
        r == is_whitespace(c),
{
    let u = c as u32;
    (9 <= u && u <= 13) || u == 32 || u == 0x85 || u == 0xA0 || u == 0x1680 || (0x2000 <= u && u
        <= 0x200A) || u == 0x2028 || u == 0x2029 || u == 0x202F || u == 0x205F || u == 0x3000
}

pub(crate) fn digit(c: char) -> (r: bool)
    ensures
        r == is_digit(c),
{
    48 <= c as u32 && c as u32 <= 57
}

fn word_char(c: char) -> (r: bool)
    ensures
        r == is_word_char(c),
{
    let u = c as u32;
    (65 <= u && u <= 90) || (97 <= u && u <= 122) || (48 <= u && u <= 57) || c == '_'
}

fn pair_token_of(c: char, d: char) -> (r: Option<Token>)
    ensures
        r == pair_token(c, d),
{
    if c == '!' && d == '=' {
        Some(Token::NotEquals)
    } else if c == '<' && d == '=' {
        Some(Token::LessThanOrEquals)
    } else if c == '>' && d == '=' {
        Some(Token::GreaterThanOrEquals)
    } else if c == '+' && d == '+' {
        Some(Token::Concat)
    } else {
        None
    }
}

fn single_token_of(c: char) -> (r: Option<Token>)
    ensures
        r == single_token(c),
{
    if c == '@' {
        Some(Token::At)
    } else if c == '#' {
        Some(Token::Hashtag)
    } else if c == ':' {
        Some(Token::Colon)
    } else if c == '/' {
        Some(Token::Slash)
    } else if c == ',' {
        Some(Token::Comma)
    } else if c == '+' {
        Some(Token::Plus)
    } else if c == '-' {
        Some(Token::Minus)
    } else if c == '*' {
        Some(Token::Asterisk)
    } else if c == '%' {
        Some(Token::Percent)
    } else if c == '!' {
        Some(Token::Not)
    } else if c == '&' {
        Some(Token::And)
    } else if c == '|' {
        Some(Token::Bar)
    } else if c == '=' {
        Some(Token::Equals)
    } else if c == '<' {
        Some(Token::LessThan)
    } else if c == '>' {
        Some(Token::GreaterThan)
    } else if c == '(' {
        Some(Token::OParen)
    } else if c == ')' {
        Some(Token::CParen)
    } else if c == '[' {
        Some(Token::OBracket)
    } else if c == ']' {
        Some(Token::CBracket)
    } else {
        None
    }
}

/// Scans a source text, segment by segment.
pub struct Lexer<'a> {
    contents: &'a str,
    chars: Vec<char>,
    pos: usize,
}

impl<'a> Lexer<'a> {
    /// The text being scanned.
    pub closed spec fn source(&self) -> Seq<char> {
        self.contents@
    }

    /// How far the scan has come, in characters.
    pub closed spec fn position(&self) -> int {
        self.pos as int
    }

    pub closed spec fn wf(&self) -> bool {
        self.chars@ == self.contents@ && self.pos <= self.chars.len()
    }

    pub fn new(contents: &'a str) -> (r: Self)
        ensures
            r.wf(),
            r.source() == contents@,
            r.position() == 0,
    {
        Lexer { contents, chars: chars_of(contents), pos: 0 }
    }

    /// The character that a backslash followed by `c` stands for in a string literal.
    fn unescape(c: char) -> (r: char)
        ensures
            r == unescaped(c),
    {
        if c == 'n' {
            '\n'
        } else if c == 't' {
            '\t'
        } else if c == 'r' {
            '\r'
        } else {
            c
        }
    }

    fn skip_whitespace(&mut self)
        requires
            old(self).wf(),
        ensures
            final(self).wf(),
            final(self).contents == old(self).contents,
            final(self).pos == skip_ws(old(self).chars@, old(self).pos as int),
    {
        while self.pos < self.chars.len() && whitespace(self.chars[self.pos])
            invariant
                self.wf(),
                self.contents == old(self).contents,
                skip_ws(self.chars@, self.pos as int) == skip_ws(
                    old(self).chars@,
                    old(self).pos as int,
                ),
            decreases self.chars.len() - self.pos,
        {
            self.pos = self.pos + 1;
        }
    }

    fn word_end_from(&self, j: usize) -> (k: usize)
        requires
            self.wf(),
            j <= self.chars.len(),
        ensures
            k == word_end(self.chars@, j as int),
    {
        let mut k = j;
        while k < self.chars.len() && word_char(self.chars[k])
            invariant
                j <= k <= self.chars.len(),
                word_end(self.chars@, k as int) == word_end(self.chars@, j as int),
            decreases self.chars.len() - k,
        {
            k = k + 1;
        }
        k
    }

    fn number_end_from(&self, j: usize) -> (k: usize)
        requires
            self.wf(),
            j <= self.chars.len(),
        ensures
            k == number_end(self.chars@, j as int),
    {
        let mut k = j;
        while k < self.chars.len() && (digit(self.chars[k]) || self.chars[k] == '.')
            invariant
                j <= k <= self.chars.len(),
                number_end(self.chars@, k as int) == number_end(self.chars@, j as int),
            decreases self.chars.len() - k,
        {
            k = k + 1;
        }
        k
    }

    fn word(&self, j: usize, k: usize) -> (t: Token)
        requires
            self.wf(),
            j <= k <= self.chars.len(),
        ensures
            t@ == word_token(self.chars@.subrange(j as int, k as int)),
    {
        let ghost w = self.chars@.subrange(j as int, k as int);
        let c = &self.chars;
        let n = k - j;
        if n == 2 && c[j] == 'i' && c[j + 1] == 'f' {
            assert(w =~= seq!['i', 'f']);
            Token::If
        } else if n == 4 && c[j] == 'e' && c[j + 1] == 'l' && c[j + 2] == 's' && c[j + 3] == 'e' {
            assert(w =~= seq!['e', 'l', 's', 'e']);
            Token::Else
        } else if n == 3 && c[j] == 'f' && c[j + 1] == 'o' && c[j + 2] == 'r' {
            assert(w =~= seq!['f', 'o', 'r']);
            Token::For
        } else if n == 2 && c[j] == 'i' && c[j + 1] == 'n' {
            assert(w =~= seq!['i', 'n']);
            Token::In
        } else if n == 4 && c[j] == 'k' && c[j + 1] == 'e' && c[j + 2] == 'y' && c[j + 3] == 's' {
            assert(w =~= seq!['k', 'e', 'y', 's']);
            Token::Keys
        } else if n == 4 && c[j] == 'b' && c[j + 1] == 'a' && c[j + 2] == 's' && c[j + 3] == 'e' {
            assert(w =~= seq!['b', 'a', 's', 'e']);
            Token::Base
        } else if n == 4 && c[j] == 't' && c[j + 1] == 'r' && c[j + 2] == 'u' && c[j + 3] == 'e' {
            assert(w =~= seq!['t', 'r', 'u', 'e']);
            Token::Boolean(true)
        } else if n == 5 && c[j] == 'f' && c[j + 1] == 'a' && c[j + 2] == 'l' && c[j + 3] == 's'
            && c[j + 4] == 'e' {
            assert(w =~= seq!['f', 'a', 'l', 's', 'e']);
            Token::Boolean(false)
        } else {
            proof {
                assert(w.len() == n);
                assert(forall|i: int| 0 <= i < n ==> w[i] == c@[j + i]);
                assert(w != seq!['i', 'f']);
                assert(w != seq!['e', 'l', 's', 'e']);
                assert(w != seq!['f', 'o', 'r']);
                assert(w != seq!['i', 'n']);
                assert(w != seq!['k', 'e', 'y', 's']);
                assert(w != seq!['b', 'a', 's', 'e']);
                assert(w != seq!['t', 'r', 'u', 'e']);
                assert(w != seq!['f', 'a', 'l', 's', 'e']);
            }
            Token::Ident(string_of(c, j, k))
        }
    }

    /// Reads a string literal whose opening quote stands at the position.
    fn next_string(&mut self) -> (r: Result<Token, LexError>)
        requires
            old(self).wf(),
            old(self).pos < old(self).chars.len(),
        ensures
            final(self).wf(),
            final(self).contents == old(self).contents,
            match string_body(old(self).chars@, old(self).pos + 1, seq![]) {
                Ok((body, k)) => r matches Ok(t) && t@ == TokenModel::Str(body) && final(self).pos
                    == k,
                Err(e) => r == Err::<Token, LexError>(e),
            },
    {
        let ghost s = self.chars@;
        let mut acc = String::new();
        let mut i = self.pos + 1;
        loop
            invariant
                self.wf(),
                self.contents == old(self).contents,
                s == self.chars@,
                s == old(self).chars@,
                self.pos == old(self).pos,
                old(self).pos < i,
                string_body(s, old(self).pos + 1, seq![]) == string_body(s, i as int, acc@),
            decreases s.len() - i,
        {
            if i >= self.chars.len() {
                return Err(LexError::UnterminatedString);
            }
            let c = self.chars[i];
            if c == '"' {
                self.pos = i + 1;
                return Ok(Token::String(acc));
            } else if c == '\\' {
                if i + 1 >= self.chars.len() {
                    return Err(LexError::UnterminatedString);
                }
                push_char(&mut acc, Self::unescape(self.chars[i + 1]));
                i = i + 2;
            } else {
                push_char(&mut acc, c);
                i = i + 1;
            }
        }
    }

    /// Reads the next token of a template; `None` where the template ends.
    fn next_token(&mut self) -> (r: Result<Option<Token>, LexError>)
        requires
            old(self).wf(),
        ensures
            final(self).wf(),
            final(self).contents == old(self).contents,
            match lex_token(old(self).chars@, old(self).pos as int) {
                Ok((None, k)) => r == Ok::<Option<Token>, LexError>(None) && final(self).pos == k,
                Ok((Some(m), k)) => r matches Ok(Some(t)) && t@ == m && final(self).pos == k,
                Err(e) => r == Err::<Option<Token>, LexError>(e),
            },
    {
        let ghost s = self.chars@;
        proof {
            lemma_skip_ws(s, self.pos as int);
        }
        self.skip_whitespace();
        let j = self.pos;
        if j >= self.chars.len() {
            return Ok(None);
        }
        let c = self.chars[j];
        if c == '"' {
            let t = self.next_string();
            match t {
                Ok(t) => Ok(Some(t)),
                Err(e) => Err(e),
            }
        } else if digit(c) {
            let k = self.number_end_from(j);
            proof {
                lemma_number_end(s, j as int);
            }
            match parse_literal(&self.chars, j, k) {
                Ok(n) => {
                    self.pos = k;
                    Ok(Some(Token::Number(n)))
                },
                Err(e) => {
                    if e == NumberError::Malformed {
                        Err(LexError::MalformedNumber)
                    } else {
                        Err(LexError::NumberOutOfRange)
                    }
                },
            }
        } else if word_char(c) {
            let k = self.word_end_from(j);
            proof {
                lemma_word_end(s, j as int);
            }
            let t = self.word(j, k);
            self.pos = k;
            Ok(Some(t))
        } else if c == '}' {
            self.pos = j + 1;
            Ok(None)
        } else {
            let pair = if j + 1 < self.chars.len() {
                pair_token_of(c, self.chars[j + 1])
            } else {
                None
            };
            match pair {
                Some(t) => {
                    self.pos = j + 2;
                    Ok(Some(t))
                },
                None => match single_token_of(c) {
                    Some(t) => {
                        self.pos = j + 1;
                        Ok(Some(t))
                    },
                    None => Err(LexError::UnexpectedCharacter(c)),
                },
            }
        }
    }

    /// Reads the tokens of one template, through its closing `}`.
    fn next_template(&mut self) -> (r: Result<Vec<Token>, LexError>)
        requires
            old(self).wf(),
        ensures
            final(self).wf(),
            final(self).contents == old(self).contents,
            match lex_template(old(self).chars@, old(self).pos as int) {
                Ok((ts, k)) => r matches Ok(v) && tokens_model(v@) == ts && final(self).pos == k,
                Err(e) => r == Err::<Vec<Token>, LexError>(e),
            },
    {
        let ghost s = self.chars@;
        let mut tokens: Vec<Token> = Vec::new();
        loop
            invariant
                self.wf(),
                self.contents == old(self).contents,
                s == self.chars@,
                s == old(self).chars@,
                lex_template(s, old(self).pos as int) == after_tokens(
                    tokens_model(tokens@),
                    lex_template(s, self.pos as int),
                ),
            decreases s.len() - self.pos,
        {
            let ghost p = self.pos as int;
            proof {
                lemma_lex_token(s, p);
            }
            match self.next_token() {
                Err(e) => {
                    return Err(e);
                },
                Ok(None) => {
                    assert(tokens_model(tokens@) + seq![] =~= tokens_model(tokens@));
                    return Ok(tokens);
                },
                Ok(Some(t)) => {
                    let ghost before = tokens_model(tokens@);
                    tokens.push(t);
                    proof {
                        assert(tokens_model(tokens@) =~= before.push(t@));
                        match lex_template(s, self.pos as int) {
                            Ok((ts, m)) => {
                                assert(before + (seq![t@] + ts) =~= tokens_model(tokens@) + ts);
                            },
                            Err(_) => {},
                        }
                    }
                },
            }
        }
    }

    fn find_open_from(&self, i: usize) -> (j: usize)
        requires
            self.wf(),
            i <= self.chars.len(),
        ensures
            j == find_open(self.chars@, i as int),
    {
        let mut j = i;
        while j < self.chars.len() && self.chars[j] != '{'
            invariant
                i <= j <= self.chars.len(),
                find_open(self.chars@, j as int) == find_open(self.chars@, i as int),
            decreases self.chars.len() - j,
        {
            j = j + 1;
        }
        j
    }

    /// Splits the rest of the source into markup and template segments. The last segment
    /// is always the markup after the last template, possibly empty.
    pub fn execute(&mut self) -> (r: Result<Vec<DocumentKind<'a>>, LexError>)
        requires
            old(self).wf(),
        ensures
            final(self).wf(),
            final(self).source() == old(self).source(),
            lex_result_model(r) == lex_from(old(self).source(), old(self).position()),
    {
        let ghost s = self.chars@;
        let mut docs: Vec<DocumentKind<'a>> = Vec::new();
        loop
            invariant
                self.wf(),
                self.contents == old(self).contents,
                s == self.chars@,
                s == old(self).chars@,
                lex_from(s, old(self).pos as int) == after_documents(
                    documents_model(docs@),
                    lex_from(s, self.pos as int),
                ),
            decreases s.len() - self.pos,
        {
            let i = self.pos;
            let j = self.find_open_from(i);
            proof {
                lemma_find_open(s, i as int);
            }
            let ghost before = documents_model(docs@);
            if j >= self.chars.len() {
                let text = self.contents.substring_char(i, self.chars.len());
                docs.push(DocumentKind::Markup(text));
                self.pos = self.chars.len();
                assert(documents_model(docs@) =~= before + seq![
                    DocumentModel::Markup(s.subrange(i as int, s.len() as int)),
                ]);
                return Ok(docs);
            }
            let text = self.contents.substring_char(i, j);
            docs.push(DocumentKind::Markup(text));
            self.pos = j + 1;
            proof {
                lemma_lex_template(s, j + 1);
            }
            match self.next_template() {
                Err(e) => {
                    return Err(e);
                },
                Ok(tokens) => {
                    let ghost tm = tokens_model(tokens@);
                    docs.push(DocumentKind::Template(tokens));
                    proof {
                        let pair = seq![
                            DocumentModel::Markup(s.subrange(i as int, j as int)),
                            DocumentModel::Template(tm),
                        ];
                        assert(documents_model(docs@) =~= before + pair);
                        match lex_from(s, self.pos as int) {
                            Ok(rest) => {
                                assert(before + (pair + rest) =~= documents_model(docs@) + rest);
                            },
                            Err(_) => {},
                        }
                    }
                },
            }
        }
    }
}

} // verus!
