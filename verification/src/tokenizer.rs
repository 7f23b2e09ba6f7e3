//! The tokenizer: turns source text into a flat run of tokens.

use vstd::prelude::*;
use vstd::string::*;
use crate::error::{Fault, InterpretError};
use crate::text::{
    digits_value, is_alnum, is_alnum_char, is_alpha, is_alpha_char, is_digit, is_digit_char,
    parse_i32, same_text,
};
use crate::tokens::{Literal, LiteralModel, Token, TokenModel, TokenType};

verus! {

/// The classes of characters that a run is made of.
#[derive(Debug, Clone, Copy, PartialEq, Eq, Structural)]
pub enum CharClass {
    /// A decimal digit.
    Digit,
    /// A letter or a digit.
    Alnum,
    /// Anything but a double quote.
    NotQuote,
    /// Anything but a line feed.
    NotNewline,
}

/// Whether a character belongs to a class.
pub open spec fn in_class(c: char, class: CharClass) -> bool {
    match class {
        CharClass::Digit => is_digit(c),
        CharClass::Alnum => is_alnum(c),
        CharClass::NotQuote => c != '"',
        CharClass::NotNewline => c != '\n',
    }
}

/// Where the run of characters of `class` that starts at `from` ends: the
/// first place at or behind `from` that holds no such character, or the
/// end of the text.
pub open spec fn run_end(s: Seq<char>, from: int, class: CharClass) -> int
    decreases s.len() - from,
{
    if from < 0 || from >= s.len() || !in_class(s[from], class) {
        from
    } else {
        run_end(s, from + 1, class)
    }
}

/// The run ends at or behind its start, within the text.
pub proof fn lemma_run_end_bounds(s: Seq<char>, from: int, class: CharClass)
    requires
        0 <= from <= s.len(),
    ensures
        from <= run_end(s, from, class) <= s.len(),
    decreases s.len() - from,
{
    if from < s.len() && in_class(s[from], class) {
        lemma_run_end_bounds(s, from + 1, class);
    }
}

fn char_in_class(c: char, class: CharClass) -> (r: bool)
    ensures
        r == in_class(c, class),
{
    match class {
        CharClass::Digit => is_digit_char(c),
        CharClass::Alnum => is_alnum_char(c),
        CharClass::NotQuote => c != '"',
        CharClass::NotNewline => c != '\n',
    }
}

/// Finds where the run of `class` that starts at `from` ends.
fn scan_run(expression: &str, from: usize, class: CharClass) -> (r: usize)
    requires
        from <= expression@.len(),
    ensures
        r as int == run_end(expression@, from as int, class),
        from <= r <= expression@.len(),
{
    let n: usize = expression.unicode_len();
    let mut cur: usize = from;
    while cur < n
        invariant
            n == expression@.len(),
            from <= cur <= n,
            run_end(expression@, from as int, class) == run_end(expression@, cur as int, class),
        decreases n - cur,
    {
        if !char_in_class(expression.get_char(cur), class) {
            return cur;
        }
        cur += 1;
    }
    cur
}

/// A token of the given parts.
pub fn make_token(token_type: TokenType, lexeme: String, literal: Literal) -> (r: Token)
    ensures
        r.token_type == token_type,
        r.lexeme == lexeme,
        r.literal == literal,
{
    Token { token_type, lexeme, literal }
}

/// A token whose value is the empty text.
pub open spec fn plain_token(token_type: TokenType, lexeme: Seq<char>) -> TokenModel {
    TokenModel { token_type, lexeme, literal: LiteralModel::Text(Seq::empty()) }
}

/// The string token whose opening quote stands at `start`, with the place
/// of its closing quote; a failure where no quote closes it.
pub open spec fn string_token(s: Seq<char>, start: int) -> Result<(TokenModel, int), Fault> {
    let close = run_end(s, start + 1, CharClass::NotQuote);
    if 0 <= start < s.len() && close < s.len() {
        let inner = s.subrange(start + 1, close);
        Ok(
            (
                TokenModel {
                    token_type: TokenType::STRING,
                    lexeme: seq!['"'] + inner + seq!['"'],
                    literal: LiteralModel::Text(inner),
                },
                close,
            ),
        )
    } else {
        Err(Fault::UnexpectedEnd)
    }
}

/// The number token whose digits start at `start`, with the place behind
/// them; a failure where there is no digit or the number does not fit in
/// 32 bits.
pub open spec fn digit_token(s: Seq<char>, start: int) -> Result<(TokenModel, int), Fault> {
    let end = run_end(s, start, CharClass::Digit);
    if 0 <= start < end && digits_value(s.subrange(start, end)) <= i32::MAX {
        let run = s.subrange(start, end);
        Ok(
            (
                TokenModel {
                    token_type: TokenType::NUMBER,
                    lexeme: seq!['"'] + run + seq!['"'],
                    literal: LiteralModel::Number(digits_value(run)),
                },
                end,
            ),
        )
    } else {
        Err(Fault::ParseFailure)
    }
}

/// The reserved words and the token types they give.
pub open spec fn keyword_entries() -> Seq<(Seq<char>, TokenType)> {
    seq![
        ("false"@, TokenType::FALSE),
        ("true"@, TokenType::TRUE),
        ("else"@, TokenType::ELSE),
        ("define"@, TokenType::FUN),
        ("if"@, TokenType::IF),
        ("cond"@, TokenType::COND),
    ]
}

/// The contents of a table of reserved words.
pub open spec fn keyword_view(table: Seq<(&'static str, TokenType)>) -> Seq<
    (Seq<char>, TokenType),
> {
    Seq::new(table.len(), |i: int| (table[i].0@, table[i].1))
}

/// The token type of a word: that of the first entry that names it, an
/// identifier where none does.
pub open spec fn word_type(entries: Seq<(Seq<char>, TokenType)>, word: Seq<char>) -> TokenType
    decreases entries.len(),
{
    if entries.len() == 0 {
        TokenType::IDENTIFIER
    } else if entries[0].0 == word {
        entries[0].1
    } else {
        word_type(entries.skip(1), word)
    }
}

/// The word token that starts at `start`, with the place behind it.
pub open spec fn alpha_token(
    s: Seq<char>,
    start: int,
    entries: Seq<(Seq<char>, TokenType)>,
) -> (TokenModel, int) {
    let end = run_end(s, start, CharClass::Alnum);
    let word = if 0 <= start <= end <= s.len() {
        s.subrange(start, end)
    } else {
        Seq::empty()
    };
    (plain_token(word_type(entries, word), word), end)
}

/// The table of reserved words.
pub fn get_keywords() -> (r: Vec<(&'static str, TokenType)>)
    ensures
        keyword_view(r@) == keyword_entries(),
{
    let mut keywords: Vec<(&'static str, TokenType)> = Vec::new();
    keywords.push(("false", TokenType::FALSE));
    keywords.push(("true", TokenType::TRUE));
    keywords.push(("else", TokenType::ELSE));
    keywords.push(("define", TokenType::FUN));
    keywords.push(("if", TokenType::IF));
    keywords.push(("cond", TokenType::COND));
    assert(keyword_view(keywords@) =~= keyword_entries());
    keywords
}

/// Reads the string whose opening quote stands at `start`.
pub fn handle_string(expression: &str, start: usize) -> (r: Result<(Token, usize), InterpretError>)
    ensures
        match r {
            Ok(found) => string_token(expression@, start as int) == Ok::<(TokenModel, int), Fault>(
                (found.0@, found.1 as int),
            ),
            Err(e) => string_token(expression@, start as int) == Err::<(TokenModel, int), Fault>(
                e@,
            ),
        },
{
    let n: usize = expression.unicode_len();
    if start >= n {
        return Err(InterpretError::UnexpectedEnd);
    }
    let close: usize = scan_run(expression, start + 1, CharClass::NotQuote);
    if close >= n {
        return Err(InterpretError::UnexpectedEnd);
    }
    let inner: &str = expression.substring_char(start + 1, close);
    let mut lexeme: String = "\"".to_owned();
    lexeme.append(inner);
    lexeme.append("\"");
    proof {
        reveal_strlit("\"");
        assert(lexeme@ =~= seq!['"'] + inner@ + seq!['"']);
    }
    Ok((make_token(TokenType::STRING, lexeme, Literal::String(inner.to_owned())), close))
}

/// Reads the number whose digits start at `start`.
pub fn handle_digit(expression: &str, start: usize) -> (r: Result<(Token, usize), InterpretError>)
    ensures
        match r {
            Ok(found) => digit_token(expression@, start as int) == Ok::<(TokenModel, int), Fault>(
                (found.0@, found.1 as int),
            ),
            Err(e) => digit_token(expression@, start as int) == Err::<(TokenModel, int), Fault>(
                e@,
            ),
        },
{
    let n: usize = expression.unicode_len();
    if start >= n {
        return Err(InterpretError::ParseFailure);
    }
    let end: usize = scan_run(expression, start, CharClass::Digit);
    if end == start {
        return Err(InterpretError::ParseFailure);
    }
    let run: &str = expression.substring_char(start, end);
    proof {
        lemma_run_is_in_class(expression@, start as int, CharClass::Digit);
        assert(crate::text::all_digits(run@)) by {
            assert forall|i: int| 0 <= i < run@.len() implies is_digit(#[trigger] run@[i]) by {
                assert(run@[i] == expression@[start + i]);
            }
        }
        assert(is_digit(run@[0]));
    }
    match parse_i32(run) {
        None => Err(InterpretError::ParseFailure),
        Some(v) => {
            let mut lexeme: String = "\"".to_owned();
            lexeme.append(run);
            lexeme.append("\"");
            proof {
                reveal_strlit("\"");
                assert(lexeme@ =~= seq!['"'] + run@ + seq!['"']);
            }
            Ok((make_token(TokenType::NUMBER, lexeme, Literal::Number(v)), end))
        },
    }
}

/// Every character of a run belongs to the class of the run.
pub proof fn lemma_run_is_in_class(s: Seq<char>, from: int, class: CharClass)
    requires
        0 <= from <= s.len(),
    ensures
        forall|i: int| from <= i < run_end(s, from, class) ==> in_class(#[trigger] s[i], class),
    decreases s.len() - from,
{
    if from < s.len() && in_class(s[from], class) {
        lemma_run_is_in_class(s, from + 1, class);
    }
}

/// Looks a word up in a table of reserved words.
fn find_word(keywords: &Vec<(&'static str, TokenType)>, word: &str) -> (r: TokenType)
    ensures
        r == word_type(keyword_view(keywords@), word@),
{
    let ghost entries = keyword_view(keywords@);
    let mut i: usize = 0;
    assert(entries.skip(0) =~= entries);
    while i < keywords.len()
        invariant
            i <= keywords.len(),
            entries == keyword_view(keywords@),
            word_type(entries, word@) == word_type(entries.skip(i as int), word@),
        decreases keywords.len() - i,
    {
        let ghost rest = entries.skip(i as int);
        assert(rest[0] == entries[i as int]);
        assert(rest.skip(1) =~= entries.skip(i + 1));
        if same_text(keywords[i].0, word) {
            return keywords[i].1;
        }
        i += 1;
    }
    TokenType::IDENTIFIER
}

/// Reads the word that starts at `start`: a reserved word of `keywords`,
/// or an identifier.
pub fn handle_alpha(
    expression: &str,
    start: usize,
    keywords: Vec<(&'static str, TokenType)>,
) -> (r: (Token, usize))
    ensures
        alpha_token(expression@, start as int, keyword_view(keywords@)) == (r.0@, r.1 as int),
{
    let n: usize = expression.unicode_len();
    let end: usize = if start <= n {
        scan_run(expression, start, CharClass::Alnum)
    } else {
        start
    };
    let word: &str = if start <= n {
        expression.substring_char(start, end)
    } else {
        expression.substring_char(0, 0)
    };
    assert(start > n ==> word@ =~= Seq::<char>::empty());
    let token_type: TokenType = find_word(&keywords, word);
    (make_token(token_type, word.to_owned(), Literal::String(String::new())), end)
}

/// What stands at one place of the source text.
pub enum Lexed {
    /// A token, and the place behind it.
    Token(TokenModel, int),
    /// Nothing that gives a token; the scan goes on at the given place.
    Skip(int),
    /// A malformed token.
    Fail(Fault),
}

/// Whether the character behind `pos` is `c`.
pub open spec fn followed_by(s: Seq<char>, pos: int, c: char) -> bool {
    pos + 1 < s.len() && s[pos + 1] == c
}

/// The token of an operator that may take a second character: `pair`
/// where `second` follows, `single` where it does not.
pub open spec fn one_or_two(
    s: Seq<char>,
    pos: int,
    second: char,
    single: TokenModel,
    pair: TokenModel,
) -> Lexed {
    if followed_by(s, pos, second) {
        Lexed::Token(pair, pos + 2)
    } else {
        Lexed::Token(single, pos + 1)
    }
}

/// What stands at `pos`, a place within the text.
pub open spec fn lex_at(s: Seq<char>, pos: int) -> Lexed {
    let c = s[pos];
    if c == '(' {
        Lexed::Token(plain_token(TokenType::LEFTPAREN, "("@), pos + 1)
    } else if c == ')' {
        Lexed::Token(plain_token(TokenType::RIGHTPAREN, ")"@), pos + 1)
    } else if c == '-' {
        Lexed::Token(plain_token(TokenType::MINUS, "-"@), pos + 1)
    } else if c == '+' {
        Lexed::Token(plain_token(TokenType::PLUS, "+"@), pos + 1)
    } else if c == '/' {
        Lexed::Token(plain_token(TokenType::SLASH, "/"@), pos + 1)
    } else if c == '|' {
        Lexed::Token(plain_token(TokenType::OR, "|"@), pos + 1)
    } else if c == '&' {
        Lexed::Token(plain_token(TokenType::AND, "&"@), pos + 1)
    } else if c == '%' {
        Lexed::Token(plain_token(TokenType::MOD, "%"@), pos + 1)
    } else if c == '*' {
        one_or_two(
            s,
            pos,
            '*',
            plain_token(TokenType::STAR, "*"@),
            plain_token(TokenType::STARSTAR, "**"@),
        )
    } else if c == '!' {
        one_or_two(
            s,
            pos,
            '=',
            plain_token(TokenType::BANG, "!"@),
            plain_token(TokenType::BANGEQUAL, "!="@),
        )
    } else if c == '=' {
        one_or_two(
            s,
            pos,
            '=',
            plain_token(TokenType::EQUAL, "="@),
            plain_token(TokenType::EQUALEQUAL, "=="@),
        )
    } else if c == '>' {
        one_or_two(
            s,
            pos,
            '=',
            plain_token(TokenType::GREATER, ">"@),
            plain_token(TokenType::GREATEREQUAL, ">="@),
        )
    } else if c == '<' {
        one_or_two(
            s,
            pos,
            '=',
            plain_token(TokenType::LESSER, "<"@),
            plain_token(TokenType::LESSEREQUAL, "<="@),
        )
    } else if c == ';' {
        Lexed::Skip(run_end(s, pos, CharClass::NotNewline))
    } else if c == '"' {
        match string_token(s, pos) {
            Ok(found) => Lexed::Token(found.0, found.1 + 1),
            Err(e) => Lexed::Fail(e),
        }
    } else if is_digit(c) {
        match digit_token(s, pos) {
            Ok(found) => Lexed::Token(found.0, found.1),
            Err(e) => Lexed::Fail(e),
        }
    } else if is_alpha(c) {
        let found = alpha_token(s, pos, keyword_entries());
        Lexed::Token(found.0, found.1)
    } else {
        Lexed::Skip(pos + 1)
    }
}

/// The tokens of the text from `pos` on, or the failure of the first
/// malformed one.
pub open spec fn scan(s: Seq<char>, pos: int) -> Result<Seq<TokenModel>, Fault>
    decreases s.len() - pos,
{
    if pos < 0 || pos >= s.len() {
        Ok(Seq::empty())
    } else {
        match lex_at(s, pos) {
            Lexed::Token(t, next) => if pos < next <= s.len() {
                match scan(s, next) {
                    Ok(rest) => Ok(seq![t] + rest),
                    Err(e) => Err(e),
                }
            } else {
                Ok(seq![t])
            },
            Lexed::Skip(next) => if pos < next <= s.len() {
                scan(s, next)
            } else {
                Ok(Seq::empty())
            },
            Lexed::Fail(e) => Err(e),
        }
    }
}

/// A scan result with `collected` in front of its tokens.
pub open spec fn after_tokens(
    collected: Seq<TokenModel>,
    r: Result<Seq<TokenModel>, Fault>,
) -> Result<Seq<TokenModel>, Fault> {
    match r {
        Ok(rest) => Ok(collected + rest),
        Err(e) => Err(e),
    }
}

/// A token whose value is the empty text.
fn plain(token_type: TokenType, lexeme: &str) -> (r: Token)
    ensures
        r@ == plain_token(token_type, lexeme@),
{
    make_token(token_type, lexeme.to_owned(), Literal::String(String::new()))
}

/// What the scan found at one place.
enum Found {
    Token(Token, usize),
    Skip(usize),
    Fail(InterpretError),
}

/// Whether what the scan found is what the model says stands there.
spec fn found_matches(found: Found, lexed: Lexed) -> bool {
    match found {
        Found::Token(t, next) => lexed == Lexed::Token(t@, next as int),
        Found::Skip(next) => lexed == Lexed::Skip(next as int),
        Found::Fail(e) => lexed == Lexed::Fail(e@),
    }
}

/// Reads an operator that may take `second` as its second character.
fn read_one_or_two(
    expression: &str,
    pos: usize,
    n: usize,
    second: char,
    single_type: TokenType,
    single: &str,
    pair_type: TokenType,
    pair: &str,
) -> (r: Found)
    requires
        n == expression@.len(),
        pos < n,
    ensures
        found_matches(
            r,
            one_or_two(
                expression@,
                pos as int,
                second,
                plain_token(single_type, single@),
                plain_token(pair_type, pair@),
            ),
        ),
        r matches Found::Token(_, next) && pos < next <= n,
{
    if n - pos > 1 && expression.get_char(pos + 1) == second {
        Found::Token(plain(pair_type, pair), pos + 2)
    } else {
        Found::Token(plain(single_type, single), pos + 1)
    }
}

/// Reads what stands at `pos`.
fn read_at(expression: &str, pos: usize, n: usize, keywords: &Vec<(&'static str, TokenType)>) -> (r:
    Found)
    requires
        n == expression@.len(),
        pos < n,
        keyword_view(keywords@) == keyword_entries(),
    ensures
        found_matches(r, lex_at(expression@, pos as int)),
        r matches Found::Token(_, next) ==> pos < next <= n,
        r matches Found::Skip(next) ==> pos < next <= n,
{
    let c: char = expression.get_char(pos);
    if c == '(' {
        Found::Token(plain(TokenType::LEFTPAREN, "("), pos + 1)
    } else if c == ')' {
        Found::Token(plain(TokenType::RIGHTPAREN, ")"), pos + 1)
    } else if c == '-' {
        Found::Token(plain(TokenType::MINUS, "-"), pos + 1)
    } else if c == '+' {
        Found::Token(plain(TokenType::PLUS, "+"), pos + 1)
    } else if c == '/' {
        Found::Token(plain(TokenType::SLASH, "/"), pos + 1)
    } else if c == '|' {
        Found::Token(plain(TokenType::OR, "|"), pos + 1)
    } else if c == '&' {
        Found::Token(plain(TokenType::AND, "&"), pos + 1)
    } else if c == '%' {
        Found::Token(plain(TokenType::MOD, "%"), pos + 1)
    } else if c == '*' {
        read_one_or_two(expression, pos, n, '*', TokenType::STAR, "*", TokenType::STARSTAR, "**")
    } else if c == '!' {
        read_one_or_two(expression, pos, n, '=', TokenType::BANG, "!", TokenType::BANGEQUAL, "!=")
    } else if c == '=' {
        read_one_or_two(expression, pos, n, '=', TokenType::EQUAL, "=", TokenType::EQUALEQUAL, "==")
    } else if c == '>' {
        read_one_or_two(
            expression,
            pos,
            n,
            '=',
            TokenType::GREATER,
            ">",
            TokenType::GREATEREQUAL,
            ">=",
        )
    } else if c == '<' {
        read_one_or_two(
            expression,
            pos,
            n,
            '=',
            TokenType::LESSER,
            "<",
            TokenType::LESSEREQUAL,
            "<=",
        )
    } else if c == ';' {
        proof {
            lemma_run_end_bounds(expression@, pos + 1, CharClass::NotNewline);
        }
        Found::Skip(scan_run(expression, pos, CharClass::NotNewline))
    } else if c == '"' {
        proof {
            lemma_run_end_bounds(expression@, pos + 1, CharClass::NotQuote);
        }
        match handle_string(expression, pos) {
            Ok((token, close)) => Found::Token(token, close + 1),
            Err(e) => Found::Fail(e),
        }
    } else if is_digit_char(c) {
        proof {
            lemma_run_end_bounds(expression@, pos as int, CharClass::Digit);
        }
        match handle_digit(expression, pos) {
            Ok((token, end)) => Found::Token(token, end),
            Err(e) => Found::Fail(e),
        }
    } else if is_alpha_char(c) {
        proof {
            lemma_run_end_bounds(expression@, pos + 1, CharClass::Alnum);
        }
        let (token, end) = handle_alpha(expression, pos, clone_keywords(keywords));
        Found::Token(token, end)
    } else {
        Found::Skip(pos + 1)
    }
}

/// Copies a table of reserved words.
fn clone_keywords(keywords: &Vec<(&'static str, TokenType)>) -> (r: Vec<(&'static str, TokenType)>)
    ensures
        keyword_view(r@) == keyword_view(keywords@),
{
    let mut out: Vec<(&'static str, TokenType)> = Vec::new();
    let mut i: usize = 0;
    while i < keywords.len()
        invariant
            i <= keywords.len(),
            out@.len() == i,
            forall|j: int| 0 <= j < i ==> out@[j] == keywords@[j],
        decreases keywords.len() - i,
    {
        out.push((keywords[i].0, keywords[i].1));
        i += 1;
    }
    assert(keyword_view(out@) =~= keyword_view(keywords@));
    out
}

/// Turns source text into its tokens.
///
/// Parentheses and the operators `- + / * | & %` give one token each;
/// `!=`, `==`, `>=`, `<=` and `**` give one token for their two
/// characters, and their first character alone gives one where the second
/// does not follow. A run of digits is a number, a quoted run a string, a
/// word a reserved word or an identifier. A `;` starts a comment that
/// runs to the end of its line; any other character is passed over. It
/// fails where a string is not closed and where a number does not fit in
/// 32 bits.
pub fn tokenize(expression: &str) -> (r: Result<Vec<Token>, InterpretError>)
    ensures
        match r {
            Ok(tokens) => scan(expression@, 0) == Ok::<Seq<TokenModel>, Fault>(
                crate::tokens::token_models(tokens@),
            ),
            Err(e) => scan(expression@, 0) == Err::<Seq<TokenModel>, Fault>(e@),
        },
{
    let n: usize = expression.unicode_len();
    let keywords: Vec<(&'static str, TokenType)> = get_keywords();
    let mut tokens: Vec<Token> = Vec::new();
    let mut pos: usize = 0;
    let ghost s = expression@;
    proof {
        assert(crate::tokens::token_models(tokens@) =~= Seq::<TokenModel>::empty());
        match scan(s, 0) {
            Ok(rest) => {
                assert(Seq::<TokenModel>::empty() + rest =~= rest);
            },
            Err(_) => {},
        }
    }
    while pos < n
        invariant
            n == expression@.len(),
            s == expression@,
            pos <= n,
            keyword_view(keywords@) == keyword_entries(),
            scan(s, 0) == after_tokens(crate::tokens::token_models(tokens@), scan(s, pos as int)),
        decreases n - pos,
    {
        let ghost collected = crate::tokens::token_models(tokens@);
        match read_at(expression, pos, n, &keywords) {
            Found::Token(token, next) => {
                proof {
                    match scan(s, next as int) {
                        Ok(rest) => {
                            assert(collected + (seq![token@] + rest) =~= collected.push(token@)
                                + rest);
                        },
                        Err(_) => {},
                    }
                }
                tokens.push(token);
                assert(crate::tokens::token_models(tokens@) =~= collected.push(token@));
                pos = next;
            },
            Found::Skip(next) => {
                pos = next;
            },
            Found::Fail(e) => {
                return Err(e);
            },
        }
    }
    proof {
        let done = crate::tokens::token_models(tokens@);
        assert(done + Seq::<TokenModel>::empty() =~= done);
    }
    Ok(tokens)
}

/// The token that starts at `pos`, and the place behind it; nothing where
/// `pos` lies outside the text, holds a character that gives no token, or
/// starts a malformed one.
pub fn token_at(expression: &str, pos: usize) -> (r: Option<(Token, usize)>)
    ensures
        match r {
            Some(found) => pos < expression@.len() && lex_at(expression@, pos as int)
                == Lexed::Token(found.0@, found.1 as int),
            None => pos >= expression@.len() || !(lex_at(expression@, pos as int) is Token),
        },
{
    let n: usize = expression.unicode_len();
    if pos >= n {
        return None;
    }
    let keywords: Vec<(&'static str, TokenType)> = get_keywords();
    match read_at(expression, pos, n, &keywords) {
        Found::Token(token, next) => Some((token, next)),
        _ => None,
    }
}

} // verus!
