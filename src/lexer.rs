use vstd::prelude::*;
use crate::text::{chars_of, push_char};

verus! {

/// A lexical token. Identifiers keep their spelling; `Error` marks input that
/// matches no token pattern.
#[derive(Debug, PartialEq, Clone)]
pub enum Token {
    Integer(i32),
    Plus,
    Minus,
    Asterisk,
    Slash,
    Equals,
    GreaterThan,
    LessThan,
    LeftParen,
    RightParen,
    LeftBrace,
    RightBrace,
    Semicolon,
    Let,
    If,
    Else,
    Identifier(String),
    Error,
}

/// The mathematical model of a token: an identifier is its character sequence.
pub enum Tok {
    Integer(i32),
    Plus,
    Minus,
    Asterisk,
    Slash,
    Equals,
    GreaterThan,
    LessThan,
    LeftParen,
    RightParen,
    LeftBrace,
    RightBrace,
    Semicolon,
    Let,
    If,
    Else,
    Identifier(Seq<char>),
    Error,
}

impl View for Token {
    type V = Tok;

    open spec fn view(&self) -> Tok {
        match self {
            Token::Integer(v) => Tok::Integer(*v),
            Token::Plus => Tok::Plus,
            Token::Minus => Tok::Minus,
            Token::Asterisk => Tok::Asterisk,
            Token::Slash => Tok::Slash,
            Token::Equals => Tok::Equals,
            Token::GreaterThan => Tok::GreaterThan,
            Token::LessThan => Tok::LessThan,
            Token::LeftParen => Tok::LeftParen,
            Token::RightParen => Tok::RightParen,
            Token::LeftBrace => Tok::LeftBrace,
            Token::RightBrace => Tok::RightBrace,
            Token::Semicolon => Tok::Semicolon,
            Token::Let => Tok::Let,
            Token::If => Tok::If,
            Token::Else => Tok::Else,
            Token::Identifier(name) => Tok::Identifier(name@),
            Token::Error => Tok::Error,
        }
    }
}

/// The models of a sequence of tokens.
pub open spec fn toks(v: Seq<Token>) -> Seq<Tok> {
    v.map_values(|t: Token| t@)
}

pub open spec fn is_digit(c: char) -> bool {
    '0' <= c <= '9'
}

pub open spec fn is_ident_start(c: char) -> bool {
    ('a' <= c <= 'z') || ('A' <= c <= 'Z') || c == '_'
}

pub open spec fn is_ident_char(c: char) -> bool {
    is_ident_start(c) || is_digit(c)
}

/// Whitespace that separates tokens and is never emitted.
pub open spec fn is_space(c: char) -> bool {
    c == ' ' || c == '\t' || c == '\n' || c == '\x0C'
}

/// The end of the longest run of characters satisfying `p` that starts at `i`.
pub open spec fn run_end(s: Seq<char>, i: int, p: spec_fn(char) -> bool) -> int
    decreases s.len() - i,
{
    if 0 <= i < s.len() && p(s[i]) {
        run_end(s, i + 1, p)
    } else {
        i
    }
}

pub open spec fn digit_value(c: char) -> nat {
    (c as u32 - '0' as u32) as nat
}

/// The value of a run of decimal digits.
pub open spec fn digits_value(d: Seq<char>) -> nat
    decreases d.len(),
{
    if d.len() == 0 {
        0
    } else {
        digits_value(d.drop_last()) * 10 + digit_value(d.last())
    }
}

/// The token for a maximal run of identifier characters.
pub open spec fn word_token(w: Seq<char>) -> Tok {
    if w == seq!['l', 'e', 't'] {
        Tok::Let
    } else if w == seq!['i', 'f'] {
        Tok::If
    } else if w == seq!['e', 'l', 's', 'e'] {
        Tok::Else
    } else {
        Tok::Identifier(w)
    }
}

/// The token for a single punctuation or operator character.
pub open spec fn symbol_token(c: char) -> Tok {
    if c == '+' {
        Tok::Plus
    } else if c == '-' {
        Tok::Minus
    } else if c == '*' {
        Tok::Asterisk
    } else if c == '/' {
        Tok::Slash
    } else if c == '=' {
        Tok::Equals
    } else if c == '>' {
        Tok::GreaterThan
    } else if c == '<' {
        Tok::LessThan
    } else if c == '(' {
        Tok::LeftParen
    } else if c == ')' {
        Tok::RightParen
    } else if c == '{' {
        Tok::LeftBrace
    } else if c == '}' {
        Tok::RightBrace
    } else if c == ';' {
        Tok::Semicolon
    } else {
        Tok::Error
    }
}

/// The token that starts at `i` (a non-space character) and where the scan
/// resumes after it: digits form an integer (an error when it exceeds the
/// 32-bit range), identifier characters form a keyword or an identifier, and
/// any other character is a token of its own.
pub open spec fn scan_token(s: Seq<char>, i: int) -> (Tok, int) {
    if is_digit(s[i]) {
        let j = run_end(s, i, |c: char| is_digit(c));
        let v = digits_value(s.subrange(i, j));
        if v <= i32::MAX {
            (Tok::Integer(v as i32), j)
        } else {
            (Tok::Error, j)
        }
    } else if is_ident_start(s[i]) {
        let j = run_end(s, i, |c: char| is_ident_char(c));
        (word_token(s.subrange(i, j)), j)
    } else {
        (symbol_token(s[i]), i + 1)
    }
}

/// The tokens of `s` from position `i` on, scanning left to right by longest
/// match and dropping whitespace.
pub open spec fn lex_from(s: Seq<char>, i: int) -> Seq<Tok>
    decreases s.len() - i,
    via lex_from_decreases
{
    if i < 0 || i >= s.len() {
        Seq::empty()
    } else if is_space(s[i]) {
        lex_from(s, run_end(s, i, |c: char| is_space(c)))
    } else {
        let (t, j) = scan_token(s, i);
        seq![t] + lex_from(s, j)
    }
}

/// The tokens of a whole text.
pub open spec fn lex(s: Seq<char>) -> Seq<Tok> {
    lex_from(s, 0)
}

pub proof fn lemma_run_end(s: Seq<char>, i: int, p: spec_fn(char) -> bool)
    requires
        0 <= i <= s.len(),
    ensures
        i <= run_end(s, i, p) <= s.len(),
        i < s.len() && p(s[i]) ==> run_end(s, i, p) > i,
        forall|k: int| i <= k < run_end(s, i, p) ==> p(s[k]),
        run_end(s, i, p) < s.len() ==> !p(s[run_end(s, i, p)]),
    decreases s.len() - i,
{
    if i < s.len() && p(s[i]) {
        lemma_run_end(s, i + 1, p);
    }
}

#[via_fn]
proof fn lex_from_decreases(s: Seq<char>, i: int) {
    if 0 <= i < s.len() {
        if is_space(s[i]) {
            lemma_run_end(s, i, |c: char| is_space(c));
        } else if is_digit(s[i]) {
            lemma_run_end(s, i, |c: char| is_digit(c));
        } else if is_ident_start(s[i]) {
            lemma_run_end(s, i, |c: char| is_ident_char(c));
        }
    }
}

fn is_space_char(c: char) -> (b: bool)
    ensures
        b == is_space(c),
{
    c == ' ' || c == '\t' || c == '\n' || c == '\x0C'
}

fn is_digit_char(c: char) -> (b: bool)
    ensures
        b == is_digit(c),
{
    '0' <= c && c <= '9'
}

fn is_ident_start_char(c: char) -> (b: bool)
    ensures
        b == is_ident_start(c),
{
    ('a' <= c && c <= 'z') || ('A' <= c && c <= 'Z') || c == '_'
}

fn is_ident_char_exec(c: char) -> (b: bool)
    ensures
        b == is_ident_char(c),
{
    is_ident_start_char(c) || is_digit_char(c)
}

fn symbol(c: char) -> (t: Token)
    ensures
        t@ == symbol_token(c),
{
    if c == '+' {
        Token::Plus
    } else if c == '-' {
        Token::Minus
    } else if c == '*' {
        Token::Asterisk
    } else if c == '/' {
        Token::Slash
    } else if c == '=' {
        Token::Equals
    } else if c == '>' {
        Token::GreaterThan
    } else if c == '<' {
        Token::LessThan
    } else if c == '(' {
        Token::LeftParen
    } else if c == ')' {
        Token::RightParen
    } else if c == '{' {
        Token::LeftBrace
    } else if c == '}' {
        Token::RightBrace
    } else if c == ';' {
        Token::Semicolon
    } else {
        Token::Error
    }
}

/// Scans the run of digits at `i`: an integer token, or an error token when the
/// value does not fit in 32 signed bits.
fn scan_number(s: &Vec<char>, i: usize) -> (r: (Token, usize))
    requires
        i < s.len(),
        is_digit(s@[i as int]),
    ensures
        (r.0@, r.1 as int) == scan_token(s@, i as int),
{
    let n = s.len();
    let mut j: usize = i;
    let mut v: u64 = 0;
    let mut big = false;
    while j < n && is_digit_char(s[j])
        invariant
            n == s.len(),
            i <= j <= n,
            run_end(s@, i as int, |c: char| is_digit(c)) == run_end(s@, j as int, |c: char| is_digit(c)),
            big == (digits_value(s@.subrange(i as int, j as int)) > i32::MAX),
            !big ==> v == digits_value(s@.subrange(i as int, j as int)),
        decreases n - j,
    {
        let ghost before = s@.subrange(i as int, j as int);
        let ghost after = s@.subrange(i as int, j + 1);
        assert(after.drop_last() =~= before);
        assert(after.last() == s@[j as int]);
        let d = (s[j] as u32 - '0' as u32) as u64;
        if !big {
            v = v * 10 + d;
            if v > i32::MAX as u64 {
                big = true;
            }
        } else {
            assert(digits_value(after) >= digits_value(before)) by (nonlinear_arith)
                requires
                    digits_value(after) == digits_value(before) * 10 + digit_value(s@[j as int]),
            ;
        }
        j = j + 1;
    }
    if big {
        (Token::Error, j)
    } else {
        (Token::Integer(v as i32), j)
    }
}

/// Scans the run of identifier characters at `i`: a keyword or an identifier.
fn scan_word(s: &Vec<char>, i: usize) -> (r: (Token, usize))
    requires
        i < s.len(),
        is_ident_start(s@[i as int]),
    ensures
        (r.0@, r.1 as int) == scan_token(s@, i as int),
{
    let n = s.len();
    let mut j: usize = i;
    let mut w = String::new();
    while j < n && is_ident_char_exec(s[j])
        invariant
            n == s.len(),
            i <= j <= n,
            run_end(s@, i as int, |c: char| is_ident_char(c)) == run_end(
                s@,
                j as int,
                |c: char| is_ident_char(c),
            ),
            w@ == s@.subrange(i as int, j as int),
        decreases n - j,
    {
        push_char(&mut w, s[j]);
        assert(w@ =~= s@.subrange(i as int, j + 1));
        j = j + 1;
    }
    let ghost word = s@.subrange(i as int, j as int);
    let len = j - i;
    if len == 3 && s[i] == 'l' && s[i + 1] == 'e' && s[i + 2] == 't' {
        assert(word =~= seq!['l', 'e', 't']);
        (Token::Let, j)
    } else if len == 2 && s[i] == 'i' && s[i + 1] == 'f' {
        assert(word =~= seq!['i', 'f']);
        assert(word != seq!['l', 'e', 't']);
        (Token::If, j)
    } else if len == 4 && s[i] == 'e' && s[i + 1] == 'l' && s[i + 2] == 's' && s[i + 3] == 'e' {
        assert(word =~= seq!['e', 'l', 's', 'e']);
        assert(word != seq!['l', 'e', 't']);
        assert(word != seq!['i', 'f']);
        (Token::Else, j)
    } else {
        assert(word != seq!['l', 'e', 't'] && word != seq!['i', 'f'] && word != seq!['e', 'l', 's', 'e']) by {
            if word == seq!['l', 'e', 't'] {
                assert(word[0] == 'l' && word[1] == 'e' && word[2] == 't');
            }
            if word == seq!['i', 'f'] {
                assert(word[0] == 'i' && word[1] == 'f');
            }
            if word == seq!['e', 'l', 's', 'e'] {
                assert(word[0] == 'e' && word[1] == 'l' && word[2] == 's' && word[3] == 'e');
            }
        }
        (Token::Identifier(w), j)
    }
}

/// Splits source text into tokens, left to right by longest match; whitespace
/// is dropped and unrecognised characters become error tokens.
pub fn tokenize(input: &str) -> (r: Vec<Token>)
    ensures
        toks(r@) == lex(input@),
{
    let s = chars_of(input);
    let n = s.len();
    let mut out: Vec<Token> = Vec::new();
    let mut i: usize = 0;
    while i < n
        invariant
            s@ == input@,
            n == s.len(),
            i <= n,
            toks(out@) + lex_from(s@, i as int) == lex(s@),
        decreases n - i,
    {
        let c = s[i];
        if is_space_char(c) {
            let mut j: usize = i;
            while j < n && is_space_char(s[j])
                invariant
                    n == s.len(),
                    i <= j <= n,
                    run_end(s@, i as int, |c: char| is_space(c)) == run_end(
                        s@,
                        j as int,
                        |c: char| is_space(c),
                    ),
                decreases n - j,
            {
                j = j + 1;
            }
            i = j;
        } else {
            let ghost prev = out@;
            let (t, j) = if is_digit_char(c) {
                scan_number(&s, i)
            } else if is_ident_start_char(c) {
                scan_word(&s, i)
            } else {
                (symbol(c), i + 1)
            };
            proof {
                lemma_run_end(s@, i as int, |c: char| is_digit(c));
                lemma_run_end(s@, i as int, |c: char| is_ident_char(c));
            }
            out.push(t);
            assert(toks(out@) =~= toks(prev).push(t@));
            assert(toks(out@) + lex_from(s@, j as int) =~= toks(prev) + (seq![t@] + lex_from(s@, j as int)));
            i = j;
        }
    }
    assert(lex_from(s@, n as int) =~= Seq::<Tok>::empty());
    assert(toks(out@) + lex_from(s@, n as int) =~= toks(out@));
    out
}

} // verus!
