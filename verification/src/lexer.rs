//! calc-lang's tokens, and the lexer that splits source text into them.
//!
//! Whitespace (Unicode `White_Space`) separates tokens and is otherwise skipped.
//! A token is the longest match at its position: a number is decimal digits with an
//! optional `.` and more digits; a word is a letter or `_` followed by letters,
//! digits or `_`, and is a keyword (`if`, `else`, `let`, `print`) when it is exactly
//! one; everything else is one punctuation byte. The token list always ends with
//! `Eof`, or with `Invalid` at the first byte that starts no token.

use vstd::prelude::*;
use vstd::utf8::encode_utf8;

use crate::text::all_ascii;

verus! {

/// What kind of token a [`Token`] is.
#[derive(Debug, Clone, Copy, PartialEq, Eq, Structural)]
pub enum TokenKind {
    Num,
    Ident,
    If,
    Else,
    Let,
    Print,
    Plus,
    Minus,
    Star,
    Slash,
    LParen,
    RParen,
    LBrace,
    RBrace,
    Assign,
    Semi,
    /// The end of the input.
    Eof,
    /// A byte that starts no token; lexing stops there.
    Invalid,
}

/// A token: its kind and the byte range it covers.
#[derive(Debug, Clone, Copy, PartialEq, Eq, Structural)]
pub struct Token {
    pub kind: TokenKind,
    pub start: usize,
    pub end: usize,
}

/// Length of the whitespace character starting at byte `i`, or 0 if none does.
pub open spec fn ws_len(b: Seq<u8>, i: int) -> int {
    if 0 <= i < b.len() && (b[i] == 0x20 || b[i] == 0x09 || b[i] == 0x0a || b[i] == 0x0b
        || b[i] == 0x0c || b[i] == 0x0d) {
        1
    } else if 0 <= i && i + 1 < b.len() && b[i] == 0xc2 && (b[i + 1] == 0x85 || b[i + 1] == 0xa0) {
        2
    } else if 0 <= i && i + 2 < b.len() && b[i] == 0xe1 && b[i + 1] == 0x9a && b[i + 2] == 0x80 {
        3
    } else if 0 <= i && i + 2 < b.len() && b[i] == 0xe2 && b[i + 1] == 0x80 && ((0x80 <= b[i + 2]
        <= 0x8a) || b[i + 2] == 0xa8 || b[i + 2] == 0xa9 || b[i + 2] == 0xaf) {
        3
    } else if 0 <= i && i + 2 < b.len() && b[i] == 0xe2 && b[i + 1] == 0x81 && b[i + 2] == 0x9f {
        3
    } else if 0 <= i && i + 2 < b.len() && b[i] == 0xe3 && b[i + 1] == 0x80 && b[i + 2] == 0x80 {
        3
    } else {
        0
    }
}

/// `0`–`9`.
pub open spec fn is_digit(c: u8) -> bool {
    0x30 <= c <= 0x39
}

/// A letter or `_`: what a word starts with.
pub open spec fn is_word_start(c: u8) -> bool {
    (0x41 <= c <= 0x5a) || (0x61 <= c <= 0x7a) || c == 0x5f
}

/// A letter, digit or `_`: what a word continues with.
pub open spec fn is_word_char(c: u8) -> bool {
    is_word_start(c) || is_digit(c)
}

/// The end of the run of digits starting at `i`.
pub open spec fn digits_end(b: Seq<u8>, i: int) -> int
    decreases b.len() - i,
{
    if 0 <= i < b.len() && is_digit(b[i]) {
        digits_end(b, i + 1)
    } else {
        i
    }
}

/// The end of the run of word characters starting at `i`.
pub open spec fn word_end(b: Seq<u8>, i: int) -> int
    decreases b.len() - i,
{
    if 0 <= i < b.len() && is_word_char(b[i]) {
        word_end(b, i + 1)
    } else {
        i
    }
}

/// The end of the number starting at `i`: digits, then optionally `.` and digits.
pub open spec fn number_end(b: Seq<u8>, i: int) -> int {
    let j = digits_end(b, i);
    if 0 <= j && j + 1 < b.len() && b[j] == 0x2e && is_digit(b[j + 1]) {
        digits_end(b, j + 1)
    } else {
        j
    }
}

/// The kind of the word `w`: a keyword, or an identifier.
pub open spec fn word_kind(w: Seq<u8>) -> TokenKind {
    if w == seq![0x69u8, 0x66u8] {
        TokenKind::If
    } else if w == seq![0x65u8, 0x6cu8, 0x73u8, 0x65u8] {
        TokenKind::Else
    } else if w == seq![0x6cu8, 0x65u8, 0x74u8] {
        TokenKind::Let
    } else if w == seq![0x70u8, 0x72u8, 0x69u8, 0x6eu8, 0x74u8] {
        TokenKind::Print
    } else {
        TokenKind::Ident
    }
}

/// The one-byte token `c` is, if any.
pub open spec fn punct_kind(c: u8) -> Option<TokenKind> {
    if c == 0x2b {
        Some(TokenKind::Plus)
    } else if c == 0x2d {
        Some(TokenKind::Minus)
    } else if c == 0x2a {
        Some(TokenKind::Star)
    } else if c == 0x2f {
        Some(TokenKind::Slash)
    } else if c == 0x28 {
        Some(TokenKind::LParen)
    } else if c == 0x29 {
        Some(TokenKind::RParen)
    } else if c == 0x7b {
        Some(TokenKind::LBrace)
    } else if c == 0x7d {
        Some(TokenKind::RBrace)
    } else if c == 0x3d {
        Some(TokenKind::Assign)
    } else if c == 0x3b {
        Some(TokenKind::Semi)
    } else {
        None
    }
}

pub proof fn lemma_digits_end_ge(b: Seq<u8>, i: int)
    ensures
        digits_end(b, i) >= i,
        0 <= i ==> digits_end(b, i) <= b.len() || digits_end(b, i) == i,
    decreases b.len() - i,
{
    if 0 <= i < b.len() && is_digit(b[i]) {
        lemma_digits_end_ge(b, i + 1);
    }
}

pub proof fn lemma_word_end_ge(b: Seq<u8>, i: int)
    ensures
        word_end(b, i) >= i,
        0 <= i ==> word_end(b, i) <= b.len() || word_end(b, i) == i,
    decreases b.len() - i,
{
    if 0 <= i < b.len() && is_word_char(b[i]) {
        lemma_word_end_ge(b, i + 1);
    }
}

/// The tokens of `b` from byte `i` on.
pub open spec fn lex_from(b: Seq<u8>, i: int) -> Seq<Token>
    decreases b.len() - i,
{
    if i < 0 || i >= b.len() {
        seq![Token { kind: TokenKind::Eof, start: b.len() as usize, end: b.len() as usize }]
    } else if ws_len(b, i) > 0 {
        lex_from(b, i + ws_len(b, i))
    } else if is_digit(b[i]) {
        let j = number_end(b, i);
        proof {
            lemma_digits_end_ge(b, i);
            lemma_digits_end_ge(b, i + 1);
            lemma_digits_end_ge(b, digits_end(b, i) + 1);
        }
        seq![Token { kind: TokenKind::Num, start: i as usize, end: j as usize }] + lex_from(b, j)
    } else if is_word_start(b[i]) {
        let j = word_end(b, i);
        proof {
            lemma_word_end_ge(b, i + 1);
        }
        seq![Token { kind: word_kind(b.subrange(i, j)), start: i as usize, end: j as usize }]
            + lex_from(b, j)
    } else {
        match punct_kind(b[i]) {
            Some(k) => seq![Token { kind: k, start: i as usize, end: (i + 1) as usize }] + lex_from(
                b,
                i + 1,
            ),
            None => seq![Token { kind: TokenKind::Invalid, start: i as usize, end: i as usize }],
        }
    }
}

/// The tokens of `src`, over its UTF-8 bytes.
pub open spec fn spec_tokens(src: Seq<char>) -> Seq<Token> {
    lex_from(encode_utf8(src), 0)
}


fn ws_len_exec(b: &[u8], i: usize) -> (w: usize)
    requires
        i < b@.len(),
    ensures
        w == ws_len(b@, i as int),
{
    let n = b.len();
    let c = b[i];
    if c == 0x20 || c == 0x09 || c == 0x0a || c == 0x0b || c == 0x0c || c == 0x0d {
        1
    } else if n - i > 1 && c == 0xc2 && (b[i + 1] == 0x85 || b[i + 1] == 0xa0) {
        2
    } else if n - i > 2 && c == 0xe1 && b[i + 1] == 0x9a && b[i + 2] == 0x80 {
        3
    } else if n - i > 2 && c == 0xe2 && b[i + 1] == 0x80 && ((0x80 <= b[i + 2] && b[i + 2] <= 0x8a)
        || b[i + 2] == 0xa8 || b[i + 2] == 0xa9 || b[i + 2] == 0xaf) {
        3
    } else if n - i > 2 && c == 0xe2 && b[i + 1] == 0x81 && b[i + 2] == 0x9f {
        3
    } else if n - i > 2 && c == 0xe3 && b[i + 1] == 0x80 && b[i + 2] == 0x80 {
        3
    } else {
        0
    }
}

fn digits_end_exec(b: &[u8], i: usize) -> (j: usize)
    requires
        i <= b@.len(),
    ensures
        j == digits_end(b@, i as int),
        i <= j <= b@.len(),
{
    let mut j = i;
    while j < b.len() && 0x30 <= b[j] && b[j] <= 0x39
        invariant
            i <= j <= b@.len(),
            digits_end(b@, i as int) == digits_end(b@, j as int),
        decreases b@.len() - j,
    {
        j = j + 1;
    }
    j
}

fn word_end_exec(b: &[u8], i: usize) -> (j: usize)
    requires
        i <= b@.len(),
    ensures
        j == word_end(b@, i as int),
        i <= j <= b@.len(),
{
    let mut j = i;
    while j < b.len() && ((0x41 <= b[j] && b[j] <= 0x5a) || (0x61 <= b[j] && b[j] <= 0x7a) || b[j]
        == 0x5f || (0x30 <= b[j] && b[j] <= 0x39))
        invariant
            i <= j <= b@.len(),
            word_end(b@, i as int) == word_end(b@, j as int),
        decreases b@.len() - j,
    {
        j = j + 1;
    }
    j
}

fn number_end_exec(b: &[u8], i: usize) -> (j: usize)
    requires
        i <= b@.len(),
    ensures
        j == number_end(b@, i as int),
        i <= j <= b@.len(),
{
    let j = digits_end_exec(b, i);
    if b.len() - j > 1 && b[j] == 0x2e && 0x30 <= b[j + 1] && b[j + 1] <= 0x39 {
        digits_end_exec(b, j + 1)
    } else {
        j
    }
}

/// Whether `b[i..j]` holds exactly `w`.
fn word_is(b: &[u8], i: usize, j: usize, w: &[u8]) -> (r: bool)
    requires
        i <= j <= b@.len(),
    ensures
        r == (b@.subrange(i as int, j as int) == w@),
{
    if j - i != w.len() {
        return false;
    }
    let mut k: usize = 0;
    while k < w.len()
        invariant
            i <= j <= b@.len(),
            j - i == w@.len(),
            k <= w@.len(),
            forall|m: int| 0 <= m < k ==> b@[i + m] == w@[m],
        decreases w@.len() - k,
    {
        if b[i + k] != w[k] {
            assert(b@.subrange(i as int, j as int)[k as int] != w@[k as int]);
            return false;
        }
        k = k + 1;
    }
    assert(b@.subrange(i as int, j as int) =~= w@);
    true
}

fn word_kind_exec(b: &[u8], i: usize, j: usize) -> (k: TokenKind)
    requires
        i <= j <= b@.len(),
    ensures
        k == word_kind(b@.subrange(i as int, j as int)),
{
    let if_w: [u8; 2] = [0x69, 0x66];
    let else_w: [u8; 4] = [0x65, 0x6c, 0x73, 0x65];
    let let_w: [u8; 3] = [0x6c, 0x65, 0x74];
    let print_w: [u8; 5] = [0x70, 0x72, 0x69, 0x6e, 0x74];
    assert(if_w@ == seq![0x69u8, 0x66u8]);
    assert(else_w@ == seq![0x65u8, 0x6cu8, 0x73u8, 0x65u8]);
    assert(let_w@ == seq![0x6cu8, 0x65u8, 0x74u8]);
    assert(print_w@ == seq![0x70u8, 0x72u8, 0x69u8, 0x6eu8, 0x74u8]);
    if word_is(b, i, j, &if_w) {
        TokenKind::If
    } else if word_is(b, i, j, &else_w) {
        TokenKind::Else
    } else if word_is(b, i, j, &let_w) {
        TokenKind::Let
    } else if word_is(b, i, j, &print_w) {
        TokenKind::Print
    } else {
        TokenKind::Ident
    }
}

fn punct_kind_exec(c: u8) -> (k: Option<TokenKind>)
    ensures
        k == punct_kind(c),
{
    if c == 0x2b {
        Some(TokenKind::Plus)
    } else if c == 0x2d {
        Some(TokenKind::Minus)
    } else if c == 0x2a {
        Some(TokenKind::Star)
    } else if c == 0x2f {
        Some(TokenKind::Slash)
    } else if c == 0x28 {
        Some(TokenKind::LParen)
    } else if c == 0x29 {
        Some(TokenKind::RParen)
    } else if c == 0x7b {
        Some(TokenKind::LBrace)
    } else if c == 0x7d {
        Some(TokenKind::RBrace)
    } else if c == 0x3d {
        Some(TokenKind::Assign)
    } else if c == 0x3b {
        Some(TokenKind::Semi)
    } else {
        None
    }
}

/// Splits `src` into tokens (see the module documentation).
pub fn tokenize(src: &str) -> (toks: Vec<Token>)
    ensures
        toks@ == spec_tokens(src@),
{
    let b = src.as_bytes();
    let n = b.len();
    let mut toks: Vec<Token> = Vec::new();
    let mut i: usize = 0;
    assert(toks@ + lex_from(b@, 0) =~= lex_from(b@, 0));
    loop
        invariant_except_break
            n == b@.len(),
            b@ == encode_utf8(src@),
            i <= n,
            toks@ + lex_from(b@, i as int) == lex_from(b@, 0),
        ensures
            toks@ == spec_tokens(src@),
        decreases n - i,
    {
        if i >= n {
            toks.push(Token { kind: TokenKind::Eof, start: n, end: n });
            break;
        }
        let w = ws_len_exec(b, i);
        if w > 0 {
            i = i + w;
        } else if 0x30 <= b[i] && b[i] <= 0x39 {
            let j = number_end_exec(b, i);
            proof {
                lemma_digits_end_ge(b@, i + 1);
            }
            let ghost before = toks@;
            toks.push(Token { kind: TokenKind::Num, start: i, end: j });
            assert(toks@ + lex_from(b@, j as int) =~= before + lex_from(b@, i as int));
            i = j;
        } else if (0x41 <= b[i] && b[i] <= 0x5a) || (0x61 <= b[i] && b[i] <= 0x7a) || b[i] == 0x5f {
            let j = word_end_exec(b, i);
            proof {
                lemma_word_end_ge(b@, i + 1);
            }
            let kind = word_kind_exec(b, i, j);
            let ghost before = toks@;
            toks.push(Token { kind, start: i, end: j });
            assert(toks@ + lex_from(b@, j as int) =~= before + lex_from(b@, i as int));
            i = j;
        } else {
            match punct_kind_exec(b[i]) {
                Some(kind) => {
                    let ghost before = toks@;
                    toks.push(Token { kind, start: i, end: i + 1 });
                    assert(toks@ + lex_from(b@, i + 1) =~= before + lex_from(b@, i as int));
                    i = i + 1;
                },
                None => {
                    let ghost before = toks@;
                    toks.push(Token { kind: TokenKind::Invalid, start: i, end: i });
                    assert(toks@ =~= before + lex_from(b@, i as int));
                    break;
                },
            }
        }
    }
    toks
}


/// A token covers a range of the source, and a number or word covers ASCII bytes.
pub open spec fn token_wf(b: Seq<u8>, t: Token) -> bool {
    &&& t.start <= t.end <= b.len()
    &&& (t.kind == TokenKind::Num || t.kind == TokenKind::Ident) ==> all_ascii(
        b.subrange(t.start as int, t.end as int),
    )
}

/// A token list as the lexer produces it: well-formed tokens, ending with `Eof` or
/// `Invalid` and holding neither before that.
pub open spec fn tokens_wf(b: Seq<u8>, ts: Seq<Token>) -> bool {
    &&& ts.len() > 0
    &&& forall|k: int| 0 <= k < ts.len() ==> token_wf(b, #[trigger] ts[k])
    &&& (ts.last().kind == TokenKind::Eof || ts.last().kind == TokenKind::Invalid)
    &&& forall|k: int|
        0 <= k < ts.len() - 1 ==> (#[trigger] ts[k]).kind != TokenKind::Eof && ts[k].kind
            != TokenKind::Invalid
}

proof fn lemma_digits_ascii(b: Seq<u8>, i: int)
    requires
        0 <= i <= b.len(),
    ensures
        i <= digits_end(b, i) <= b.len(),
        forall|k: int| i <= k < digits_end(b, i) ==> is_digit(#[trigger] b[k]),
    decreases b.len() - i,
{
    if i < b.len() && is_digit(b[i]) {
        lemma_digits_ascii(b, i + 1);
    }
}

proof fn lemma_word_ascii(b: Seq<u8>, i: int)
    requires
        0 <= i <= b.len(),
    ensures
        i <= word_end(b, i) <= b.len(),
        forall|k: int| i <= k < word_end(b, i) ==> is_word_char(#[trigger] b[k]),
    decreases b.len() - i,
{
    if i < b.len() && is_word_char(b[i]) {
        lemma_word_ascii(b, i + 1);
    }
}

/// The lexer's output is a well-formed token list.
pub proof fn lemma_lex_wf(b: Seq<u8>, i: int)
    requires
        0 <= i <= b.len(),
        b.len() <= usize::MAX,
    ensures
        tokens_wf(b, lex_from(b, i)),
    decreases b.len() - i,
{
    let ts = lex_from(b, i);
    if i >= b.len() {
    } else if ws_len(b, i) > 0 {
        lemma_lex_wf(b, i + ws_len(b, i));
    } else {
        let (j, t) = if is_digit(b[i]) {
            let j0 = digits_end(b, i);
            lemma_digits_ascii(b, i);
            if 0 <= j0 && j0 + 1 < b.len() && b[j0] == 0x2e && is_digit(b[j0 + 1]) {
                lemma_digits_ascii(b, j0 + 1);
            }
            let j = number_end(b, i);
            assert forall|k: int| 0 <= k < j - i implies #[trigger] b.subrange(i, j)[k] < 0x80 by {
                assert(b.subrange(i, j)[k] == b[i + k]);
            }
            (j, Token { kind: TokenKind::Num, start: i as usize, end: j as usize })
        } else if is_word_start(b[i]) {
            lemma_word_ascii(b, i);
            let j = word_end(b, i);
            assert forall|k: int| 0 <= k < j - i implies #[trigger] b.subrange(i, j)[k] < 0x80 by {
                assert(b.subrange(i, j)[k] == b[i + k]);
            }
            (j, Token { kind: word_kind(b.subrange(i, j)), start: i as usize, end: j as usize })
        } else {
            (i + 1, Token { kind: TokenKind::Plus, start: i as usize, end: (i + 1) as usize })
        };
        if is_digit(b[i]) || is_word_start(b[i]) || punct_kind(b[i]) is Some {
            lemma_lex_wf(b, j);
            let rest = lex_from(b, j);
            assert(token_wf(b, ts[0]));
            assert forall|k: int| 0 <= k < ts.len() implies token_wf(b, #[trigger] ts[k]) by {
                if k > 0 {
                    assert(ts[k] == rest[k - 1]);
                }
            }
            assert forall|k: int| 0 <= k < ts.len() - 1 implies (#[trigger] ts[k]).kind
                != TokenKind::Eof && ts[k].kind != TokenKind::Invalid by {
                if k > 0 {
                    assert(ts[k] == rest[k - 1]);
                }
            }
        }
    }
}

} // verus!
