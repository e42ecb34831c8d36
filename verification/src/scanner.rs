use vstd::prelude::*;

use crate::scan_error::ScanError;
use crate::token::{Token, TokenModel};
use crate::token_type::{TokenType, keyword_spec, string_to_keyword};

verus! {

// The byte values the scanner dispatches on, by their ASCII codes: 123/125
// braces, 40/41 parentheses, 46 dot, 45 minus, 43 plus, 44 comma, 59
// semicolon, 42 star, 61/33/62/60 the comparison starters, 47 slash, 34 the
// double quote, 10 newline, 32/13/9 the other whitespace, 48..57 digits,
// 97..122 and 65..90 letters.

pub open spec fn is_digit(c: u8) -> bool {
    48 <= c && c <= 57
}

pub open spec fn is_alpha(c: u8) -> bool {
    (97 <= c && c <= 122) || (65 <= c && c <= 90)
}

pub open spec fn is_alnum(c: u8) -> bool {
    is_digit(c) || is_alpha(c)
}

/// The first position at or after `i` holding `target`, or the end.
pub open spec fn find_from(src: Seq<u8>, i: int, target: u8) -> int
    decreases src.len() - i,
{
    if i >= src.len() {
        src.len() as int
    } else if src[i] == target {
        i
    } else {
        find_from(src, i + 1, target)
    }
}

/// How many newline bytes `src` holds in the range `[i, j)`.
pub open spec fn count_newlines(src: Seq<u8>, i: int, j: int) -> int
    decreases j - i,
{
    if i >= j {
        0
    } else {
        count_newlines(src, i, j - 1) + if src[j - 1] == 10 {
            1int
        } else {
            0int
        }
    }
}

/// The end of the run of digits starting at `i`.
pub open spec fn digits_end(src: Seq<u8>, i: int) -> int
    decreases src.len() - i,
{
    if i >= src.len() || !is_digit(src[i]) {
        i
    } else {
        digits_end(src, i + 1)
    }
}

/// The end of a number lexeme starting at `i`: digits, then a fractional
/// part only when a dot is followed by another digit.
pub open spec fn number_end(src: Seq<u8>, i: int) -> int {
    let d = digits_end(src, i);
    if d < src.len() && src[d] == 46 && d + 1 < src.len() && is_digit(src[d + 1]) {
        digits_end(src, d + 1)
    } else {
        d
    }
}

/// The end of the run of letters and digits starting at `i`.
pub open spec fn ident_end(src: Seq<u8>, i: int) -> int
    decreases src.len() - i,
{
    if i >= src.len() || !is_alnum(src[i]) {
        i
    } else {
        ident_end(src, i + 1)
    }
}

/// The kind of a one- or two-character punctuation token starting with `c`.
pub open spec fn single_char_type(c: u8) -> Option<TokenType> {
    if c == 123 {
        Some(TokenType::LeftBrace)
    } else if c == 125 {
        Some(TokenType::RightBrace)
    } else if c == 40 {
        Some(TokenType::LeftParen)
    } else if c == 41 {
        Some(TokenType::RightParen)
    } else if c == 46 {
        Some(TokenType::Dot)
    } else if c == 45 {
        Some(TokenType::Minus)
    } else if c == 43 {
        Some(TokenType::Plus)
    } else if c == 44 {
        Some(TokenType::Comma)
    } else if c == 59 {
        Some(TokenType::Semicolon)
    } else if c == 42 {
        Some(TokenType::Star)
    } else {
        None
    }
}

/// The one-character and two-character forms of the comparison starters.
pub open spec fn pair_types(c: u8) -> Option<(TokenType, TokenType)> {
    if c == 61 {
        Some((TokenType::Equal, TokenType::EqualEqual))
    } else if c == 33 {
        Some((TokenType::Bang, TokenType::BangEqual))
    } else if c == 62 {
        Some((TokenType::Greater, TokenType::GreaterEqual))
    } else if c == 60 {
        Some((TokenType::Less, TokenType::LessEqual))
    } else {
        None
    }
}

pub open spec fn token_model(t: TokenType, lexeme: Seq<u8>, line: usize) -> TokenModel {
    TokenModel { token_type: t, lexeme, line }
}

/// Prefixes one token to the outcome of scanning the rest.
pub open spec fn prepend_token(t: TokenModel, r: Result<Seq<TokenModel>, ScanError>) -> Result<
    Seq<TokenModel>,
    ScanError,
> {
    match r {
        Ok(rest) => Ok(seq![t] + rest),
        Err(e) => Err(e),
    }
}

/// The tokens of `src` from position `i` on, with `line` as the current
/// source line; ends with an Eof token carrying the final line. One- and
/// two-character punctuation, `//` comments running to the line's end,
/// double-quoted strings (a string without a closing quote is silently
/// dropped with the rest of the input), numbers with an optional fraction,
/// identifiers and keywords; newlines count lines; any other byte is a
/// fault.
pub open spec fn scan_from(src: Seq<u8>, i: int, line: usize) -> Result<Seq<TokenModel>, ScanError>
    decreases src.len() - i
        via scan_from_decreases
{
    if i >= src.len() {
        Ok(seq![token_model(TokenType::Eof, Seq::empty(), line)])
    } else {
        let c = src[i];
        if single_char_type(c) is Some {
            prepend_token(
                token_model(single_char_type(c).unwrap(), src.subrange(i, i + 1), line),
                scan_from(src, i + 1, line),
            )
        } else if pair_types(c) is Some {
            let (one, two) = pair_types(c).unwrap();
            if i + 1 < src.len() && src[i + 1] == 61 {
                prepend_token(
                    token_model(two, src.subrange(i, i + 2), line),
                    scan_from(src, i + 2, line),
                )
            } else {
                prepend_token(
                    token_model(one, src.subrange(i, i + 1), line),
                    scan_from(src, i + 1, line),
                )
            }
        } else if c == 47 {
            if i + 1 < src.len() && src[i + 1] == 47 {
                scan_from(src, find_from(src, i + 1, 10), line)
            } else {
                prepend_token(
                    token_model(TokenType::Slash, src.subrange(i, i + 1), line),
                    scan_from(src, i + 1, line),
                )
            }
        } else if c == 34 {
            let close = find_from(src, i + 1, 34);
            if close >= src.len() {
                scan_from(src, src.len() as int, (line + count_newlines(
                    src,
                    i + 1,
                    src.len() as int,
                )) as usize)
            } else {
                let new_line = (line + count_newlines(src, i + 1, close)) as usize;
                prepend_token(
                    token_model(TokenType::String, src.subrange(i, close + 1), new_line),
                    scan_from(src, close + 1, new_line),
                )
            }
        } else if is_digit(c) {
            let e = number_end(src, i);
            prepend_token(
                token_model(TokenType::Number, src.subrange(i, e), line),
                scan_from(src, e, line),
            )
        } else if is_alpha(c) {
            let e = ident_end(src, i);
            let lexeme = src.subrange(i, e);
            let t = match keyword_spec(lexeme) {
                Some(k) => k,
                None => TokenType::Identifier,
            };
            prepend_token(token_model(t, lexeme, line), scan_from(src, e, line))
        } else if c == 10 {
            scan_from(src, i + 1, (line + 1) as usize)
        } else if c == 32 || c == 13 || c == 9 {
            scan_from(src, i + 1, line)
        } else {
            Err(ScanError::UnexpectedChar(c, line))
        }
    }
}

#[via_fn]
proof fn scan_from_decreases(src: Seq<u8>, i: int, line: usize) {
    if i < src.len() {
        lemma_find_from_bounds(src, i + 1, 10);
        lemma_find_from_bounds(src, i + 1, 34);
        lemma_digits_end_bounds(src, i + 1);
        if is_digit(src[i]) {
            assert(digits_end(src, i) == digits_end(src, i + 1));
        }
        let d = digits_end(src, i);
        if i <= d && d < src.len() {
            lemma_digits_end_bounds(src, d + 1);
        }
        if is_alnum(src[i]) {
            assert(ident_end(src, i) == ident_end(src, i + 1));
        }
        lemma_ident_end_bounds(src, i + 1);
    }
}

/// Appending one byte to a range adds one to its newline count exactly
/// when that byte is a newline.
proof fn lemma_count_newlines_step(src: Seq<u8>, a: int, j: int)
    requires
        a <= j,
    ensures
        count_newlines(src, a, j + 1) == count_newlines(src, a, j) + if src[j] == 10 {
            1int
        } else {
            0int
        },
{
}

/// `find_from` lands between its start and the end of the text.
proof fn lemma_find_from_bounds(src: Seq<u8>, a: int, target: u8)
    requires
        a <= src.len(),
    ensures
        a <= find_from(src, a, target) <= src.len(),
    decreases src.len() - a,
{
    if a < src.len() && src[a] != target {
        lemma_find_from_bounds(src, a + 1, target);
    }
}

/// `digits_end` lands between its start and the end of the text.
proof fn lemma_digits_end_bounds(src: Seq<u8>, a: int)
    requires
        a <= src.len(),
    ensures
        a <= digits_end(src, a) <= src.len(),
    decreases src.len() - a,
{
    if a < src.len() && is_digit(src[a]) {
        lemma_digits_end_bounds(src, a + 1);
    }
}

/// `ident_end` lands between its start and the end of the text.
proof fn lemma_ident_end_bounds(src: Seq<u8>, a: int)
    requires
        a <= src.len(),
    ensures
        a <= ident_end(src, a) <= src.len(),
    decreases src.len() - a,
{
    if a < src.len() && is_alnum(src[a]) {
        lemma_ident_end_bounds(src, a + 1);
    }
}

/// A well-formed scan: at least the Eof token, Eof last and nowhere else.
pub open spec fn token_models_wf(ts: Seq<TokenModel>) -> bool {
    &&& ts.len() > 0
    &&& ts.last().token_type == TokenType::Eof
    &&& forall|k: int|
        0 <= k < ts.len() - 1 ==> (#[trigger] ts[k]).token_type != TokenType::Eof
}

/// Whatever the scanner accepts is well formed: one Eof token closes the
/// stream and none stands inside it.
pub proof fn lemma_scan_from_wf(src: Seq<u8>, i: int, line: usize)
    ensures
        scan_from(src, i, line) matches Ok(ts) ==> token_models_wf(ts),
    decreases src.len() - i,
{
    if i >= src.len() {
    } else {
        let c = src[i];
        lemma_find_from_bounds(src, i + 1, 10);
        lemma_find_from_bounds(src, i + 1, 34);
        lemma_digits_end_bounds(src, i + 1);
        if is_digit(c) {
            assert(digits_end(src, i) == digits_end(src, i + 1));
        }
        let d = digits_end(src, i);
        if i <= d && d < src.len() {
            lemma_digits_end_bounds(src, d + 1);
        }
        if is_alnum(c) {
            assert(ident_end(src, i) == ident_end(src, i + 1));
        }
        lemma_ident_end_bounds(src, i + 1);
        if single_char_type(c) is Some {
            lemma_scan_from_wf(src, i + 1, line);
            lemma_prepend_wf(
                token_model(single_char_type(c).unwrap(), src.subrange(i, i + 1), line),
                scan_from(src, i + 1, line),
            );
        } else if pair_types(c) is Some {
            let (one, two) = pair_types(c).unwrap();
            if i + 1 < src.len() && src[i + 1] == 61 {
                lemma_scan_from_wf(src, i + 2, line);
                lemma_prepend_wf(
                    token_model(two, src.subrange(i, i + 2), line),
                    scan_from(src, i + 2, line),
                );
            } else {
                lemma_scan_from_wf(src, i + 1, line);
                lemma_prepend_wf(
                    token_model(one, src.subrange(i, i + 1), line),
                    scan_from(src, i + 1, line),
                );
            }
        } else if c == 47 {
            if i + 1 < src.len() && src[i + 1] == 47 {
                lemma_scan_from_wf(src, find_from(src, i + 1, 10), line);
            } else {
                lemma_scan_from_wf(src, i + 1, line);
                lemma_prepend_wf(
                    token_model(TokenType::Slash, src.subrange(i, i + 1), line),
                    scan_from(src, i + 1, line),
                );
            }
        } else if c == 34 {
            let close = find_from(src, i + 1, 34);
            if close >= src.len() {
                lemma_scan_from_wf(
                    src,
                    src.len() as int,
                    (line + count_newlines(src, i + 1, src.len() as int)) as usize,
                );
            } else {
                let new_line = (line + count_newlines(src, i + 1, close)) as usize;
                lemma_scan_from_wf(src, close + 1, new_line);
                lemma_prepend_wf(
                    token_model(TokenType::String, src.subrange(i, close + 1), new_line),
                    scan_from(src, close + 1, new_line),
                );
            }
        } else if is_digit(c) {
            let e = number_end(src, i);
            lemma_scan_from_wf(src, e, line);
            lemma_prepend_wf(
                token_model(TokenType::Number, src.subrange(i, e), line),
                scan_from(src, e, line),
            );
        } else if is_alpha(c) {
            let e = ident_end(src, i);
            let lexeme = src.subrange(i, e);
            let t = match keyword_spec(lexeme) {
                Some(k) => k,
                None => TokenType::Identifier,
            };
            lemma_scan_from_wf(src, e, line);
            lemma_prepend_wf(token_model(t, lexeme, line), scan_from(src, e, line));
        } else if c == 10 {
            lemma_scan_from_wf(src, i + 1, (line + 1) as usize);
        } else if c == 32 || c == 13 || c == 9 {
            lemma_scan_from_wf(src, i + 1, line);
        }
    }
}

proof fn lemma_prepend_wf(t: TokenModel, r: Result<Seq<TokenModel>, ScanError>)
    requires
        t.token_type != TokenType::Eof,
        r matches Ok(ts) ==> token_models_wf(ts),
    ensures
        prepend_token(t, r) matches Ok(ts) ==> token_models_wf(ts),
{
    match r {
        Ok(rest) => {
            let ts = seq![t] + rest;
            assert(ts.last() == rest.last());
            assert forall|k: int|
                0 <= k < ts.len() - 1 implies (#[trigger] ts[k]).token_type != TokenType::Eof by {
                if k > 0 {
                    assert(ts[k] == rest[k - 1]);
                    assert(rest[k - 1].token_type != TokenType::Eof);
                }
            }
        },
        Err(_) => {},
    }
}

/// The token models of a token sequence.
pub open spec fn tokens_view(ts: Seq<Token>) -> Seq<TokenModel> {
    ts.map_values(|t: Token| t@)
}

/// Prefixes already-produced tokens to the outcome of scanning the rest.
pub open spec fn prepend_all(ts: Seq<TokenModel>, r: Result<Seq<TokenModel>, ScanError>) -> Result<
    Seq<TokenModel>,
    ScanError,
> {
    match r {
        Ok(rest) => Ok(ts + rest),
        Err(e) => Err(e),
    }
}

proof fn lemma_tokens_view_push(ts: Seq<Token>, t: Token)
    ensures
        tokens_view(ts.push(t)) == tokens_view(ts).push(t@),
{
    assert(tokens_view(ts.push(t)) =~= tokens_view(ts).push(t@));
}

proof fn lemma_prepend_step(ts: Seq<TokenModel>, t: TokenModel, r: Result<Seq<TokenModel>, ScanError>)
    ensures
        prepend_all(ts, prepend_token(t, r)) == prepend_all(ts.push(t), r),
{
    match r {
        Ok(rest) => {
            assert(ts + (seq![t] + rest) =~= ts.push(t) + rest);
        },
        Err(_) => {},
    }
}

proof fn lemma_find_from_range(src: Seq<u8>, a: int, b: int, target: u8)
    requires
        0 <= a <= b <= src.len(),
        forall|k: int| a <= k < b ==> src[k] != target,
        b == src.len() || src[b] == target,
    ensures
        find_from(src, a, target) == b,
    decreases b - a,
{
    if a < b {
        lemma_find_from_range(src, a + 1, b, target);
    }
}

proof fn lemma_digits_end_range(src: Seq<u8>, a: int, b: int)
    requires
        0 <= a <= b <= src.len(),
        forall|k: int| a <= k < b ==> is_digit(src[k]),
        b == src.len() || !is_digit(src[b]),
    ensures
        digits_end(src, a) == b,
    decreases b - a,
{
    if a < b {
        lemma_digits_end_range(src, a + 1, b);
    }
}

proof fn lemma_ident_end_range(src: Seq<u8>, a: int, b: int)
    requires
        0 <= a <= b <= src.len(),
        forall|k: int| a <= k < b ==> is_alnum(src[k]),
        b == src.len() || !is_alnum(src[b]),
    ensures
        ident_end(src, a) == b,
    decreases b - a,
{
    if a < b {
        lemma_ident_end_range(src, a + 1, b);
    }
}

/// The bytes of `src[a..b)`, copied out.
pub(crate) fn slice_to_vec(src: &[u8], a: usize, b: usize) -> (r: Vec<u8>)
    requires
        a <= b <= src@.len(),
    ensures
        r@ == src@.subrange(a as int, b as int),
{
    let mut r: Vec<u8> = Vec::new();
    let mut k: usize = a;
    proof {
        assert(src@.subrange(a as int, a as int) =~= Seq::<u8>::empty());
    }
    while k < b
        invariant
            a <= k <= b <= src@.len(),
            r@ == src@.subrange(a as int, k as int),
        decreases b - k,
    {
        r.push(src[k]);
        proof {
            assert(src@.subrange(a as int, k + 1) =~= src@.subrange(a as int, k as int).push(
                src@[k as int],
            ));
        }
        k = k + 1;
    }
    r
}

fn is_digit_byte(c: u8) -> (r: bool)
    ensures
        r == is_digit(c),
{
    48 <= c && c <= 57
}

fn is_alpha_byte(c: u8) -> (r: bool)
    ensures
        r == is_alpha(c),
{
    (97 <= c && c <= 122) || (65 <= c && c <= 90)
}

fn is_alnum_byte(c: u8) -> (r: bool)
    ensures
        r == is_alnum(c),
{
    is_digit_byte(c) || is_alpha_byte(c)
}

/// Scans a source text into its tokens, ending with an Eof token, or stops
/// at the first byte no token can start with; its outcome is exactly what
/// `scan_from` assigns to the text.
pub fn scan(src: &[u8]) -> (r: Result<Vec<Token>, ScanError>)
    requires
        src@.len() < usize::MAX,
    ensures
        (match scan_from(src@, 0, 1) {
            Ok(ts) => r matches Ok(v) && tokens_view(v@) == ts,
            Err(e) => r == Err::<Vec<Token>, ScanError>(e),
        }),
{
    let n = src.len();
    let mut tokens: Vec<Token> = Vec::new();
    let mut i: usize = 0;
    let mut line: usize = 1;
    while i < n
        invariant
            n == src@.len(),
            n < usize::MAX,
            0 <= i <= n,
            1 <= line,
            line <= 1 + i,
            prepend_all(tokens_view(tokens@), scan_from(src@, i as int, line)) == scan_from(
                src@,
                0,
                1,
            ),
        decreases n - i,
    {
        let ghost i0 = i as int;
        let ghost line0 = line;
        let ghost ts0 = tokens_view(tokens@);
        let c = src[i];
        if c == 123 || c == 125 || c == 40 || c == 41 || c == 46 || c == 45 || c == 43
            || c == 44 || c == 59 || c == 42 {
            let t = match single_char_type_byte(c) {
                Some(t) => t,
                None => {
                    proof {
                        assert(false);
                    }
                    TokenType::Eof
                },
            };
            let lexeme = slice_to_vec(src, i, i + 1);
            let token = Token::new(t, lexeme, line);
            proof {
                lemma_tokens_view_push(tokens@, token);
                lemma_prepend_step(
                    ts0,
                    token_model(t, src@.subrange(i0, i0 + 1), line),
                    scan_from(src@, i0 + 1, line),
                );
            }
            tokens.push(token);
            i = i + 1;
        } else if c == 61 || c == 33 || c == 62 || c == 60 {
            let (one, two) = match pair_types_byte(c) {
                Some(p) => p,
                None => {
                    proof {
                        assert(false);
                    }
                    (TokenType::Eof, TokenType::Eof)
                },
            };
            if i + 1 < n && src[i + 1] == 61 {
                let lexeme = slice_to_vec(src, i, i + 2);
                let token = Token::new(two, lexeme, line);
                proof {
                    lemma_tokens_view_push(tokens@, token);
                    lemma_prepend_step(
                        ts0,
                        token_model(two, src@.subrange(i0, i0 + 2), line),
                        scan_from(src@, i0 + 2, line),
                    );
                }
                tokens.push(token);
                i = i + 2;
            } else {
                let lexeme = slice_to_vec(src, i, i + 1);
                let token = Token::new(one, lexeme, line);
                proof {
                    lemma_tokens_view_push(tokens@, token);
                    lemma_prepend_step(
                        ts0,
                        token_model(one, src@.subrange(i0, i0 + 1), line),
                        scan_from(src@, i0 + 1, line),
                    );
                }
                tokens.push(token);
                i = i + 1;
            }
        } else if c == 47 {
            if i + 1 < n && src[i + 1] == 47 {
                let mut j: usize = i + 1;
                while j < n && src[j] != 10
                    invariant
                        n == src@.len(),
                        i + 1 <= j <= n,
                        forall|k: int| i0 + 1 <= k < j ==> src@[k] != 10,
                    decreases n - j,
                {
                    j = j + 1;
                }
                proof {
                    lemma_find_from_range(src@, i0 + 1, j as int, 10);
                }
                i = j;
            } else {
                let lexeme = slice_to_vec(src, i, i + 1);
                let token = Token::new(TokenType::Slash, lexeme, line);
                proof {
                    lemma_tokens_view_push(tokens@, token);
                    lemma_prepend_step(
                        ts0,
                        token_model(TokenType::Slash, src@.subrange(i0, i0 + 1), line),
                        scan_from(src@, i0 + 1, line),
                    );
                }
                tokens.push(token);
                i = i + 1;
            }
        } else if c == 34 {
            let mut j: usize = i + 1;
            let mut nl: usize = 0;
            while j < n && src[j] != 34
                invariant
                    n == src@.len(),
                    i0 == i as int,
                    i + 1 <= j <= n,
                    forall|k: int| i0 + 1 <= k < j ==> src@[k] != 34,
                    nl == count_newlines(src@, i0 + 1, j as int),
                    nl <= j - (i + 1),
                decreases n - j,
            {
                proof {
                    lemma_count_newlines_step(src@, i0 + 1, j as int);
                }
                if src[j] == 10 {
                    nl = nl + 1;
                }
                j = j + 1;
            }
            proof {
                lemma_find_from_range(src@, i0 + 1, j as int, 34);
            }
            if j >= n {
                line = line + nl;
                i = n;
            } else {
                let new_line = line + nl;
                let lexeme = slice_to_vec(src, i, j + 1);
                let token = Token::new(TokenType::String, lexeme, new_line);
                proof {
                    lemma_tokens_view_push(tokens@, token);
                    lemma_prepend_step(
                        ts0,
                        token_model(TokenType::String, src@.subrange(i0, j + 1), new_line),
                        scan_from(src@, j + 1, new_line),
                    );
                }
                tokens.push(token);
                line = new_line;
                i = j + 1;
            }
        } else if is_digit_byte(c) {
            let mut j: usize = i;
            while j < n && is_digit_byte(src[j])
                invariant
                    n == src@.len(),
                    i <= j <= n,
                    forall|k: int| i0 <= k < j ==> is_digit(src@[k]),
                decreases n - j,
            {
                j = j + 1;
            }
            proof {
                lemma_digits_end_range(src@, i0, j as int);
            }
            let e: usize = if j < n && src[j] == 46 && j + 1 < n && is_digit_byte(src[j + 1]) {
                let mut k: usize = j + 1;
                while k < n && is_digit_byte(src[k])
                    invariant
                        n == src@.len(),
                        j + 1 <= k <= n,
                        forall|q: int| j + 1 <= q < k ==> is_digit(src@[q]),
                    decreases n - k,
                {
                    k = k + 1;
                }
                proof {
                    lemma_digits_end_range(src@, j as int + 1, k as int);
                }
                k
            } else {
                j
            };
            proof {
                assert(e == number_end(src@, i0));
            }
            let lexeme = slice_to_vec(src, i, e);
            let token = Token::new(TokenType::Number, lexeme, line);
            proof {
                lemma_tokens_view_push(tokens@, token);
                lemma_prepend_step(
                    ts0,
                    token_model(TokenType::Number, src@.subrange(i0, e as int), line),
                    scan_from(src@, e as int, line),
                );
            }
            tokens.push(token);
            i = e;
        } else if is_alpha_byte(c) {
            let mut j: usize = i;
            while j < n && is_alnum_byte(src[j])
                invariant
                    n == src@.len(),
                    i <= j <= n,
                    forall|k: int| i0 <= k < j ==> is_alnum(src@[k]),
                decreases n - j,
            {
                j = j + 1;
            }
            proof {
                lemma_ident_end_range(src@, i0, j as int);
            }
            let lexeme = slice_to_vec(src, i, j);
            let t = match string_to_keyword(lexeme.as_slice()) {
                Some(k) => k,
                None => TokenType::Identifier,
            };
            let token = Token::new(t, lexeme, line);
            proof {
                lemma_tokens_view_push(tokens@, token);
                lemma_prepend_step(
                    ts0,
                    token_model(t, src@.subrange(i0, j as int), line),
                    scan_from(src@, j as int, line),
                );
            }
            tokens.push(token);
            i = j;
        } else if c == 10 {
            line = line + 1;
            i = i + 1;
        } else if c == 32 || c == 13 || c == 9 {
            i = i + 1;
        } else {
            return Err(ScanError::UnexpectedChar(c, line));
        }
    }
    let token = Token::new(TokenType::Eof, Vec::new(), line);
    proof {
        lemma_tokens_view_push(tokens@, token);
        assert(tokens_view(tokens@).push(token@) + Seq::<TokenModel>::empty() =~= tokens_view(
            tokens@,
        ).push(token@));
        assert(tokens_view(tokens@) + seq![token_model(TokenType::Eof, Seq::empty(), line)]
            =~= tokens_view(tokens@).push(token@));
    }
    tokens.push(token);
    Ok(tokens)
}

fn single_char_type_byte(c: u8) -> (r: Option<TokenType>)
    ensures
        r == single_char_type(c),
{
    if c == 123 {
        Some(TokenType::LeftBrace)
    } else if c == 125 {
        Some(TokenType::RightBrace)
    } else if c == 40 {
        Some(TokenType::LeftParen)
    } else if c == 41 {
        Some(TokenType::RightParen)
    } else if c == 46 {
        Some(TokenType::Dot)
    } else if c == 45 {
        Some(TokenType::Minus)
    } else if c == 43 {
        Some(TokenType::Plus)
    } else if c == 44 {
        Some(TokenType::Comma)
    } else if c == 59 {
        Some(TokenType::Semicolon)
    } else if c == 42 {
        Some(TokenType::Star)
    } else {
        None
    }
}

fn pair_types_byte(c: u8) -> (r: Option<(TokenType, TokenType)>)
    ensures
        r == pair_types(c),
{
    if c == 61 {
        Some((TokenType::Equal, TokenType::EqualEqual))
    } else if c == 33 {
        Some((TokenType::Bang, TokenType::BangEqual))
    } else if c == 62 {
        Some((TokenType::Greater, TokenType::GreaterEqual))
    } else if c == 60 {
        Some((TokenType::Less, TokenType::LessEqual))
    } else {
        None
    }
}

} // verus!
