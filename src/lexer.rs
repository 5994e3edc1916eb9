use vstd::prelude::*;
use crate::ast::{get_type, get_operand, type_keyword, operand_of};
use crate::number::{Decimal, decimal_of, digit_run, is_digit};
use crate::text::{chars_of, push_char, str_eq};
use crate::token::{Token, TokenType, TokenPosition, token_ok, tokens_wf};

verus! {

pub open spec fn is_ident_start(c: char) -> bool {
    ('a' <= c && c <= 'z') || ('A' <= c && c <= 'Z') || c == '_'
}

pub open spec fn is_ident_char(c: char) -> bool {
    is_ident_start(c) || ('0' <= c && c <= '9')
}

pub open spec fn is_space(c: char) -> bool {
    c == ' ' || c == '\t' || c == '\r'
}

/// Two characters that make one token: `==`, `!=`, `<=`, `>=` or `..`.
pub open spec fn is_pair(a: char, b: char) -> bool {
    (b == '=' && (a == '=' || a == '!' || a == '<' || a == '>')) || (a == '.' && b == '.')
}

/// A token as plain values: kind, text, line and column.
pub open spec fn token_view(t: Token) -> (TokenType, Seq<char>, int, int) {
    (t.token_type, t.content@, t.position.line as int, t.position.col as int)
}

/// The end of the run of identifier characters that starts at `j`.
pub open spec fn ident_end(s: Seq<char>, j: int) -> int
    decreases s.len() - j,
{
    if 0 <= j < s.len() && is_ident_char(s[j]) {
        ident_end(s, j + 1)
    } else {
        j
    }
}

/// The position of the first `"` from `j` on, or the end of the text.
pub open spec fn string_end(s: Seq<char>, j: int) -> int
    decreases s.len() - j,
{
    if 0 <= j < s.len() && s[j] != '"' {
        string_end(s, j + 1)
    } else {
        j
    }
}

/// Whether the number at `i` has a fraction: a point followed by a digit.
pub open spec fn has_fraction(s: Seq<char>, i: int) -> bool {
    let k = digit_run(s, i);
    k + 1 < s.len() && s[k] == '.' && is_digit(s[k + 1])
}

/// The end of the number literal that starts at `i`.
pub open spec fn number_end(s: Seq<char>, i: int) -> int {
    if has_fraction(s, i) {
        digit_run(s, digit_run(s, i) + 1)
    } else {
        digit_run(s, i)
    }
}

/// The kind of a word: a boolean literal, a type keyword, a word operator,
/// or an identifier.
pub open spec fn word_kind_of(w: Seq<char>) -> TokenType {
    if w == "true"@ || w == "false"@ {
        TokenType::BoolLiteral
    } else if type_keyword(w) is Some {
        TokenType::Type
    } else if (w == "and"@ || w == "or"@) && operand_of(w) is Some {
        TokenType::Operator
    } else {
        TokenType::Identifier
    }
}

/// The kind of punctuation: an operator, except `!`; else a symbol.
pub open spec fn symbol_kind_of(w: Seq<char>) -> TokenType {
    if w == "!"@ || operand_of(w) is None {
        TokenType::Symbol
    } else {
        TokenType::Operator
    }
}

/// The length of the punctuation token at `i`.
pub open spec fn symbol_len(s: Seq<char>, i: int) -> int {
    if i + 1 < s.len() && is_pair(s[i], s[i + 1]) {
        2
    } else {
        1
    }
}

/// The tokens of `s` from position `i`, which is at line `line` and column
/// `col`, ending with the end-of-input marker.
pub open spec fn lex_from(s: Seq<char>, i: int, line: int, col: int) -> Seq<
    (TokenType, Seq<char>, int, int),
>
    decreases s.len() - i,
    via lex_from_decreases
{
    if i < 0 || i >= s.len() {
        seq![(TokenType::EOL, Seq::<char>::empty(), line, col)]
    } else {
        let c = s[i];
        if is_space(c) {
            lex_from(s, i + 1, line, col + 1)
        } else if c == '\n' {
            seq![(TokenType::Symbol, seq!['\n'], line, col)] + lex_from(s, i + 1, line + 1, 1)
        } else if is_ident_start(c) {
            let j = ident_end(s, i);
            seq![(word_kind_of(s.subrange(i, j)), s.subrange(i, j), line, col)] + lex_from(
                s,
                j,
                line,
                col + (j - i),
            )
        } else if is_digit(c) {
            let j = number_end(s, i);
            let w = s.subrange(i, j);
            let kind = if decimal_of(w) is None {
                TokenType::Symbol
            } else if has_fraction(s, i) {
                TokenType::FloatLiteral
            } else {
                TokenType::IntLiteral
            };
            seq![(kind, w, line, col)] + lex_from(s, j, line, col + (j - i))
        } else if c == '"' {
            let j = string_end(s, i + 1);
            let next = if j < s.len() {
                j + 1
            } else {
                j
            };
            seq![(TokenType::StringLiteral, s.subrange(i + 1, j), line, col)] + lex_from(
                s,
                next,
                line,
                col + (next - i),
            )
        } else {
            let k = symbol_len(s, i);
            let w = s.subrange(i, i + k);
            seq![(symbol_kind_of(w), w, line, col)] + lex_from(s, i + k, line, col + k)
        }
    }
}

proof fn lemma_ident_end_bound(s: Seq<char>, j: int)
    requires
        0 <= j <= s.len(),
    ensures
        j <= ident_end(s, j) <= s.len(),
    decreases s.len() - j,
{
    if j < s.len() && is_ident_char(s[j]) {
        lemma_ident_end_bound(s, j + 1);
    }
}

proof fn lemma_string_end_bound(s: Seq<char>, j: int)
    requires
        0 <= j <= s.len(),
    ensures
        j <= string_end(s, j) <= s.len(),
        string_end(s, j) < s.len() ==> s[string_end(s, j)] == '"',
    decreases s.len() - j,
{
    if j < s.len() && s[j] != '"' {
        lemma_string_end_bound(s, j + 1);
    }
}

proof fn lemma_digit_run_bound(s: Seq<char>, j: int)
    requires
        0 <= j <= s.len(),
    ensures
        j <= digit_run(s, j) <= s.len(),
    decreases s.len() - j,
{
    if j < s.len() && is_digit(s[j]) {
        lemma_digit_run_bound(s, j + 1);
    }
}

#[via_fn]
proof fn lex_from_decreases(s: Seq<char>, i: int, line: int, col: int) {
    lemma_scan_bounds(s, i);
}

/// The scans that start at `i` end within the text, after `i`.
proof fn lemma_scan_bounds(s: Seq<char>, i: int)
    ensures
        0 <= i < s.len() ==> i < ident_end(s, i + 1) + 1 <= s.len() + 1,
        0 <= i < s.len() && is_ident_start(s[i]) ==> i < ident_end(s, i) <= s.len(),
        0 <= i < s.len() && is_digit(s[i]) ==> i < number_end(s, i) <= s.len(),
        0 <= i < s.len() ==> i + 1 <= string_end(s, i + 1) <= s.len(),
        0 <= i < s.len() && string_end(s, i + 1) < s.len() ==> s[string_end(s, i + 1)] == '"',
{
    if 0 <= i < s.len() {
        lemma_ident_end_bound(s, i + 1);
        lemma_string_end_bound(s, i + 1);
        lemma_digit_run_bound(s, i + 1);
        let k = digit_run(s, i);
        if k + 1 <= s.len() {
            lemma_digit_run_bound(s, k + 1);
        }
    }
}

fn ident_start(c: char) -> (r: bool)
    ensures
        r == is_ident_start(c),
{
    ('a' <= c && c <= 'z') || ('A' <= c && c <= 'Z') || c == '_'
}

fn ident_char(c: char) -> (r: bool)
    ensures
        r == is_ident_char(c),
{
    ident_start(c) || ('0' <= c && c <= '9')
}

fn digit(c: char) -> (r: bool)
    ensures
        r == is_digit(c),
{
    '0' <= c && c <= '9'
}

/// The characters `s[from..to]` as a string.
fn text_of(s: &Vec<char>, from: usize, to: usize) -> (r: String)
    requires
        from <= to <= s@.len(),
    ensures
        r@ == s@.subrange(from as int, to as int),
{
    let mut r = String::new();
    let mut j: usize = from;
    while j < to
        invariant
            from <= j <= to <= s@.len(),
            r@ == s@.subrange(from as int, j as int),
        decreases to - j,
    {
        push_char(&mut r, s[j]);
        proof {
            assert(r@ =~= s@.subrange(from as int, j + 1));
        }
        j = j + 1;
    }
    r
}

fn word_kind(w: &String) -> (r: TokenType)
    ensures
        r == word_kind_of(w@),
{
    if str_eq(w.as_str(), "true") || str_eq(w.as_str(), "false") {
        TokenType::BoolLiteral
    } else if get_type(w.as_str()).is_some() {
        TokenType::Type
    } else if (str_eq(w.as_str(), "and") || str_eq(w.as_str(), "or")) && get_operand(
        w.as_str(),
    ).is_some() {
        TokenType::Operator
    } else {
        TokenType::Identifier
    }
}

fn pair(a: char, b: char) -> (r: bool)
    ensures
        r == is_pair(a, b),
{
    (b == '=' && (a == '=' || a == '!' || a == '<' || a == '>')) || (a == '.' && b == '.')
}

/// Every token that the lexer makes fits its kind.
proof fn lemma_lexed_ok(s: Seq<char>, i: int, line: int, col: int, k: int)
    requires
        0 <= k < lex_from(s, i, line, col).len(),
    ensures
        ({
            let (kind, text, _, _) = lex_from(s, i, line, col)[k];
            &&& (kind == TokenType::IntLiteral || kind == TokenType::FloatLiteral) ==> decimal_of(text) is Some
            &&& kind == TokenType::Type ==> type_keyword(text) is Some
            &&& kind == TokenType::Operator ==> operand_of(text) is Some
            &&& kind == TokenType::EOL <==> k == lex_from(s, i, line, col).len() - 1
            &&& kind == TokenType::EOL ==> text.len() == 0
        }),
    decreases s.len() - i,
{
    lemma_scan_bounds(s, i);
    if 0 <= i < s.len() {
        let c = s[i];
        if is_space(c) {
            lemma_lexed_ok(s, i + 1, line, col + 1, k);
        } else if k > 0 {
            let rest = if c == '\n' {
                lex_from(s, i + 1, line + 1, 1)
            } else if is_ident_start(c) {
                let j = ident_end(s, i);
                lex_from(s, j, line, col + (j - i))
            } else if is_digit(c) {
                let j = number_end(s, i);
                lex_from(s, j, line, col + (j - i))
            } else if c == '"' {
                let j = string_end(s, i + 1);
                let next = if j < s.len() {
                    j + 1
                } else {
                    j
                };
                lex_from(s, next, line, col + (next - i))
            } else {
                let n = symbol_len(s, i);
                lex_from(s, i + n, line, col + n)
            };
            assert(lex_from(s, i, line, col) == seq![lex_from(s, i, line, col)[0]] + rest);
            if c == '\n' {
                lemma_lexed_ok(s, i + 1, line + 1, 1, k - 1);
            } else if is_ident_start(c) {
                let j = ident_end(s, i);
                lemma_lexed_ok(s, j, line, col + (j - i), k - 1);
            } else if is_digit(c) {
                let j = number_end(s, i);
                lemma_lexed_ok(s, j, line, col + (j - i), k - 1);
            } else if c == '"' {
                let j = string_end(s, i + 1);
                let next = if j < s.len() {
                    j + 1
                } else {
                    j
                };
                lemma_lexed_ok(s, next, line, col + (next - i), k - 1);
            } else {
                let n = symbol_len(s, i);
                lemma_lexed_ok(s, i + n, line, col + n, k - 1);
            }
        } else {
            lemma_lexed_ok_first(s, i, line, col);
        }
    }
}

proof fn lemma_lex_nonempty(s: Seq<char>, i: int, line: int, col: int)
    ensures
        lex_from(s, i, line, col).len() >= 1,
    decreases s.len() - i,
{
    lemma_scan_bounds(s, i);
    if 0 <= i < s.len() && is_space(s[i]) {
        lemma_lex_nonempty(s, i + 1, line, col + 1);
    }
}

proof fn lemma_lexed_ok_first(s: Seq<char>, i: int, line: int, col: int)
    requires
        0 <= i < s.len(),
        !is_space(s[i]),
    ensures
        ({
            let (kind, text, _, _) = lex_from(s, i, line, col)[0];
            &&& (kind == TokenType::IntLiteral || kind == TokenType::FloatLiteral) ==> decimal_of(text) is Some
            &&& kind == TokenType::Type ==> type_keyword(text) is Some
            &&& kind == TokenType::Operator ==> operand_of(text) is Some
            &&& kind != TokenType::EOL
            &&& lex_from(s, i, line, col).len() > 1
        }),
{
    lemma_scan_bounds(s, i);
    let c = s[i];
    if c == '\n' {
        lemma_lex_nonempty(s, i + 1, line + 1, 1);
    } else if is_ident_start(c) {
        let j = ident_end(s, i);
        lemma_lex_nonempty(s, j, line, col + (j - i));
    } else if is_digit(c) {
        let j = number_end(s, i);
        lemma_lex_nonempty(s, j, line, col + (j - i));
    } else if c == '"' {
        let j = string_end(s, i + 1);
        let next = if j < s.len() {
            j + 1
        } else {
            j
        };
        lemma_lex_nonempty(s, next, line, col + (next - i));
    } else {
        let n = symbol_len(s, i);
        lemma_lex_nonempty(s, i + n, line, col + n);
    }
}

/// Splits source text into tokens, each with its line and column, ending
/// with an end-of-input marker. Blanks separate tokens; a newline is a
/// symbol token of its own. Characters that fit no other kind become symbol
/// tokens, so lexing never fails.
pub fn lexer(src: &str) -> (r: Vec<Token>)
    requires
        src@.len() < usize::MAX,
    ensures
        r@.map_values(|t: Token| token_view(t)) == lex_from(src@, 0, 1, 1),
        tokens_wf(r@),
        forall|i: int| 0 <= i < r@.len() - 1 ==> r@[i].token_type != TokenType::EOL,
{
    let s = chars_of(src);
    let n = s.len();
    let mut out: Vec<Token> = Vec::new();
    let mut i: usize = 0;
    let mut line: usize = 1;
    let mut col: usize = 1;
    while i < n
        invariant
            n == s@.len(),
            s@ == src@,
            n < usize::MAX,
            i <= n,
            1 <= line <= i + 1,
            1 <= col <= i + 1,
            out@.map_values(|t: Token| token_view(t)) + lex_from(s@, i as int, line as int, col as int)
                == lex_from(s@, 0, 1, 1),
        decreases n - i,
    {
        let c = s[i];
        let pos = TokenPosition::new(line, col);
        let ghost before = out@.map_values(|t: Token| token_view(t));
        let ghost rest = lex_from(s@, i as int, line as int, col as int);
        proof {
            lemma_scan_bounds(s@, i as int);
        }
        if c == ' ' || c == '\t' || c == '\r' {
            i = i + 1;
            col = col + 1;
        } else if c == '\n' {
            let mut t = String::new();
            push_char(&mut t, '\n');
            out.push(Token::new(TokenType::Symbol, t, pos));
            i = i + 1;
            line = line + 1;
            col = 1;
            proof {
                assert(out@.map_values(|t: Token| token_view(t)) =~= before.push(rest[0]));
                assert(t@ =~= seq!['\n']);
            }
        } else if ident_start(c) {
            let mut j: usize = i;
            while j < n && ident_char(s[j])
                invariant
                    i <= j <= n,
                    n == s@.len(),
                    ident_end(s@, i as int) == ident_end(s@, j as int),
                decreases n - j,
            {
                j = j + 1;
            }
            let w = text_of(&s, i, j);
            let kind = word_kind(&w);
            out.push(Token::new(kind, w, pos));
            proof {
                assert(out@.map_values(|t: Token| token_view(t)) =~= before.push(rest[0]));
            }
            col = col + (j - i);
            i = j;
        } else if digit(c) {
            let mut j: usize = i;
            while j < n && digit(s[j])
                invariant
                    i <= j <= n,
                    n == s@.len(),
                    digit_run(s@, i as int) == digit_run(s@, j as int),
                decreases n - j,
            {
                j = j + 1;
            }
            let mut kind = TokenType::IntLiteral;
            if j + 1 < n && s[j] == '.' && digit(s[j + 1]) {
                j = j + 1;
                while j < n && digit(s[j])
                    invariant
                        i <= j <= n,
                        n == s@.len(),
                        digit_run(s@, digit_run(s@, i as int) + 1) == digit_run(s@, j as int),
                    decreases n - j,
                {
                    j = j + 1;
                }
                kind = TokenType::FloatLiteral;
            }
            let w = text_of(&s, i, j);
            if Decimal::parse(w.as_str()).is_none() {
                kind = TokenType::Symbol;
            }
            out.push(Token::new(kind, w, pos));
            proof {
                assert(out@.map_values(|t: Token| token_view(t)) =~= before.push(rest[0]));
            }
            col = col + (j - i);
            i = j;
        } else if c == '"' {
            let mut j: usize = i + 1;
            while j < n && s[j] != '"'
                invariant
                    i < j <= n,
                    n == s@.len(),
                    string_end(s@, i + 1) == string_end(s@, j as int),
                decreases n - j,
            {
                j = j + 1;
            }
            let w = text_of(&s, i + 1, j);
            out.push(Token::new(TokenType::StringLiteral, w, pos));
            proof {
                assert(out@.map_values(|t: Token| token_view(t)) =~= before.push(rest[0]));
            }
            if j < n {
                j = j + 1;
            }
            col = col + (j - i);
            i = j;
        } else {
            let len: usize = if i + 1 < n && pair(c, s[i + 1]) {
                2
            } else {
                1
            };
            let w = text_of(&s, i, i + len);
            let kind = if str_eq(w.as_str(), "!") || get_operand(w.as_str()).is_none() {
                TokenType::Symbol
            } else {
                TokenType::Operator
            };
            out.push(Token::new(kind, w, pos));
            proof {
                assert(out@.map_values(|t: Token| token_view(t)) =~= before.push(rest[0]));
            }
            col = col + len;
            i = i + len;
        }
        proof {
            assert(before + rest =~= out@.map_values(|t: Token| token_view(t)) + lex_from(
                s@,
                i as int,
                line as int,
                col as int,
            ));
        }
    }
    let ghost before = out@.map_values(|t: Token| token_view(t));
    out.push(Token::new(TokenType::EOL, String::new(), TokenPosition::new(line, col)));
    proof {
        let all = out@.map_values(|t: Token| token_view(t));
        assert(all =~= lex_from(s@, 0, 1, 1));
        assert forall|k: int| 0 <= k < out@.len() implies #[trigger] token_ok(out@[k]) && (k < out@.len()
            - 1 ==> out@[k].token_type != TokenType::EOL) by {
            lemma_lexed_ok(s@, 0, 1, 1, k);
            assert(all[k] == token_view(out@[k]));
        }
        lemma_lexed_ok(s@, 0, 1, 1, out@.len() - 1);
        assert(all[out@.len() - 1] == token_view(out@[out@.len() - 1]));
        assert forall|k: int| 0 <= k < out@.len() - 1 implies out@[k].token_type != TokenType::EOL by {
            lemma_lexed_ok(s@, 0, 1, 1, k);
            assert(all[k] == token_view(out@[k]));
        }
    }
    out
}

} // verus!
