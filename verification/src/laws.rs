//! Properties of the lexer and the parser that hold for every input.

use vstd::prelude::*;
use crate::lexical::{
    char_at_is, char_literal, digits_value, escape_at, escaped_char, is_ascii_digit, is_blank,
    is_line_break, lemma_number_end_bounds, lemma_scan_token_advances,
    lemma_skip_whitespace_bounds, lemma_word_end_bounds, lex, lex_rest,
    nothing_lexed, number_end, record, scan_token, skip_whitespace, starts_word, string_rest,
    word_end, word_token, Lexed, SpecLexError, Step,
};
use crate::syntax::{
    check, expect, identifier_name, items_rest, lemma_expression_advances, lemma_item_advances,
    no_items, parameter_list, parse_block, parse_call_args, parse_expression, parse_function, parse_item, parse_parameters,
    parse_primary, parse_statement, argument_list, Expected, Halt, Parsed, ParsedItems,
};
use crate::nodes::{Parameter, SpecExpression, SpecItem, SpecStatement, Type};
use crate::token::{SpecToken, SpecTokenType, Token, TokenType};

verus! {

/// What a token of the lexer's output satisfies on its own: an identifier
/// is a nonempty word that starts like one and is not a keyword; an integer
/// literal is not negative; its line is at least 1.
pub open spec fn well_formed_token(t: SpecToken) -> bool {
    &&& t.line >= 1
    &&& t.token_type matches SpecTokenType::Identifier(w) ==> {
        &&& w.len() >= 1
        &&& starts_word(w[0])
        &&& word_token(w) == SpecTokenType::Identifier(w)
    }
    &&& t.token_type matches SpecTokenType::Plain(TokenType::Int64Literal(n)) ==> n >= 0
}

/// The tokens are well formed and their lines never decrease, up to `line`.
pub open spec fn tokens_in_order(tokens: Seq<SpecToken>, line: int) -> bool {
    &&& forall|i: int| 0 <= i < tokens.len() ==> #[trigger] well_formed_token(tokens[i])
    &&& forall|i: int, j: int| 0 <= i <= j < tokens.len() ==> tokens[i].line <= tokens[j].line
    &&& forall|i: int| 0 <= i < tokens.len() ==> #[trigger] tokens[i].line <= line
}

/// How many results lexing has collected.
pub open spec fn lexed_count(l: Lexed) -> int {
    (l.tokens.len() + l.errors.len() + l.notices.len()) as int
}

proof fn lemma_digits_value_nonnegative(s: Seq<char>)
    requires
        forall|k: int| 0 <= k < s.len() ==> is_ascii_digit(#[trigger] s[k]),
    ensures
        digits_value(s) >= 0,
    decreases s.len(),
{
    if s.len() > 0 {
        lemma_digits_value_nonnegative(s.drop_last());
    }
}

proof fn lemma_number_end_keeps_dot(src: Seq<char>, i: int)
    ensures
        number_end(src, i, true).1,
    decreases src.len() - i,
{
    if 0 <= i < src.len() && is_ascii_digit(src[i]) {
        lemma_number_end_keeps_dot(src, i + 1);
    }
}

proof fn lemma_number_digits(src: Seq<char>, i: int)
    requires
        0 <= i <= src.len(),
        !number_end(src, i, false).1,
    ensures
        forall|k: int| i <= k < number_end(src, i, false).0 ==> is_ascii_digit(#[trigger] src[k]),
    decreases src.len() - i,
{
    crate::lexical::lemma_number_end_bounds(src, i, false);
    lemma_number_end_keeps_dot(src, i + 1);
    if i < src.len() && is_ascii_digit(src[i]) {
        lemma_number_digits(src, i + 1);
        assert(number_end(src, i, false) == number_end(src, i + 1, false));
        assert forall|k: int| i <= k < number_end(src, i, false).0 implies is_ascii_digit(#[trigger] src[k]) by {
            if k > i {
                assert(i + 1 <= k < number_end(src, i + 1, false).0);
            }
        }
    }
}

/// A token that one step of the lexer emits is well formed.
proof fn lemma_step_token_well_formed(src: Seq<char>, p: int, line: int)
    requires
        0 <= p < src.len(),
        line >= 1,
    ensures
        scan_token(src, p, line).0 matches Step::Emit(t) ==> well_formed_token(
            SpecToken { token_type: t, line },
        ),
{
    let c = src[p];
    if is_ascii_digit(c) {
        let (e, is_float) = number_end(src, p + 1, false);
        if !is_float {
            crate::lexical::lemma_number_end_bounds(src, p + 1, false);
            lemma_number_digits(src, p + 1);
            let text = src.subrange(p, e);
            assert forall|k: int| 0 <= k < text.len() implies is_ascii_digit(#[trigger] text[k]) by {
                if k > 0 {
                    assert(text[k] == src[p + k]);
                }
            }
            lemma_digits_value_nonnegative(text);
        }
    } else if starts_word(c) {
        crate::lexical::lemma_word_end_bounds(src, p + 1);
        let w = src.subrange(p, word_end(src, p + 1));
        assert(w[0] == c);
        if word_token(w) is Identifier {
            assert(word_token(w) == SpecTokenType::Identifier(w));
        }
    }
}

/// Lexing from any position and line counter (at most `u32::MAX`), after
/// well-formed tokens in order up to that line, yields well-formed tokens
/// in order; and at most one token, error or notice more per character
/// left.
pub proof fn lemma_lex_rest_in_order(src: Seq<char>, pos: int, line: int, acc: Lexed)
    requires
        0 <= pos,
        1 <= line <= u32::MAX,
        tokens_in_order(acc.tokens, line),
    ensures
        lex_rest(src, pos, line, acc) matches Some(r) ==> {
            &&& tokens_in_order(r.tokens, u32::MAX as int)
            &&& lexed_count(r) <= lexed_count(acc) + if pos <= src.len() { src.len() - pos } else { 0 }
        },
    decreases src.len() - pos,
{
    if 0 <= pos < src.len() {
        lemma_skip_whitespace_bounds(src, pos, line);
        let (p, l) = skip_whitespace(src, pos, line);
        if l <= u32::MAX && p < src.len() {
            let (step, e) = scan_token(src, p, l);
            lemma_scan_token_advances(src, p, l);
            lemma_step_token_well_formed(src, p, l);
            let next = record(acc, step, l);
            assert(tokens_in_order(next.tokens, l)) by {
                if step is Emit {
                    assert forall|i: int| 0 <= i < next.tokens.len() implies #[trigger] well_formed_token(
                        next.tokens[i],
                    ) by {
                        if i < acc.tokens.len() {
                            assert(next.tokens[i] == acc.tokens[i]);
                        }
                    }
                    assert forall|i: int, j: int| 0 <= i <= j < next.tokens.len() implies next.tokens[i].line
                        <= next.tokens[j].line by {
                        if j < acc.tokens.len() {
                            assert(next.tokens[i] == acc.tokens[i]);
                            assert(next.tokens[j] == acc.tokens[j]);
                        } else if i < acc.tokens.len() {
                            assert(next.tokens[i] == acc.tokens[i]);
                        }
                    }
                    assert forall|i: int| 0 <= i < next.tokens.len() implies #[trigger] next.tokens[i].line
                        <= l by {
                        if i < acc.tokens.len() {
                            assert(next.tokens[i] == acc.tokens[i]);
                        }
                    }
                }
            }
            lemma_lex_rest_in_order(src, e, l, next);
        }
    } else {
        assert forall|i: int| 0 <= i < acc.tokens.len() implies #[trigger] acc.tokens[i].line <= u32::MAX by {
            assert(acc.tokens[i].line <= line);
        }
    }
}

/// Lexing a source yields well-formed tokens (see `well_formed_token`) whose
/// lines never decrease; and at most one token, error or notice per
/// character of the source.
pub proof fn lemma_lexed_tokens_in_order(src: Seq<char>)
    requires
        lex(src) is Some,
    ensures
        tokens_in_order(lex(src)->0.tokens, u32::MAX as int),
        lexed_count(lex(src)->0) <= src.len(),
{
    lemma_lex_rest_in_order(src, 0, 1, nothing_lexed());
}

/// How many line breaks `s` holds.
pub open spec fn line_breaks(s: Seq<char>) -> int
    decreases s.len(),
{
    if s.len() == 0 {
        0
    } else {
        (if is_line_break(s[0]) { 1int } else { 0int }) + line_breaks(s.drop_first())
    }
}

/// A source of blanks and line breaks alone yields nothing, provided it has
/// fewer than `u32::MAX` line breaks.
pub proof fn lemma_whitespace_yields_nothing(src: Seq<char>)
    requires
        forall|k: int| 0 <= k < src.len() ==> is_blank(#[trigger] src[k]) || is_line_break(src[k]),
        line_breaks(src) < u32::MAX,
    ensures
        lex(src) == Some(nothing_lexed()),
{
    lemma_skip_all_whitespace(src, 0, 1);
    assert(src.subrange(0, src.len() as int) =~= src);
}

proof fn lemma_skip_all_whitespace(src: Seq<char>, pos: int, line: int)
    requires
        0 <= pos <= src.len(),
        forall|k: int| 0 <= k < src.len() ==> is_blank(#[trigger] src[k]) || is_line_break(src[k]),
    ensures
        skip_whitespace(src, pos, line) == (
            src.len() as int,
            line + line_breaks(src.subrange(pos, src.len() as int)),
        ),
    decreases src.len() - pos,
{
    let rest = src.subrange(pos, src.len() as int);
    if pos < src.len() {
        let l = if is_blank(src[pos]) { line } else { line + 1 };
        lemma_skip_all_whitespace(src, pos + 1, l);
        assert(rest.drop_first() =~= src.subrange(pos + 1, src.len() as int));
    }
}

/// How many results parsing has collected.
pub open spec fn parsed_count(p: ParsedItems) -> int {
    (p.items.len() + p.errors.len()) as int
}

proof fn lemma_items_rest_count(toks: Seq<Token>, pos: int, acc: ParsedItems)
    requires
        0 <= pos,
    ensures
        items_rest(toks, pos, acc) matches Some(r) ==> parsed_count(r) <= parsed_count(acc) + if pos
            <= toks.len() {
            toks.len() - pos
        } else {
            0
        },
    decreases toks.len() - pos,
{
    if pos < toks.len() {
        lemma_item_advances(toks, pos);
        match parse_item(toks, pos) {
            Parsed::Done(item, q) => {
                lemma_items_rest_count(toks, q, ParsedItems { items: acc.items.push(item), ..acc });
            },
            Parsed::Halted(Halt::Failed(e, q)) => {
                lemma_items_rest_count(toks, q, ParsedItems { errors: acc.errors.push(e), ..acc });
            },
            _ => {},
        }
    }
}

/// Parsing from `pos` yields at most one item or error per token left.
pub proof fn lemma_items_at_most_tokens(toks: Seq<Token>, pos: int)
    requires
        0 <= pos <= toks.len(),
        items_rest(toks, pos, no_items()) is Some,
    ensures
        parsed_count(items_rest(toks, pos, no_items())->0) <= toks.len() - pos,
{
    lemma_items_rest_count(toks, pos, no_items());
}


/////////////////////////////////////////////////////
// Literals read back what was written
/////////////////////////////////////////////////////

/// How a character is written inside a literal: the seven characters that
/// have an escape sequence as a backslash and its letter, any other as
/// itself.
pub open spec fn escape_text(x: char) -> Seq<char> {
    if x == '\n' {
        seq!['\\', 'n']
    } else if x == '\t' {
        seq!['\\', 't']
    } else if x == '\r' {
        seq!['\\', 'r']
    } else if x == '\\' {
        seq!['\\', '\\']
    } else if x == '\'' {
        seq!['\\', '\'']
    } else if x == '"' {
        seq!['\\', '"']
    } else if x == '\0' {
        seq!['\\', '0']
    } else {
        seq![x]
    }
}

/// How a text is written inside a string literal: each character as
/// `escape_text` writes it.
pub open spec fn escape_all(s: Seq<char>) -> Seq<char>
    decreases s.len(),
{
    if s.len() == 0 {
        seq![]
    } else {
        escape_text(s[0]) + escape_all(s.drop_first())
    }
}

proof fn lemma_escape_text_read(x: char)
    ensures
        escape_text(x).len() == 1 ==> escape_text(x)[0] == x && x != '\\' && x != '"' && x != '\'',
        escape_text(x).len() == 2 ==> escape_text(x)[0] == '\\' && escaped_char(escape_text(x)[1])
            == Some(x),
        1 <= escape_text(x).len() <= 2,
{
}

/// A character written as `escape_text` does, followed by the closing `'`,
/// is read back as that character, up to and including the `'`.
pub proof fn lemma_char_literal_round_trip(before: Seq<char>, x: char, after: Seq<char>, line: int)
    ensures
        char_literal(before + escape_text(x) + seq!['\''] + after, before.len() as int, line) == (
            Ok::<char, SpecLexError>(x),
            (before.len() + escape_text(x).len() + 1) as int,
        ),
{
    let e = escape_text(x);
    let src = before + e + seq!['\''] + after;
    let i = before.len() as int;
    lemma_escape_text_read(x);
    assert(src[i] == e[0]);
    assert(src[i + e.len()] == '\'');
    if e.len() == 2 {
        assert(src[i + 1] == e[1]);
    }
}

/// A text written as `escape_all` does, followed by the closing `"`, is
/// read back as that text (after the characters already `read`), up to and
/// including the `"`.
pub proof fn lemma_string_literal_round_trip(
    before: Seq<char>,
    s: Seq<char>,
    after: Seq<char>,
    line: int,
    read: Seq<char>,
)
    ensures
        string_rest(before + escape_all(s) + seq!['"'] + after, before.len() as int, line, read) == (
            Ok::<Seq<char>, SpecLexError>(read + s),
            (before.len() + escape_all(s).len() + 1) as int,
        ),
    decreases s.len(),
{
    let src = before + escape_all(s) + seq!['"'] + after;
    let i = before.len() as int;
    if s.len() == 0 {
        assert(src[i] == '"');
        assert(read + s =~= read);
    } else {
        let x = s[0];
        let e = escape_text(x);
        let rest = s.drop_first();
        lemma_escape_text_read(x);
        lemma_string_literal_round_trip(before + e, rest, after, line, read.push(x));
        assert(before + e + escape_all(rest) + seq!['"'] + after =~= src);
        assert(read.push(x) + rest =~= read + s);
        assert(src[i] == e[0]);
        if e.len() == 2 {
            assert(src[i + 1] == e[1]);
        }
    }
}

/////////////////////////////////////////////////////
// A whitespace prefix shifts the lines
/////////////////////////////////////////////////////

/// `b` is the error `a` reported `n` lines further down: the same kind, its
/// line larger by `n`.
pub open spec fn error_shifted(a: SpecLexError, b: SpecLexError, n: int) -> bool {
    match a {
        SpecLexError::IOError(_) => b is IOError,
        SpecLexError::CharacterParseError(_, l) => b matches SpecLexError::CharacterParseError(_, m) && m == l + n,
        SpecLexError::StringParseError(_, l) => b matches SpecLexError::StringParseError(_, m) && m == l + n,
        SpecLexError::IntegerParseError(_, l) => b matches SpecLexError::IntegerParseError(_, m) && m == l + n,
        SpecLexError::FloatParseError(_, l) => b matches SpecLexError::FloatParseError(_, m) && m == l + n,
    }
}

/// `b` is what lexing yielded as `a`, `n` lines further down: the same token
/// kinds with lines larger by `n`, errors of the same kinds with lines larger
/// by `n`, and as many notices.
pub open spec fn lexed_shifted(a: Lexed, b: Lexed, n: int) -> bool {
    &&& a.tokens.len() == b.tokens.len()
    &&& forall|i: int| 0 <= i < a.tokens.len() ==> #[trigger] b.tokens[i] == SpecToken {
        token_type: a.tokens[i].token_type,
        line: a.tokens[i].line + n,
    }
    &&& a.errors.len() == b.errors.len()
    &&& forall|i: int| 0 <= i < a.errors.len() ==> error_shifted(a.errors[i], #[trigger] b.errors[i], n)
    &&& a.notices.len() == b.notices.len()
}

spec fn result_shifted<T>(a: Result<T, SpecLexError>, b: Result<T, SpecLexError>, n: int) -> bool {
    match a {
        Ok(x) => b == Ok::<T, SpecLexError>(x),
        Err(e) => b matches Err(f) && error_shifted(e, f, n),
    }
}

spec fn step_shifted(a: Step, b: Step, n: int) -> bool {
    match a {
        Step::Emit(t) => b == Step::Emit(t),
        Step::Skip => b is Skip,
        Step::Notice(_) => b is Notice,
        Step::Fail(e) => b matches Step::Fail(f) && error_shifted(e, f, n),
        Step::Oversized => b is Oversized,
    }
}

proof fn lemma_skip_shift(src: Seq<char>, i: int, line: int, n: int)
    ensures
        skip_whitespace(src, i, line + n) == (
            skip_whitespace(src, i, line).0,
            skip_whitespace(src, i, line).1 + n,
        ),
    decreases src.len() - i,
{
    if 0 <= i < src.len() && is_blank(src[i]) {
        lemma_skip_shift(src, i + 1, line, n);
    } else if 0 <= i < src.len() && is_line_break(src[i]) {
        lemma_skip_shift(src, i + 1, line + 1, n);
    }
}

proof fn lemma_string_rest_shift(src: Seq<char>, i: int, line: int, n: int, read: Seq<char>)
    ensures
        string_rest(src, i, line + n, read).1 == string_rest(src, i, line, read).1,
        result_shifted(string_rest(src, i, line, read).0, string_rest(src, i, line + n, read).0, n),
    decreases src.len() - i,
{
    if 0 <= i < src.len() && src[i] != '"' {
        if src[i] == '\\' {
            if i + 1 < src.len() && escaped_char(src[i + 1]) is Some {
                lemma_string_rest_shift(src, i + 2, line, n, read.push(escaped_char(src[i + 1])->0));
            }
        } else {
            lemma_string_rest_shift(src, i + 1, line, n, read.push(src[i]));
        }
    }
}

proof fn lemma_scan_token_shift(src: Seq<char>, p: int, line: int, n: int)
    requires
        0 <= p < src.len(),
    ensures
        scan_token(src, p, line + n).1 == scan_token(src, p, line).1,
        step_shifted(scan_token(src, p, line).0, scan_token(src, p, line + n).0, n),
{
    lemma_string_rest_shift(src, p + 1, line, n, seq![]);
}

proof fn lemma_record_shift(acc1: Lexed, acc2: Lexed, s1: Step, s2: Step, l: int, n: int)
    requires
        lexed_shifted(acc1, acc2, n),
        step_shifted(s1, s2, n),
    ensures
        lexed_shifted(record(acc1, s1, l), record(acc2, s2, l + n), n),
{
    let r1 = record(acc1, s1, l);
    let r2 = record(acc2, s2, l + n);
    assert forall|i: int| 0 <= i < r1.tokens.len() implies #[trigger] r2.tokens[i] == (SpecToken {
        token_type: r1.tokens[i].token_type,
        line: r1.tokens[i].line + n,
    }) by {
        if i < acc1.tokens.len() {
            assert(r1.tokens[i] == acc1.tokens[i]);
            assert(r2.tokens[i] == acc2.tokens[i]);
        }
    }
    assert forall|i: int| 0 <= i < r1.errors.len() implies error_shifted(r1.errors[i], #[trigger] r2.errors[i], n) by {
        if i < acc1.errors.len() {
            assert(r1.errors[i] == acc1.errors[i]);
            assert(r2.errors[i] == acc2.errors[i]);
        }
    }
}

/// Lexing with the line counter `n` larger yields the same results `n`
/// lines further down (where the larger counter lets lexing complete).
proof fn lemma_lex_rest_shift(src: Seq<char>, i: int, line: int, n: int, acc1: Lexed, acc2: Lexed)
    requires
        0 <= i,
        0 <= n,
        lexed_shifted(acc1, acc2, n),
        lex_rest(src, i, line + n, acc2) is Some,
    ensures
        lex_rest(src, i, line, acc1) is Some,
        lexed_shifted(lex_rest(src, i, line, acc1)->0, lex_rest(src, i, line + n, acc2)->0, n),
    decreases src.len() - i,
{
    if i < src.len() {
        lemma_skip_shift(src, i, line, n);
        lemma_skip_whitespace_bounds(src, i, line);
        let (p, l) = skip_whitespace(src, i, line);
        if p < src.len() {
            lemma_scan_token_shift(src, p, l, n);
            lemma_scan_token_advances(src, p, l);
            let (s1, e) = scan_token(src, p, l);
            let (s2, _) = scan_token(src, p, l + n);
            lemma_record_shift(acc1, acc2, s1, s2, l, n);
            lemma_lex_rest_shift(src, e, l, n, record(acc1, s1, l), record(acc2, s2, l + n));
        }
    }
}

proof fn lemma_skip_translate(pre: Seq<char>, s: Seq<char>, i: int, line: int)
    requires
        0 <= i,
    ensures
        skip_whitespace(pre + s, i + pre.len(), line) == (
            skip_whitespace(s, i, line).0 + pre.len(),
            skip_whitespace(s, i, line).1,
        ),
    decreases s.len() - i,
{
    if i < s.len() {
        assert((pre + s)[i + pre.len()] == s[i]);
        if is_blank(s[i]) {
            lemma_skip_translate(pre, s, i + 1, line);
        } else if is_line_break(s[i]) {
            lemma_skip_translate(pre, s, i + 1, line + 1);
        }
    }
}

proof fn lemma_number_end_translate(pre: Seq<char>, s: Seq<char>, i: int, seen: bool)
    requires
        0 <= i,
    ensures
        number_end(pre + s, i + pre.len(), seen) == (
            number_end(s, i, seen).0 + pre.len(),
            number_end(s, i, seen).1,
        ),
    decreases s.len() - i,
{
    if i < s.len() {
        assert((pre + s)[i + pre.len()] == s[i]);
        if is_ascii_digit(s[i]) {
            lemma_number_end_translate(pre, s, i + 1, seen);
        } else if s[i] == '.' && !seen {
            lemma_number_end_translate(pre, s, i + 1, true);
        }
    }
}

proof fn lemma_word_end_translate(pre: Seq<char>, s: Seq<char>, i: int)
    requires
        0 <= i,
    ensures
        word_end(pre + s, i + pre.len()) == word_end(s, i) + pre.len(),
    decreases s.len() - i,
{
    if i < s.len() {
        assert((pre + s)[i + pre.len()] == s[i]);
        lemma_word_end_translate(pre, s, i + 1);
    }
}

proof fn lemma_escape_at_translate(pre: Seq<char>, s: Seq<char>, i: int, line: int)
    requires
        0 <= i,
    ensures
        escape_at(pre + s, i + pre.len(), line) == (
            escape_at(s, i, line).0,
            escape_at(s, i, line).1 + pre.len(),
        ),
{
    if i < s.len() {
        assert((pre + s)[i + pre.len()] == s[i]);
    }
}

proof fn lemma_string_rest_translate(pre: Seq<char>, s: Seq<char>, i: int, line: int, read: Seq<char>)
    requires
        0 <= i,
    ensures
        string_rest(pre + s, i + pre.len(), line, read) == (
            string_rest(s, i, line, read).0,
            string_rest(s, i, line, read).1 + pre.len(),
        ),
    decreases s.len() - i,
{
    let t = pre + s;
    let d = pre.len() as int;
    if i < s.len() {
        assert(t[i + d] == s[i]);
        if i + 1 < s.len() {
            assert(t[i + 1 + d] == s[i + 1]);
        }
        lemma_escape_at_translate(pre, s, i + 1, line);
        if s[i] == '\\' {
            if i + 1 < s.len() && escaped_char(s[i + 1]) is Some {
                lemma_string_rest_translate(pre, s, i + 2, line, read.push(escaped_char(s[i + 1])->0));
            }
        } else if s[i] != '"' {
            lemma_string_rest_translate(pre, s, i + 1, line, read.push(s[i]));
        }
    }
}

proof fn lemma_char_literal_translate(pre: Seq<char>, s: Seq<char>, i: int, line: int)
    requires
        0 <= i,
    ensures
        char_literal(pre + s, i + pre.len(), line) == (
            char_literal(s, i, line).0,
            char_literal(s, i, line).1 + pre.len(),
        ),
{
    let t = pre + s;
    let d = pre.len() as int;
    if i < s.len() {
        assert(t[i + d] == s[i]);
        lemma_escape_at_translate(pre, s, i + 1, line);
        let j = if s[i] == '\\' { escape_at(s, i + 1, line).1 } else { i + 1 };
        if 0 <= j < s.len() {
            assert(t[j + d] == s[j]);
        }
    }
}

proof fn lemma_char_at_translate(pre: Seq<char>, s: Seq<char>, q: int, c: char)
    requires
        0 <= q,
    ensures
        char_at_is(pre + s, q + pre.len(), c) == char_at_is(s, q, c),
{
    if q < s.len() {
        assert((pre + s)[q + pre.len()] == s[q]);
    }
}

proof fn lemma_scan_token_translate(pre: Seq<char>, s: Seq<char>, p: int, line: int)
    requires
        0 <= p < s.len(),
    ensures
        scan_token(pre + s, p + pre.len(), line) == (
            scan_token(s, p, line).0,
            scan_token(s, p, line).1 + pre.len(),
        ),
{
    let t = pre + s;
    let d = pre.len() as int;
    assert(t[p + d] == s[p]);
    lemma_number_end_translate(pre, s, p + 1, false);
    lemma_number_end_bounds(s, p + 1, false);
    lemma_word_end_translate(pre, s, p + 1);
    lemma_word_end_bounds(s, p + 1);
    lemma_string_rest_translate(pre, s, p + 1, line, seq![]);
    lemma_char_literal_translate(pre, s, p + 1, line);
    lemma_char_at_translate(pre, s, p + 1, '>');
    lemma_char_at_translate(pre, s, p + 1, '-');
    lemma_char_at_translate(pre, s, p + 1, '=');
    lemma_char_at_translate(pre, s, p + 1, '+');
    let e1 = number_end(s, p + 1, false).0;
    assert(t.subrange(p + d, e1 + d) =~= s.subrange(p, e1));
    let e2 = word_end(s, p + 1);
    assert(t.subrange(p + d, e2 + d) =~= s.subrange(p, e2));
}

/// Lexing depends only on the characters from the position on.
proof fn lemma_lex_rest_translate(pre: Seq<char>, s: Seq<char>, i: int, line: int, acc: Lexed)
    requires
        0 <= i,
    ensures
        lex_rest(pre + s, i + pre.len(), line, acc) == lex_rest(s, i, line, acc),
    decreases s.len() - i,
{
    if i < s.len() {
        lemma_skip_translate(pre, s, i, line);
        lemma_skip_whitespace_bounds(s, i, line);
        let (p, l) = skip_whitespace(s, i, line);
        if p < s.len() {
            lemma_scan_token_translate(pre, s, p, l);
            lemma_scan_token_advances(s, p, l);
            let (step, e) = scan_token(s, p, l);
            lemma_lex_rest_translate(pre, s, e, l, record(acc, step, l));
        }
    }
}

/// Skipping from inside a whitespace prefix reaches the same place as
/// skipping from its end with the prefix's remaining line breaks counted.
proof fn lemma_skip_prefix(pre: Seq<char>, s: Seq<char>, j: int, line: int)
    requires
        0 <= j <= pre.len(),
        forall|k: int| 0 <= k < pre.len() ==> is_blank(#[trigger] pre[k]) || is_line_break(pre[k]),
    ensures
        skip_whitespace(pre + s, j, line) == skip_whitespace(
            pre + s,
            pre.len() as int,
            line + line_breaks(pre.subrange(j, pre.len() as int)),
        ),
    decreases pre.len() - j,
{
    let rest = pre.subrange(j, pre.len() as int);
    if j < pre.len() {
        assert((pre + s)[j] == pre[j]);
        assert(rest.drop_first() =~= pre.subrange(j + 1, pre.len() as int));
        let l = if is_blank(pre[j]) { line } else { line + 1 };
        lemma_skip_prefix(pre, s, j + 1, l);
    } else {
        assert(rest =~= Seq::<char>::empty());
    }
}

/// Lexing a source that starts with blanks and line breaks, from its first
/// character with any line counter, yields what lexing the rest of it with
/// the same line counter yields, every line `n` larger, where `n` is the
/// number of line breaks in the prefix: the same token kinds, errors of the
/// same kinds, and as many notices (where lexing the whole source
/// completes).
pub proof fn lemma_whitespace_prefix_shifts_lines(prefix: Seq<char>, src: Seq<char>, line: int)
    requires
        forall|k: int| 0 <= k < prefix.len() ==> is_blank(#[trigger] prefix[k]) || is_line_break(prefix[k]),
        lex_rest(prefix + src, 0, line, nothing_lexed()) is Some,
    ensures
        lex_rest(src, 0, line, nothing_lexed()) is Some,
        lexed_shifted(
            lex_rest(src, 0, line, nothing_lexed())->0,
            lex_rest(prefix + src, 0, line, nothing_lexed())->0,
            line_breaks(prefix),
        ),
{
    let t = prefix + src;
    let d = prefix.len() as int;
    let n = line_breaks(prefix);
    lemma_line_breaks_nonnegative(prefix);
    lemma_skip_prefix(prefix, src, 0, line);
    assert(prefix.subrange(0, d) =~= prefix);
    if 0 < d {
        lemma_skip_whitespace_bounds(t, d, line + n);
        assert(lex_rest(t, 0, line, nothing_lexed()) == lex_rest(t, d, line + n, nothing_lexed()));
    } else {
        assert(t =~= src);
    }
    lemma_lex_rest_translate(prefix, src, 0, line + n, nothing_lexed());
    lemma_lex_rest_shift(src, 0, line, n, nothing_lexed(), nothing_lexed());
}

/// The whole-source form: lexing `prefix + src` from line 1 against lexing
/// `src` from line 1.
pub proof fn lemma_whitespace_prefix_shifts_lexed_lines(prefix: Seq<char>, src: Seq<char>)
    requires
        forall|k: int| 0 <= k < prefix.len() ==> is_blank(#[trigger] prefix[k]) || is_line_break(prefix[k]),
        lex(prefix + src) is Some,
    ensures
        lex(src) is Some,
        lexed_shifted(lex(src)->0, lex(prefix + src)->0, line_breaks(prefix)),
{
    lemma_whitespace_prefix_shifts_lines(prefix, src, 1);
}

/// A character literal written as `escape_text` writes its character, met
/// where lexing stands (with a line counter it can reach), is lexed as one
/// `CharLiteral` token of that character on that line, and lexing goes on
/// right after its closing `'`.
pub proof fn lemma_lex_char_literal(before: Seq<char>, x: char, after: Seq<char>, line: int, acc: Lexed)
    requires
        line <= u32::MAX,
    ensures
        ({
            let src = before + seq!['\''] + escape_text(x) + seq!['\''] + after;
            let p = before.len() as int;
            lex_rest(src, p, line, acc) == lex_rest(
                src,
                p + escape_text(x).len() + 2,
                line,
                record(acc, Step::Emit(SpecTokenType::Plain(TokenType::CharLiteral(x))), line),
            )
        }),
{
    let src = before + seq!['\''] + escape_text(x) + seq!['\''] + after;
    let p = before.len() as int;
    assert(src[p] == '\'');
    lemma_char_literal_round_trip(before + seq!['\''], x, after, line);
    assert(before + seq!['\''] + escape_text(x) + seq!['\''] + after =~= src);
    lemma_escape_text_read(x);
}

/// A string literal written as `escape_all` writes its text, met where
/// lexing stands (with a line counter it can reach), is lexed as one
/// `StringLiteral` token of that text on that line, and lexing goes on right
/// after its closing `"`.
pub proof fn lemma_lex_string_literal(before: Seq<char>, s: Seq<char>, after: Seq<char>, line: int, acc: Lexed)
    requires
        line <= u32::MAX,
    ensures
        ({
            let src = before + seq!['"'] + escape_all(s) + seq!['"'] + after;
            let p = before.len() as int;
            lex_rest(src, p, line, acc) == lex_rest(
                src,
                p + escape_all(s).len() + 2,
                line,
                record(acc, Step::Emit(SpecTokenType::StringLiteral(s)), line),
            )
        }),
{
    let src = before + seq!['"'] + escape_all(s) + seq!['"'] + after;
    let p = before.len() as int;
    assert(src[p] == '"');
    lemma_string_literal_round_trip(before + seq!['"'], s, after, line, seq![]);
    assert(before + seq!['"'] + escape_all(s) + seq!['"'] + after =~= src);
    assert(Seq::<char>::empty() + s =~= s);
}

proof fn lemma_line_breaks_nonnegative(s: Seq<char>)
    ensures
        line_breaks(s) >= 0,
    decreases s.len(),
{
    if s.len() > 0 {
        lemma_line_breaks_nonnegative(s.drop_first());
    }
}


/////////////////////////////////////////////////////
// When lexing completes
/////////////////////////////////////////////////////

/// Every run of decimal digits in `src` writes a number that fits in an
/// `i64`.
pub open spec fn digit_runs_fit(src: Seq<char>) -> bool {
    forall|i: int, j: int|
        0 <= i <= j <= src.len() && (forall|k: int| i <= k < j ==> is_ascii_digit(#[trigger] src[k]))
            ==> #[trigger] digits_value(src.subrange(i, j)) <= i64::MAX
}

proof fn lemma_line_breaks_split(s: Seq<char>, i: int, j: int, k: int)
    requires
        0 <= i <= j <= k <= s.len(),
    ensures
        line_breaks(s.subrange(i, k)) == line_breaks(s.subrange(i, j)) + line_breaks(s.subrange(j, k)),
    decreases j - i,
{
    if i < j {
        lemma_line_breaks_split(s, i + 1, j, k);
        assert(s.subrange(i, k).drop_first() =~= s.subrange(i + 1, k));
        assert(s.subrange(i, j).drop_first() =~= s.subrange(i + 1, j));
    } else {
        assert(s.subrange(i, j).len() == 0);
    }
}

proof fn lemma_skip_whitespace_lines(src: Seq<char>, pos: int, line: int)
    requires
        0 <= pos <= src.len(),
    ensures
        skip_whitespace(src, pos, line).1 == line + line_breaks(
            src.subrange(pos, skip_whitespace(src, pos, line).0),
        ),
    decreases src.len() - pos,
{
    if pos < src.len() && (is_blank(src[pos]) || is_line_break(src[pos])) {
        let l = if is_blank(src[pos]) { line } else { line + 1 };
        lemma_skip_whitespace_lines(src, pos + 1, l);
        lemma_skip_whitespace_bounds(src, pos + 1, l);
        let p = skip_whitespace(src, pos + 1, l).0;
        assert(src.subrange(pos, p).drop_first() =~= src.subrange(pos + 1, p));
    } else {
        assert(src.subrange(pos, pos).len() == 0);
    }
}

/// Lexing from `pos` with line counter `line` completes where every run of
/// digits fits in an `i64` and the line counter plus the line breaks left
/// is at most `u32::MAX`.
pub proof fn lemma_lex_rest_completes(src: Seq<char>, pos: int, line: int, acc: Lexed)
    requires
        0 <= pos <= src.len(),
        line + line_breaks(src.subrange(pos, src.len() as int)) <= u32::MAX,
        digit_runs_fit(src),
    ensures
        lex_rest(src, pos, line, acc) is Some,
    decreases src.len() - pos,
{
    let n = src.len() as int;
    if pos < n {
        lemma_skip_whitespace_bounds(src, pos, line);
        lemma_skip_whitespace_lines(src, pos, line);
        let (p, l) = skip_whitespace(src, pos, line);
        lemma_line_breaks_split(src, pos, p, n);
        lemma_line_breaks_nonnegative(src.subrange(p, n));
        if p < n {
            let (step, e) = scan_token(src, p, l);
            lemma_scan_token_advances(src, p, l);
            if is_ascii_digit(src[p]) {
                lemma_number_end_bounds(src, p + 1, false);
                let (q, is_float) = number_end(src, p + 1, false);
                if !is_float {
                    lemma_number_digits(src, p + 1);
                    assert forall|k: int| p <= k < q implies is_ascii_digit(#[trigger] src[k]) by {}
                    assert(digits_value(src.subrange(p, q)) <= i64::MAX);
                }
            }
            lemma_line_breaks_split(src, p, e, n);
            lemma_line_breaks_nonnegative(src.subrange(p, e));
            lemma_lex_rest_completes(src, e, l, record(acc, step, l));
        }
    }
}

/// A prefix of blanks and line breaks changes nothing of when lexing
/// completes: where every run of digits of `src` fits in an `i64` and the
/// line counter plus the line breaks of both is at most `u32::MAX`, lexing
/// `prefix + src` from its start completes.
pub proof fn lemma_whitespace_prefix_completes(prefix: Seq<char>, src: Seq<char>, line: int)
    requires
        forall|k: int| 0 <= k < prefix.len() ==> is_blank(#[trigger] prefix[k]) || is_line_break(prefix[k]),
        line + line_breaks(prefix) + line_breaks(src) <= u32::MAX,
        digit_runs_fit(src),
    ensures
        lex_rest(prefix + src, 0, line, nothing_lexed()) is Some,
{
    let t = prefix + src;
    let d = prefix.len() as int;
    assert forall|i: int, j: int|
        0 <= i <= j <= t.len() && (forall|k: int| i <= k < j ==> is_ascii_digit(#[trigger] t[k]))
            implies #[trigger] digits_value(t.subrange(i, j)) <= i64::MAX by {
        if i == j {
            assert(t.subrange(i, j).len() == 0);
        } else if i < d {
            assert(is_ascii_digit(t[i]));
            assert(t[i] == prefix[i]);
        } else {
            assert(t.subrange(i, j) =~= src.subrange(i - d, j - d));
            assert forall|k: int| i - d <= k < j - d implies is_ascii_digit(#[trigger] src[k]) by {
                assert(t[k + d] == src[k]);
            }
        }
    }
    lemma_line_breaks_split(t, 0, d, t.len() as int);
    assert(t.subrange(0, t.len() as int) =~= t);
    assert(t.subrange(0, d) =~= prefix);
    assert(t.subrange(d, t.len() as int) =~= src);
    lemma_lex_rest_completes(t, 0, line, nothing_lexed());
}


/////////////////////////////////////////////////////
// Integer literals carry the value of their digits
/////////////////////////////////////////////////////

proof fn lemma_number_end_on_digits(src: Seq<char>, i: int, e: int, seen_dot: bool)
    requires
        0 <= i <= e <= src.len(),
        forall|k: int| i <= k < e ==> is_ascii_digit(#[trigger] src[k]),
        e == src.len() || (!is_ascii_digit(src[e]) && (seen_dot || src[e] != '.')),
    ensures
        number_end(src, i, seen_dot) == (e, seen_dot),
    decreases e - i,
{
    if i < e {
        lemma_number_end_on_digits(src, i + 1, e, seen_dot);
    }
}

/// A run of decimal digits `d` met where lexing stands, and not followed
/// by another digit or a `.`, is lexed as one `Int64Literal` token whose
/// value is the number that `d` writes in decimal (where it fits in an
/// `i64`), on that line; lexing goes on right after the run.
pub proof fn lemma_lex_integer_literal(before: Seq<char>, d: Seq<char>, after: Seq<char>, line: int, acc: Lexed)
    requires
        d.len() >= 1,
        forall|k: int| 0 <= k < d.len() ==> is_ascii_digit(#[trigger] d[k]),
        digits_value(d) <= i64::MAX,
        after.len() == 0 || (!is_ascii_digit(after[0]) && after[0] != '.'),
        line <= u32::MAX,
    ensures
        ({
            let src = before + d + after;
            let p = before.len() as int;
            let n = digits_value(d) as i64;
            &&& n as int == digits_value(d)
            &&& lex_rest(src, p, line, acc) == lex_rest(
                src,
                p + d.len(),
                line,
                Lexed {
                    tokens: acc.tokens.push(
                        SpecToken { token_type: SpecTokenType::Plain(TokenType::Int64Literal(n)), line },
                    ),
                    ..acc
                },
            )
        }),
{
    let src = before + d + after;
    let p = before.len() as int;
    let e = p + d.len();
    assert forall|k: int| p + 1 <= k < e implies is_ascii_digit(#[trigger] src[k]) by {
        assert(src[k] == d[k - p]);
    }
    if e < src.len() {
        assert(src[e] == after[0]);
    }
    lemma_number_end_on_digits(src, p + 1, e, false);
    assert(src.subrange(p, e) =~= d);
    assert(src[p] == d[0]);
    lemma_digits_value_nonnegative(d);
}


/////////////////////////////////////////////////////
// Type keywords name their types
/////////////////////////////////////////////////////

/// `ty` is the type that the type keyword `t` names, keyword by keyword:
/// `void` names `Void`, `int64` names `Int64`, and so on.
pub open spec fn keyword_names(t: TokenType, ty: Type) -> bool {
    &&& t is Void ==> ty is Void
    &&& t is Bool ==> ty is Bool
    &&& t is Char ==> ty is Char
    &&& t is Int8 ==> ty is Int8
    &&& t is Int16 ==> ty is Int16
    &&& t is Int32 ==> ty is Int32
    &&& t is Int64 ==> ty is Int64
    &&& t is UInt8 ==> ty is UInt8
    &&& t is UInt16 ==> ty is UInt16
    &&& t is UInt32 ==> ty is UInt32
    &&& t is UInt64 ==> ty is UInt64
    &&& t is Float32 ==> ty is Float32
    &&& t is Float64 ==> ty is Float64
    &&& t is String ==> ty is String
    &&& t.is_type_keyword()
}

/// A parsed function definition has the return type that its first token
/// names and the name that its second token carries.
pub proof fn lemma_function_declares_its_type(toks: Seq<Token>, pos: int)
    requires
        0 <= pos,
    ensures
        parse_function(toks, pos) matches Parsed::Done(f, q) ==> {
            let close = if f.parameters.len() == 0 { pos + 3 } else { pos + 2 + 3 * f.parameters.len() };
            &&& keyword_names(toks[pos].token_type, f.return_type)
            &&& toks[pos + 1].token_type == TokenType::Identifier(f.name)
            &&& toks[pos + 2].token_type is LeftParenthesis
            &&& parse_parameters(toks, pos + 3) == Parsed::Done(f.parameters, close)
            &&& toks[close].token_type is RightParenthesis
            &&& parse_block(toks, close + 1) == Parsed::Done(f.body, q)
        },
{
    lemma_parameters_declare_their_types(toks, pos + 3);
}

/// A parsed variable declaration has the type that its first token names
/// and the name that its second token carries.
pub proof fn lemma_variable_declares_its_type(toks: Seq<Token>, pos: int)
    requires
        0 <= pos,
    ensures
        parse_statement(toks, pos) matches Parsed::Done(SpecStatement::Variable { name, variable_type, .. }, _)
            ==> {
            &&& keyword_names(toks[pos].token_type, variable_type)
            &&& toks[pos + 1].token_type == TokenType::Identifier(name)
        },
{
}

proof fn lemma_parameter_list_positions(toks: Seq<Token>, pos: int, start: int, read: Seq<Parameter>)
    requires
        0 <= start <= pos,
        pos == start + 3 * read.len(),
    ensures
        parameter_list(toks, pos, read) matches Parsed::Done(ps, q) ==> {
            &&& ps.len() > read.len()
            &&& ps.take(read.len() as int) == read
            &&& q == start + 3 * ps.len() - 1
            &&& forall|i: int| read.len() <= i < ps.len() ==> {
                &&& keyword_names(toks[start + 3 * i].token_type, #[trigger] ps[i].parameter_type)
                &&& toks[start + 3 * i + 1].token_type == TokenType::Identifier(ps[i].name)
            }
            &&& forall|i: int| read.len() <= i < ps.len() - 1 ==> #[trigger] toks[start + 3 * i + 2].token_type is Comma
        },
    decreases toks.len() - pos,
{
    if expect(toks, pos, Expected::TypeName) is None && expect(toks, pos + 1, Expected::Identifier) is None {
        let parameter = Parameter {
            name: identifier_name(toks[pos + 1].token_type),
            parameter_type: crate::syntax::type_of(toks[pos].token_type)->0,
        };
        let next = read.push(parameter);
        if check(toks, pos + 2, TokenType::Comma) {
            lemma_parameter_list_positions(toks, pos + 3, start, next);
            match parameter_list(toks, pos, read) {
                Parsed::Done(ps, q) => {
                    assert(ps.take(next.len() as int).take(read.len() as int) =~= ps.take(read.len() as int));
                    assert(next.take(read.len() as int) =~= read);
                    assert(ps[read.len() as int] == next[read.len() as int]);
                    assert(toks[pos + 2].token_type is Comma);
                },
                _ => {},
            }
        } else {
            assert(next.take(read.len() as int) =~= read);
        }
    }
}

/// The parameters of a function are read in order, three tokens apart: the
/// `i`-th has the type that the token `3 * i` after the start names and the
/// name that the next token carries, and a comma stands between two.
pub proof fn lemma_parameters_declare_their_types(toks: Seq<Token>, pos: int)
    requires
        0 <= pos,
    ensures
        parse_parameters(toks, pos) matches Parsed::Done(ps, q) ==> {
            &&& q == if ps.len() == 0 { pos } else { pos + 3 * ps.len() - 1 }
            &&& forall|i: int| 0 <= i < ps.len() ==> {
                &&& keyword_names(toks[pos + 3 * i].token_type, #[trigger] ps[i].parameter_type)
                &&& toks[pos + 3 * i + 1].token_type == TokenType::Identifier(ps[i].name)
            }
            &&& forall|i: int| 0 <= i < ps.len() - 1 ==> #[trigger] toks[pos + 3 * i + 2].token_type is Comma
        },
{
    if !check(toks, pos, TokenType::RightParenthesis) {
        lemma_parameter_list_positions(toks, pos, pos, seq![]);
    }
}


proof fn lemma_items_rest_extends(toks: Seq<Token>, pos: int, acc: ParsedItems)
    requires
        0 <= pos,
    ensures
        items_rest(toks, pos, acc) matches Some(r) ==> r.items.len() >= acc.items.len()
            && r.items.take(acc.items.len() as int) == acc.items,
    decreases toks.len() - pos,
{
    if pos < toks.len() {
        lemma_item_advances(toks, pos);
        match parse_item(toks, pos) {
            Parsed::Done(item, q) => {
                let next = ParsedItems { items: acc.items.push(item), ..acc };
                lemma_items_rest_extends(toks, q, next);
                match items_rest(toks, q, next) {
                    Some(r) => {
                        assert(r.items.take(next.items.len() as int).take(acc.items.len() as int)
                            =~= r.items.take(acc.items.len() as int));
                        assert(next.items.take(acc.items.len() as int) =~= acc.items);
                    },
                    None => {},
                }
            },
            Parsed::Halted(Halt::Failed(e, q)) => {
                lemma_items_rest_extends(toks, q, ParsedItems { errors: acc.errors.push(e), ..acc });
            },
            _ => {},
        }
    } else {
        assert(acc.items.take(acc.items.len() as int) =~= acc.items);
    }
}

/// Where the tokens start with a function definition, parsing them yields
/// it as the first item, with the return type that the first token names.
pub proof fn lemma_leading_function_is_first_item(toks: Seq<Token>)
    ensures
        parse_function(toks, 0) matches Parsed::Done(f, _) ==> (items_rest(toks, 0, no_items()) matches Some(
            r,
        ) ==> {
            &&& r.items.len() >= 1
            &&& r.items[0] == SpecItem::Function(f)
            &&& keyword_names(toks[0].token_type, f.return_type)
        }),
{
    lemma_function_declares_its_type(toks, 0);
    match parse_function(toks, 0) {
        Parsed::Done(f, q) => {
            let first = ParsedItems { items: seq![SpecItem::Function(f)], errors: seq![] };
            assert(no_items().items.push(SpecItem::Function(f)) =~= first.items);
            crate::syntax::lemma_function_advances(toks, 0);
            lemma_items_rest_extends(toks, q, first);
            match items_rest(toks, 0, no_items()) {
                Some(r) => {
                    assert(r.items[0] == r.items.take(1)[0]);
                },
                None => {},
            }
        },
        _ => {},
    }
}

/////////////////////////////////////////////////////
// A call reads every argument
/////////////////////////////////////////////////////

/// Where the `i`-th argument of a call whose name stands at `pos` starts,
/// given the positions `ends` right after each argument.
pub open spec fn argument_start(pos: int, ends: Seq<int>, i: int) -> int {
    if i == 0 {
        pos + 2
    } else {
        ends[i - 1] + 1
    }
}

proof fn lemma_argument_list_reads(toks: Seq<Token>, pos: int, ends: Seq<int>, args: Seq<SpecExpression>, k: int)
    requires
        0 <= pos,
        1 <= args.len() == ends.len(),
        0 <= k < args.len(),
        forall|i: int| 0 <= i < args.len() ==> parse_primary(toks, argument_start(pos, ends, i)) == Parsed::Done(
            #[trigger] args[i],
            ends[i],
        ),
        forall|i: int| 0 <= i < args.len() - 1 ==> check(toks, #[trigger] ends[i], TokenType::Comma),
        check(toks, ends[args.len() - 1], TokenType::RightParenthesis),
    ensures
        argument_list(toks, argument_start(pos, ends, k), args.take(k)) == Parsed::Done(
            args,
            ends[args.len() - 1],
        ),
    decreases args.len() - k,
{
    let n = args.len() as int;
    let s = argument_start(pos, ends, k);
    assert(parse_primary(toks, s) == Parsed::Done(args[k], ends[k]));
    if k > 0 {
        assert(check(toks, ends[k - 1], TokenType::Comma));
    }
    lemma_expression_advances(toks, s);
    assert(args.take(k).push(args[k]) =~= args.take(k + 1));
    if k < n - 1 {
        assert(check(toks, ends[k], TokenType::Comma));
        lemma_argument_list_reads(toks, pos, ends, args, k + 1);
    } else {
        assert(args.take(k + 1) =~= args);
    }
}

/// A call `name(e1, ..., en)` reads every argument, whatever its form
/// (calls included): where each `ei` is an expression that ends at a comma,
/// the last at `)`, the call has exactly those arguments in order and ends
/// after the `)`; `name()` is a call without arguments.
pub proof fn lemma_call_reads_every_argument(
    toks: Seq<Token>,
    pos: int,
    name: String,
    ends: Seq<int>,
    args: Seq<SpecExpression>,
)
    requires
        0 <= pos,
        pos + 1 < toks.len(),
        toks[pos].token_type == TokenType::Identifier(name),
        toks[pos + 1].token_type is LeftParenthesis,
        args.len() == ends.len(),
        forall|i: int| 0 <= i < args.len() ==> parse_primary(toks, argument_start(pos, ends, i)) == Parsed::Done(
            #[trigger] args[i],
            ends[i],
        ),
        forall|i: int| 0 <= i < args.len() - 1 ==> check(toks, #[trigger] ends[i], TokenType::Comma),
        args.len() == 0 ==> check(toks, pos + 2, TokenType::RightParenthesis),
        args.len() > 0 ==> check(toks, ends[args.len() - 1], TokenType::RightParenthesis),
    ensures
        parse_primary(toks, pos) == Parsed::Done(
            SpecExpression::Call { callee: name, arguments: args },
            (if args.len() == 0 { pos + 2 } else { ends[args.len() - 1] }) + 1,
        ),
{
    assert(check(toks, pos + 1, TokenType::LeftParenthesis));
    if args.len() > 0 {
        let s = pos + 2;
        assert(parse_primary(toks, argument_start(pos, ends, 0)) == Parsed::Done(args[0], ends[0]));
        assert(!check(toks, s, TokenType::RightParenthesis));
        lemma_argument_list_reads(toks, pos, ends, args, 0);
        assert(args.take(0) =~= Seq::<SpecExpression>::empty());
        assert(parse_call_args(toks, s) == Parsed::Done(args, ends[args.len() - 1]));
    } else {
        assert(args =~= Seq::<SpecExpression>::empty());
    }
}


/////////////////////////////////////////////////////
// Tokens are read from their spelling
/////////////////////////////////////////////////////

/// How a keyword, a type name, a punctuation mark or an operator is
/// written in the source; `None` for the kinds that carry a value.
pub open spec fn spelling(t: TokenType) -> Option<Seq<char>> {
    match t {
        TokenType::Let => Some("let"@),
        TokenType::Return => Some("return"@),
        TokenType::True => Some("true"@),
        TokenType::False => Some("false"@),
        TokenType::Void => Some("void"@),
        TokenType::Bool => Some("bool"@),
        TokenType::Char => Some("char"@),
        TokenType::Int8 => Some("int8"@),
        TokenType::Int16 => Some("int16"@),
        TokenType::Int32 => Some("int32"@),
        TokenType::Int64 => Some("int64"@),
        TokenType::UInt8 => Some("uint8"@),
        TokenType::UInt16 => Some("uint16"@),
        TokenType::UInt32 => Some("uint32"@),
        TokenType::UInt64 => Some("uint64"@),
        TokenType::Float32 => Some("float32"@),
        TokenType::Float64 => Some("float64"@),
        TokenType::String => Some("string"@),
        TokenType::LeftParenthesis => Some(seq!['(']),
        TokenType::RightParenthesis => Some(seq![')']),
        TokenType::LeftBrace => Some(seq!['{']),
        TokenType::RightBrace => Some(seq!['}']),
        TokenType::Colon => Some(seq![':']),
        TokenType::Semicolon => Some(seq![';']),
        TokenType::Comma => Some(seq![',']),
        TokenType::Dot => Some(seq!['.']),
        TokenType::Equals => Some(seq!['=']),
        TokenType::Arrow => Some(seq!['-', '>']),
        TokenType::Plus => Some(seq!['+']),
        TokenType::Minus => Some(seq!['-']),
        TokenType::Star => Some(seq!['*']),
        TokenType::Slash => Some(seq!['/']),
        TokenType::PlusEquals => Some(seq!['+', '=']),
        TokenType::MinusEquals => Some(seq!['-', '=']),
        TokenType::StarEquals => Some(seq!['*', '=']),
        TokenType::SlashEquals => Some(seq!['/', '=']),
        TokenType::PlusPlus => Some(seq!['+', '+']),
        TokenType::MinusMinus => Some(seq!['-', '-']),
        TokenType::EqualsEquals => Some(seq!['=', '=']),
        TokenType::NotEquals => Some(seq!['!', '=']),
        TokenType::LessThan => Some(seq!['<']),
        TokenType::GreaterThan => Some(seq!['>']),
        TokenType::LessThanOrEquals => Some(seq!['<', '=']),
        TokenType::GreaterThanOrEquals => Some(seq!['>', '=']),
        _ => None,
    }
}

/// A token of a kind that is always written the same way is read from
/// exactly that spelling; an identifier is read from its own text.
pub proof fn lemma_tokens_read_their_spelling(src: Seq<char>, p: int, line: int)
    requires
        0 <= p < src.len(),
    ensures
        ({
            let (step, e) = scan_token(src, p, line);
            &&& step matches Step::Emit(SpecTokenType::Plain(t)) ==> (spelling(t) matches Some(w) ==> src.subrange(p, e) == w)
            &&& step matches Step::Emit(SpecTokenType::Identifier(w)) ==> src.subrange(p, e) == w
        }),
{
    let c = src[p];
    let (step, e) = scan_token(src, p, line);
    lemma_scan_token_advances(src, p, line);
    if is_ascii_digit(c) {
    } else if starts_word(c) {
    } else if c == '"' || c == '\'' {
    } else {
        if e == p + 1 {
            assert(src.subrange(p, e) =~= seq![c]);
        } else if e == p + 2 {
            assert(src.subrange(p, e) =~= seq![c, src[p + 1]]);
        }
    }
}


proof fn lemma_number_end_skips_digits(src: Seq<char>, i: int, m: int)
    requires
        0 <= i <= m <= src.len(),
        forall|k: int| i <= k < m ==> is_ascii_digit(#[trigger] src[k]),
    ensures
        number_end(src, i, false) == number_end(src, m, false),
    decreases m - i,
{
    if i < m {
        lemma_number_end_skips_digits(src, i + 1, m);
    }
}

/// Digits `d`, a `.` and digits `f`, met where lexing stands and not
/// followed by another digit, are lexed as one `Float64Literal` token that
/// keeps exactly that text, on that line; lexing goes on right after it.
pub proof fn lemma_lex_float_literal(
    before: Seq<char>,
    d: Seq<char>,
    f: Seq<char>,
    after: Seq<char>,
    line: int,
    acc: Lexed,
)
    requires
        d.len() >= 1,
        forall|k: int| 0 <= k < d.len() ==> is_ascii_digit(#[trigger] d[k]),
        forall|k: int| 0 <= k < f.len() ==> is_ascii_digit(#[trigger] f[k]),
        after.len() == 0 || !is_ascii_digit(after[0]),
        line <= u32::MAX,
    ensures
        ({
            let text = d + seq!['.'] + f;
            let src = before + text + after;
            let p = before.len() as int;
            lex_rest(src, p, line, acc) == lex_rest(
                src,
                p + text.len(),
                line,
                Lexed {
                    tokens: acc.tokens.push(SpecToken { token_type: SpecTokenType::Float64Literal(text), line }),
                    ..acc
                },
            )
        }),
{
    let text = d + seq!['.'] + f;
    let src = before + text + after;
    let p = before.len() as int;
    let m = p + d.len();
    let e = p + text.len();
    assert forall|k: int| p + 1 <= k < m implies is_ascii_digit(#[trigger] src[k]) by {
        assert(src[k] == d[k - p]);
    }
    assert forall|k: int| m + 1 <= k < e implies is_ascii_digit(#[trigger] src[k]) by {
        assert(src[k] == f[k - m - 1]);
    }
    assert(src[m] == '.');
    if e < src.len() {
        assert(src[e] == after[0]);
    }
    lemma_number_end_on_digits(src, m + 1, e, true);
    lemma_number_end_skips_digits(src, p + 1, m);
    assert(src.subrange(p, e) =~= text);
    assert(src[p] == d[0]);
}


/// What each form of statement is read from: a return statement from
/// `return`, its expression and `;`; a declaration from a type name, a
/// name, `=`, its initializer and `;`; an expression statement from its
/// expression alone.
pub proof fn lemma_statement_forms(toks: Seq<Token>, pos: int)
    requires
        0 <= pos,
    ensures
        parse_statement(toks, pos) matches Parsed::Done(SpecStatement::Return(e), q) ==> {
            &&& toks[pos].token_type is Return
            &&& parse_expression(toks, pos + 1) == Parsed::Done(e, q - 1)
            &&& toks[q - 1].token_type is Semicolon
        },
        parse_statement(toks, pos) matches Parsed::Done(SpecStatement::Variable { initializer, .. }, q) ==> {
            &&& toks[pos + 2].token_type is Equals
            &&& initializer is Some
            &&& parse_expression(toks, pos + 3) == Parsed::Done(initializer->0, q - 1)
            &&& toks[q - 1].token_type is Semicolon
        },
        parse_statement(toks, pos) matches Parsed::Done(SpecStatement::Expression(e), q) ==> parse_expression(
            toks,
            pos,
        ) == Parsed::Done(e, q),
{
}

/// Where the `i`-th statement of a block whose `{` stands at `pos` starts,
/// given the positions `ends` right after each statement.
pub open spec fn statement_start(pos: int, ends: Seq<int>, i: int) -> int {
    if i == 0 {
        pos + 1
    } else {
        ends[i - 1]
    }
}

proof fn lemma_block_rest_reads(toks: Seq<Token>, pos: int, ends: Seq<int>, stmts: Seq<SpecStatement>, k: int)
    requires
        0 <= pos,
        stmts.len() == ends.len(),
        0 <= k <= stmts.len(),
        forall|i: int| 0 <= i < stmts.len() ==> parse_statement(toks, statement_start(pos, ends, i)) == Parsed::Done(
            #[trigger] stmts[i],
            ends[i],
        ),
        check(toks, statement_start(pos, ends, stmts.len() as int), TokenType::RightBrace),
    ensures
        crate::syntax::block_rest(toks, statement_start(pos, ends, k), stmts.take(k)) == Parsed::Done(
            stmts,
            statement_start(pos, ends, stmts.len() as int) + 1,
        ),
    decreases stmts.len() - k,
{
    let n = stmts.len() as int;
    let s = statement_start(pos, ends, k);
    if k < n {
        assert(parse_statement(toks, s) == Parsed::Done(stmts[k], ends[k]));
        assert(!check(toks, s, TokenType::RightBrace));
        assert(stmts.take(k).push(stmts[k]) =~= stmts.take(k + 1));
        lemma_block_rest_reads(toks, pos, ends, stmts, k + 1);
    } else {
        assert(stmts.take(k) =~= stmts);
    }
}

/// A block `{ s1 ... sn }` reads every statement in order: where each `si`
/// is a statement that ends where the next starts, and `}` follows the
/// last, the block has exactly those statements and ends after the `}`.
pub proof fn lemma_block_reads_every_statement(
    toks: Seq<Token>,
    pos: int,
    ends: Seq<int>,
    stmts: Seq<SpecStatement>,
)
    requires
        0 <= pos < toks.len(),
        toks[pos].token_type is LeftBrace,
        stmts.len() == ends.len(),
        forall|i: int| 0 <= i < stmts.len() ==> parse_statement(toks, statement_start(pos, ends, i)) == Parsed::Done(
            #[trigger] stmts[i],
            ends[i],
        ),
        check(toks, statement_start(pos, ends, stmts.len() as int), TokenType::RightBrace),
    ensures
        parse_block(toks, pos) == Parsed::Done(stmts, statement_start(pos, ends, stmts.len() as int) + 1),
{
    lemma_block_rest_reads(toks, pos, ends, stmts, 0);
    assert(stmts.take(0) =~= Seq::<SpecStatement>::empty());
}


/// A literal or a lone identifier is an expression of its own: an integer
/// literal gives its number, a floating-point or string literal its text,
/// `true` and `false` their truth values, and an identifier not followed
/// by `(` its name; each ends right after its token.
pub proof fn lemma_literals_are_expressions(toks: Seq<Token>, pos: int)
    requires
        0 <= pos < toks.len(),
    ensures
        toks[pos].token_type matches TokenType::Int64Literal(n) ==> parse_primary(toks, pos) == Parsed::Done(
            SpecExpression::IntLiteral(n),
            pos + 1,
        ),
        toks[pos].token_type matches TokenType::Float64Literal(s) ==> parse_primary(toks, pos)
            == Parsed::Done(SpecExpression::FloatLiteral(s), pos + 1),
        toks[pos].token_type matches TokenType::StringLiteral(s) ==> parse_primary(toks, pos)
            == Parsed::Done(SpecExpression::StringLiteral(s), pos + 1),
        toks[pos].token_type is True ==> parse_primary(toks, pos) == Parsed::Done(
            SpecExpression::BooleanLiteral(true),
            pos + 1,
        ),
        toks[pos].token_type is False ==> parse_primary(toks, pos) == Parsed::Done(
            SpecExpression::BooleanLiteral(false),
            pos + 1,
        ),
        toks[pos].token_type matches TokenType::Identifier(name) ==> (!(pos + 1 < toks.len()
            && toks[pos + 1].token_type is LeftParenthesis) ==> parse_primary(toks, pos) == Parsed::Done(
            SpecExpression::Identifier(name),
            pos + 1,
        )),
{
}

/// A line break (`\n` or `\r`) in front of a source moves every line of
/// what it yields one further down; a blank (` ` or `\t`) moves nothing.
pub proof fn lemma_one_character_prefix(c: char, src: Seq<char>, line: int)
    requires
        c == '\n' || c == '\r' || c == ' ' || c == '\t',
        lex_rest(seq![c] + src, 0, line, nothing_lexed()) is Some,
    ensures
        lex_rest(src, 0, line, nothing_lexed()) is Some,
        lexed_shifted(
            lex_rest(src, 0, line, nothing_lexed())->0,
            lex_rest(seq![c] + src, 0, line, nothing_lexed())->0,
            if c == '\n' || c == '\r' { 1int } else { 0int },
        ),
{
    let prefix = seq![c];
    assert(prefix.drop_first() =~= Seq::<char>::empty());
    assert(prefix[0] == c);
    assert(line_breaks(prefix.drop_first()) == 0);
    assert(line_breaks(prefix) == if c == '\n' || c == '\r' { 1int } else { 0int });
    lemma_whitespace_prefix_shifts_lines(prefix, src, line);
}


/// The decimal text of a number reads back as that number: it is made of
/// decimal digits, starts with `0` only where it is `0` itself, and the
/// lexer's reading of digits gives the number again.
pub proof fn lemma_decimal_reads_back(n: nat)
    ensures
        crate::text::decimal(n).len() >= 1,
        forall|k: int| 0 <= k < crate::text::decimal(n).len() ==> is_ascii_digit(
            #[trigger] crate::text::decimal(n)[k],
        ),
        crate::text::decimal(n)[0] == '0' ==> n == 0,
        digits_value(crate::text::decimal(n)) == n,
    decreases n,
{
    let d = crate::text::decimal(n);
    if n >= 10 {
        lemma_decimal_reads_back(n / 10);
        let h = crate::text::decimal(n / 10);
        assert(d == h.push(crate::text::digit_char(n % 10)));
        assert(d.drop_last() =~= h);
        assert(d[0] == h[0]);
        assert forall|k: int| 0 <= k < d.len() implies is_ascii_digit(#[trigger] d[k]) by {
            if k < h.len() {
                assert(d[k] == h[k]);
            }
        }
        assert(d.last() == crate::text::digit_char(n % 10));
        assert(crate::lexical::digit_value(crate::text::digit_char(n % 10)) == n % 10);
        assert((n / 10) * 10 + n % 10 == n) by (nonlinear_arith);
        assert(digits_value(d) == digits_value(h) * 10 + crate::lexical::digit_value(d.last()));
    } else {
        assert(d.drop_last() =~= Seq::<char>::empty());
        assert(digits_value(d.drop_last()) == 0);
        assert(d.last() == crate::text::digit_char(n));
        assert(crate::lexical::digit_value(crate::text::digit_char(n)) == n);
        assert(digits_value(d) == digits_value(d.drop_last()) * 10 + crate::lexical::digit_value(d.last()));
    }
}


/// Operators take the longest match: where the next two characters spell a
/// two-character operator (such as `==`, `->` or `+=`), they are read as
/// that one operator.
pub proof fn lemma_two_character_operators(src: Seq<char>, p: int, line: int, t: TokenType)
    requires
        0 <= p,
        p + 2 <= src.len(),
        spelling(t) matches Some(w) && w.len() == 2 && src.subrange(p, p + 2) == w,
    ensures
        scan_token(src, p, line) == (Step::Emit(SpecTokenType::Plain(t)), p + 2),
{
    let w = spelling(t)->0;
    assert(src[p] == src.subrange(p, p + 2)[0]);
    assert(src[p + 1] == src.subrange(p, p + 2)[1]);
    reveal_strlit("let");
    reveal_strlit("return");
    reveal_strlit("true");
    reveal_strlit("false");
    reveal_strlit("void");
    reveal_strlit("bool");
    reveal_strlit("char");
    reveal_strlit("int8");
    reveal_strlit("int16");
    reveal_strlit("int32");
    reveal_strlit("int64");
    reveal_strlit("uint8");
    reveal_strlit("uint16");
    reveal_strlit("uint32");
    reveal_strlit("uint64");
    reveal_strlit("float32");
    reveal_strlit("float64");
    reveal_strlit("string");
}

} // verus!
