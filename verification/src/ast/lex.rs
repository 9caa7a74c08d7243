//! The lexer: from the bytes of a source to its tokens.
//!
//! A place where no token begins is reported and passed over, so that one
//! run reports every such place.
use crate::diag::{diagnostics_view, Diagnostic, DiagnosticV, Problem};
use crate::number::{
    abs, digits, fraction_text, number_text, padded, signed, whole_text, Number, PLACES, SCALE,
};
use crate::types::{ascii, tokens_view, Keyword, Span, Symbol, Tkn, TknV, Token, TokenV};
use vstd::prelude::*;

verus! {

/// The tab.
pub const TAB: u8 = '\t' as u8;

/// The line feed.
pub const LINE_FEED: u8 = '\n' as u8;

/// The carriage return.
pub const CARRIAGE_RETURN: u8 = '\r' as u8;

/// The space.
pub const SPACE: u8 = ' ' as u8;

/// The double quote.
pub const QUOTE: u8 = '"' as u8;

/// The `*`.
pub const STAR: u8 = '*' as u8;

/// The `-`.
pub const MINUS: u8 = '-' as u8;

/// The `.`.
pub const DOT: u8 = '.' as u8;

/// The `/`.
pub const SLASH: u8 = '/' as u8;

/// The digit `0`.
pub const ZERO: u8 = '0' as u8;

/// The largest whole part that a number can have.
pub const WHOLE_LIMIT: u128 = 170141183460469231731687303715;

/// Whether the byte is a decimal digit.
pub open spec fn is_digit(b: u8) -> bool {
    '0' as u8 <= b <= '9' as u8
}

/// Whether the byte can begin a word: a letter or `_`.
pub open spec fn is_word_start(b: u8) -> bool {
    ('A' as u8 <= b <= 'Z' as u8) || ('a' as u8 <= b <= 'z' as u8) || b == '_' as u8
}

/// Whether the byte can go on a word: a letter, `_` or a digit.
pub open spec fn is_word_part(b: u8) -> bool {
    is_word_start(b) || is_digit(b)
}

/// Whether the byte is white space inside a line.
pub open spec fn is_blank(b: u8) -> bool {
    b == SPACE || b == TAB
}

/// Whether the byte goes on a character of more than one byte.
pub open spec fn is_continuation(b: u8) -> bool {
    128 <= b <= 191
}

/// The byte at `i`, or -1 past the end.
pub open spec fn byte_at(s: Seq<u8>, i: int) -> int {
    if 0 <= i < s.len() {
        s[i] as int
    } else {
        -1
    }
}

/// Whether a digit stands at `i`.
pub open spec fn digit_at(s: Seq<u8>, i: int) -> bool {
    0 <= i < s.len() && is_digit(s[i])
}

/// Where the digits that begin at `pos` end.
pub open spec fn digits_end(s: Seq<u8>, pos: int) -> int
    decreases s.len() - pos,
{
    if 0 <= pos < s.len() && is_digit(s[pos]) {
        digits_end(s, pos + 1)
    } else {
        pos
    }
}

/// Where the word that goes on at `pos` ends.
pub open spec fn word_end(s: Seq<u8>, pos: int) -> int
    decreases s.len() - pos,
{
    if 0 <= pos < s.len() && is_word_part(s[pos]) {
        word_end(s, pos + 1)
    } else {
        pos
    }
}

/// Where the line that goes on at `pos` ends: at its line feed, or at the end
/// of the source.
pub open spec fn line_end(s: Seq<u8>, pos: int) -> int
    decreases s.len() - pos,
{
    if 0 <= pos < s.len() && s[pos] != LINE_FEED {
        line_end(s, pos + 1)
    } else {
        pos
    }
}

/// Where the character whose later bytes begin at `pos` ends.
pub open spec fn character_end(s: Seq<u8>, pos: int) -> int
    decreases s.len() - pos,
{
    if 0 <= pos < s.len() && is_continuation(s[pos]) {
        character_end(s, pos + 1)
    } else {
        pos
    }
}

/// The place of the first quote from `pos` on.
pub open spec fn quote_from(s: Seq<u8>, pos: int) -> Option<int>
    decreases s.len() - pos,
{
    if pos < 0 || pos >= s.len() {
        None
    } else if s[pos] == QUOTE {
        Some(pos)
    } else {
        quote_from(s, pos + 1)
    }
}

/// The place after the first `*/` from `pos` on.
pub open spec fn comment_close(s: Seq<u8>, pos: int) -> Option<int>
    decreases s.len() - pos,
{
    if pos < 0 || pos + 1 >= s.len() {
        None
    } else if s[pos] == STAR && s[pos + 1] == SLASH {
        Some(pos + 2)
    } else {
        comment_close(s, pos + 1)
    }
}

/// The number that decimal digits stand for.
pub open spec fn digits_value(s: Seq<u8>) -> nat
    decreases s.len(),
{
    if s.len() == 0 {
        0
    } else {
        (digits_value(s.drop_last()) * 10 + (s.last() - ZERO)) as nat
    }
}

/// The number that the first `k` places of a fraction's digits stand for,
/// with zeros where the digits end before.
pub open spec fn places_value(s: Seq<u8>, k: nat) -> nat
    decreases k,
{
    if k == 0 {
        0
    } else {
        let d = if k - 1 < s.len() {
            s[k - 1] - ZERO
        } else {
            0
        };
        (places_value(s, (k - 1) as nat) * 10 + d) as nat
    }
}

/// The token that a word is: a keyword, a boolean, `and`, `or`, or else an
/// identifier.
pub open spec fn word_token(w: Seq<u8>) -> TknV {
    if w == ascii("let"@) {
        TknV::Keyword(Keyword::Let)
    } else if w == ascii("fn"@) {
        TknV::Keyword(Keyword::Fn)
    } else if w == ascii("return"@) {
        TknV::Keyword(Keyword::Return)
    } else if w == ascii("if"@) {
        TknV::Keyword(Keyword::If)
    } else if w == ascii("else"@) {
        TknV::Keyword(Keyword::Else)
    } else if w == ascii("while"@) {
        TknV::Keyword(Keyword::While)
    } else if w == ascii("true"@) {
        TknV::Bool(true)
    } else if w == ascii("false"@) {
        TknV::Bool(false)
    } else if w == ascii("and"@) {
        TknV::Symbol(Symbol::And)
    } else if w == ascii("or"@) {
        TknV::Symbol(Symbol::Or)
    } else {
        TknV::Identifier(w)
    }
}

/// The symbol that two bytes make together.
pub open spec fn pair_symbol(a: u8, b: int) -> Option<Symbol> {
    if a == '<' as u8 && b == '=' as u8 {
        Some(Symbol::LessEq)
    } else if a == '>' as u8 && b == '=' as u8 {
        Some(Symbol::GreaterEq)
    } else if a == '=' as u8 && b == '=' as u8 {
        Some(Symbol::EqEq)
    } else if a == '!' as u8 && b == '=' as u8 {
        Some(Symbol::NotEq)
    } else if a == '&' as u8 && b == '&' as u8 {
        Some(Symbol::And)
    } else if a == '|' as u8 && b == '|' as u8 {
        Some(Symbol::Or)
    } else if a == '+' as u8 && b == '+' as u8 {
        Some(Symbol::PlusPlus)
    } else if a == '-' as u8 && b == '-' as u8 {
        Some(Symbol::MinusMinus)
    } else {
        None
    }
}

/// The symbol that one byte makes.
pub open spec fn single_symbol(a: u8) -> Option<Symbol> {
    if a == '+' as u8 {
        Some(Symbol::Plus)
    } else if a == '-' as u8 {
        Some(Symbol::Minus)
    } else if a == '*' as u8 {
        Some(Symbol::Star)
    } else if a == '/' as u8 {
        Some(Symbol::Slash)
    } else if a == '%' as u8 {
        Some(Symbol::Percent)
    } else if a == '!' as u8 {
        Some(Symbol::Bang)
    } else if a == '<' as u8 {
        Some(Symbol::Less)
    } else if a == '>' as u8 {
        Some(Symbol::Greater)
    } else if a == '=' as u8 {
        Some(Symbol::Assign)
    } else if a == '&' as u8 {
        Some(Symbol::Amp)
    } else if a == '|' as u8 {
        Some(Symbol::Pipe)
    } else if a == ',' as u8 {
        Some(Symbol::Comma)
    } else if a == '.' as u8 {
        Some(Symbol::Dot)
    } else if a == ':' as u8 {
        Some(Symbol::Colon)
    } else if a == ';' as u8 {
        Some(Symbol::Semicolon)
    } else if a == '#' as u8 {
        Some(Symbol::Hash)
    } else if a == '\\' as u8 {
        Some(Symbol::Backslash)
    } else if a == '\'' as u8 {
        Some(Symbol::Apostrophe)
    } else {
        None
    }
}

/// Whether the byte is a delimiter.
pub open spec fn is_delimiter(b: u8) -> bool {
    b == '(' as u8 || b == ')' as u8 || b == '[' as u8 || b == ']' as u8 || b == '{' as u8 || b == '}' as u8
}

/// What the lexer finds at a place.
pub ghost enum Scan {
    Token(TknV),
    Skip,
    Bad(Problem),
}

/// What the lexer finds at a place, and where that ends.
pub ghost struct Scanned {
    pub what: Scan,
    pub end: int,
}

/// The numeric literal whose digits begin at `from`: digits, and after them,
/// where a `.` and a digit follow, the digits of a fraction.
pub open spec fn number_at(s: Seq<u8>, negative: bool, from: int) -> Scanned {
    let whole_end = digits_end(s, from);
    let fraction = byte_at(s, whole_end) == DOT && digit_at(s, whole_end + 1);
    let end = if fraction {
        digits_end(s, whole_end + 1)
    } else {
        whole_end
    };
    let whole = digits_value(s.subrange(from, whole_end));
    let part = if fraction {
        places_value(s.subrange(whole_end + 1, end), PLACES as nat)
    } else {
        0
    };
    let magnitude = whole * SCALE + part;
    if magnitude > i128::MAX {
        Scanned { what: Scan::Bad(Problem::NumberOutOfRange), end }
    } else {
        Scanned { what: Scan::Token(TknV::Number(signed(negative, magnitude))), end }
    }
}

/// What the lexer finds at `pos`, which is a place in the source.
///
/// In this order: white space and comments, which are passed over; a line
/// end; a number, to which a `-` directly before its first digit belongs; a
/// string, from one quote to the next; a word; a symbol of two bytes, then of
/// one; a delimiter. Anything else is one unexpected character.
pub open spec fn scan(s: Seq<u8>, pos: int) -> Scanned {
    let b = s[pos];
    let next = byte_at(s, pos + 1);
    if is_blank(b) {
        Scanned { what: Scan::Skip, end: pos + 1 }
    } else if b == SLASH && next == SLASH {
        Scanned { what: Scan::Skip, end: line_end(s, pos + 2) }
    } else if b == SLASH && next == STAR {
        match comment_close(s, pos + 2) {
            Some(e) => Scanned { what: Scan::Skip, end: e },
            None => Scanned { what: Scan::Bad(Problem::UnterminatedComment), end: s.len() as int },
        }
    } else if b == CARRIAGE_RETURN && next == LINE_FEED {
        Scanned { what: Scan::Token(TknV::Newline), end: pos + 2 }
    } else if b == LINE_FEED || b == CARRIAGE_RETURN {
        Scanned { what: Scan::Token(TknV::Newline), end: pos + 1 }
    } else if is_digit(b) {
        number_at(s, false, pos)
    } else if b == MINUS && digit_at(s, pos + 1) {
        number_at(s, true, pos + 1)
    } else if b == QUOTE {
        match quote_from(s, pos + 1) {
            Some(q) => Scanned { what: Scan::Token(TknV::Str(s.subrange(pos + 1, q))), end: q + 1 },
            None => Scanned { what: Scan::Bad(Problem::UnterminatedString), end: s.len() as int },
        }
    } else if is_word_start(b) {
        let e = word_end(s, pos + 1);
        Scanned { what: Scan::Token(word_token(s.subrange(pos, e))), end: e }
    } else if pair_symbol(b, next) is Some {
        Scanned { what: Scan::Token(TknV::Symbol(pair_symbol(b, next).unwrap())), end: pos + 2 }
    } else if single_symbol(b) is Some {
        Scanned { what: Scan::Token(TknV::Symbol(single_symbol(b).unwrap())), end: pos + 1 }
    } else if is_delimiter(b) {
        Scanned { what: Scan::Token(TknV::Delimiter(b as char)), end: pos + 1 }
    } else {
        Scanned { what: Scan::Bad(Problem::UnexpectedCharacter), end: character_end(s, pos + 1) }
    }
}

/// Tokens and the errors found beside them.
pub ghost struct Lexed {
    pub tokens: Seq<TokenV>,
    pub errors: Seq<DiagnosticV>,
}

/// The span from `start` to `end`.
pub open spec fn span_of(start: int, end: int) -> Span {
    Span { start: start as usize, end: end as usize }
}

/// What is lexed from `pos` on, after what was lexed before.
pub open spec fn lexed_from(s: Seq<u8>, pos: int, acc: Lexed) -> Lexed
    decreases s.len() - pos,
{
    if pos < 0 || pos >= s.len() {
        acc
    } else {
        let found = scan(s, pos);
        if found.end <= pos || found.end > s.len() {
            acc
        } else {
            match found.what {
                Scan::Token(t) => lexed_from(
                    s,
                    found.end,
                    Lexed {
                        tokens: acc.tokens.push(TokenV { tkn: t, span: span_of(pos, found.end) }),
                        errors: acc.errors,
                    },
                ),
                Scan::Skip => lexed_from(s, found.end, acc),
                Scan::Bad(p) => lexed_from(
                    s,
                    found.end,
                    Lexed {
                        tokens: acc.tokens,
                        errors: acc.errors.push(
                            DiagnosticV {
                                problem: p,
                                span: span_of(pos, found.end),
                                contexts: Seq::empty(),
                            },
                        ),
                    },
                ),
            }
        }
    }
}

/// The tokens of a source in their order, and its lexical errors in theirs.
pub open spec fn lexed(s: Seq<u8>) -> Lexed {
    lexed_from(s, 0, Lexed { tokens: Seq::empty(), errors: Seq::empty() })
}

/// Whether the tokens stand in the order of the source up to `upto`: each
/// covers at least one byte and ends no later than `upto`, and each begins no
/// earlier than the one before it ends.
pub open spec fn in_order(tokens: Seq<TokenV>, upto: int) -> bool {
    &&& forall|i: int|
        0 <= i < tokens.len() ==> (#[trigger] tokens[i]).span.start < tokens[i].span.end <= upto
    &&& forall|i: int, j: int|
        0 <= i < j < tokens.len() ==> (#[trigger] tokens[i]).span.end <= (
        #[trigger] tokens[j]).span.start
}

/// Whether each error covers at least one byte and ends no later than
/// `upto`.
pub open spec fn inside(errors: Seq<DiagnosticV>, upto: int) -> bool {
    forall|i: int|
        0 <= i < errors.len() ==> (#[trigger] errors[i]).span.start < errors[i].span.end <= upto
}

/// Lexing adds tokens in the order of the source.
proof fn lemma_lexed_from_in_order(s: Seq<u8>, pos: int, acc: Lexed)
    requires
        0 <= pos <= s.len() <= usize::MAX,
        in_order(acc.tokens, pos),
        inside(acc.errors, pos),
    ensures
        in_order(lexed_from(s, pos, acc).tokens, s.len() as int),
        inside(lexed_from(s, pos, acc).errors, s.len() as int),
    decreases s.len() - pos,
{
    if pos < s.len() {
        let found = scan(s, pos);
        if found.end <= pos || found.end > s.len() {
        } else {
            match found.what {
                Scan::Token(t) => {
                    let next = Lexed {
                        tokens: acc.tokens.push(TokenV { tkn: t, span: span_of(pos, found.end) }),
                        errors: acc.errors,
                    };
                    lemma_lexed_from_in_order(s, found.end, next);
                },
                Scan::Skip => {
                    lemma_lexed_from_in_order(s, found.end, acc);
                },
                Scan::Bad(p) => {
                    let next = Lexed {
                        tokens: acc.tokens,
                        errors: acc.errors.push(
                            DiagnosticV {
                                problem: p,
                                span: span_of(pos, found.end),
                                contexts: Seq::empty(),
                            },
                        ),
                    };
                    lemma_lexed_from_in_order(s, found.end, next);
                },
            }
        }
    }
}

/// The tokens of a source stand in its order: each covers at least one byte
/// of the source, and each begins no earlier than the one before it ends.
/// Each error, too, covers at least one byte of the source.
pub proof fn lemma_tokens_in_order(s: Seq<u8>)
    requires
        s.len() <= usize::MAX,
    ensures
        in_order(lexed(s).tokens, s.len() as int),
        inside(lexed(s).errors, s.len() as int),
{
    lemma_lexed_from_in_order(s, 0, Lexed { tokens: Seq::empty(), errors: Seq::empty() });
}

/// Ten to the power of `k`.
pub open spec fn pow10(k: nat) -> nat
    decreases k,
{
    if k == 0 {
        1
    } else {
        10 * pow10((k - 1) as nat)
    }
}

proof fn lemma_pow10_values()
    ensures
        pow10(0) == 1,
        pow10(1) == 10,
        pow10(2) == 100,
        pow10(3) == 1_000,
        pow10(4) == 10_000,
        pow10(5) == 100_000,
        pow10(6) == 1_000_000,
        pow10(7) == 10_000_000,
        pow10(8) == 100_000_000,
        pow10(9) == 1_000_000_000,
{
    reveal_with_fuel(pow10, 11);
}

/// The digits of a number's start stand for no more than all its digits.
proof fn lemma_digits_monotone(s: Seq<u8>, k: int)
    requires
        0 <= k <= s.len(),
        forall|i: int| 0 <= i < s.len() ==> is_digit(s[i]),
    ensures
        digits_value(s.subrange(0, k)) <= digits_value(s),
    decreases s.len() - k,
{
    if k == s.len() {
        assert(s.subrange(0, k) =~= s);
    } else {
        lemma_digits_monotone(s, k + 1);
        assert(s.subrange(0, k + 1).drop_last() =~= s.subrange(0, k));
    }
}

/// Digits end no earlier than they begin.
proof fn lemma_digits_end_bounds(s: Seq<u8>, pos: int)
    requires
        0 <= pos <= s.len(),
    ensures
        pos <= digits_end(s, pos) <= s.len(),
    decreases s.len() - pos,
{
    if pos < s.len() && is_digit(s[pos]) {
        lemma_digits_end_bounds(s, pos + 1);
    }
}

/// What the lexer finds at a place.
#[derive(Debug, PartialEq)]
pub enum Found {
    Token(Tkn),
    Skip,
    Bad(Problem),
}

impl View for Found {
    type V = Scan;

    open spec fn view(&self) -> Scan {
        match self {
            Found::Token(t) => Scan::Token(t@),
            Found::Skip => Scan::Skip,
            Found::Bad(p) => Scan::Bad(*p),
        }
    }
}

/// Whether the byte is a decimal digit.
pub(crate) fn digit(b: u8) -> (r: bool)
    ensures
        r == is_digit(b),
{
    '0' as u8 <= b && b <= '9' as u8
}

/// Whether the byte can begin a word.
pub(crate) fn word_start(b: u8) -> (r: bool)
    ensures
        r == is_word_start(b),
{
    ('A' as u8 <= b && b <= 'Z' as u8) || ('a' as u8 <= b && b <= 'z' as u8) || b == '_' as u8
}

/// Where the digits that begin at `pos` end.
fn scan_digits(s: &[u8], pos: usize) -> (e: usize)
    requires
        pos <= s.len(),
    ensures
        e == digits_end(s@, pos as int),
        pos <= e <= s.len(),
        forall|i: int| pos <= i < e ==> is_digit(s@[i]),
{
    let mut e = pos;
    while e < s.len() && digit(s[e])
        invariant
            pos <= e <= s.len(),
            digits_end(s@, pos as int) == digits_end(s@, e as int),
            forall|i: int| pos <= i < e ==> is_digit(s@[i]),
        decreases s.len() - e,
    {
        e = e + 1;
    }
    e
}

/// Where the word that goes on at `pos` ends.
fn scan_word(s: &[u8], pos: usize) -> (e: usize)
    requires
        pos <= s.len(),
    ensures
        e == word_end(s@, pos as int),
        pos <= e <= s.len(),
{
    let mut e = pos;
    while e < s.len() && (word_start(s[e]) || digit(s[e]))
        invariant
            pos <= e <= s.len(),
            word_end(s@, pos as int) == word_end(s@, e as int),
        decreases s.len() - e,
    {
        e = e + 1;
    }
    e
}

/// Where the line that goes on at `pos` ends.
fn scan_line(s: &[u8], pos: usize) -> (e: usize)
    requires
        pos <= s.len(),
    ensures
        e == line_end(s@, pos as int),
        pos <= e <= s.len(),
{
    let mut e = pos;
    while e < s.len() && s[e] != LINE_FEED
        invariant
            pos <= e <= s.len(),
            line_end(s@, pos as int) == line_end(s@, e as int),
        decreases s.len() - e,
    {
        e = e + 1;
    }
    e
}

/// Where the character whose later bytes begin at `pos` ends.
fn scan_character(s: &[u8], pos: usize) -> (e: usize)
    requires
        pos <= s.len(),
    ensures
        e == character_end(s@, pos as int),
        pos <= e <= s.len(),
{
    let mut e = pos;
    while e < s.len() && 128 <= s[e] && s[e] <= 191
        invariant
            pos <= e <= s.len(),
            character_end(s@, pos as int) == character_end(s@, e as int),
        decreases s.len() - e,
    {
        e = e + 1;
    }
    e
}

/// The place of the first quote from `pos` on.
fn find_quote(s: &[u8], pos: usize) -> (r: Option<usize>)
    requires
        pos <= s.len(),
    ensures
        r matches Some(q) ==> quote_from(s@, pos as int) == Some(q as int) && pos <= q < s.len(),
        r is None ==> quote_from(s@, pos as int) is None,
{
    let mut q = pos;
    while q < s.len()
        invariant
            pos <= q <= s.len(),
            quote_from(s@, pos as int) == quote_from(s@, q as int),
        decreases s.len() - q,
    {
        if s[q] == QUOTE {
            return Some(q);
        }
        q = q + 1;
    }
    None
}

/// The place after the first `*/` from `pos` on.
fn find_comment_close(s: &[u8], pos: usize) -> (r: Option<usize>)
    requires
        pos <= s.len(),
    ensures
        r matches Some(e) ==> comment_close(s@, pos as int) == Some(e as int) && pos + 2 <= e
            <= s.len(),
        r is None ==> comment_close(s@, pos as int) is None,
{
    let mut q = pos;
    while q < s.len() && q + 1 < s.len()
        invariant
            pos <= q <= s.len(),
            comment_close(s@, pos as int) == comment_close(s@, q as int),
        decreases s.len() - q,
    {
        if s[q] == STAR && s[q + 1] == SLASH {
            return Some(q + 2);
        }
        q = q + 1;
    }
    None
}

/// The bytes from `from` up to `to`.
pub(crate) fn slice_copy(s: &[u8], from: usize, to: usize) -> (r: Vec<u8>)
    requires
        from <= to <= s.len(),
    ensures
        r@ == s@.subrange(from as int, to as int),
{
    let mut r: Vec<u8> = Vec::new();
    let mut i = from;
    while i < to
        invariant
            from <= i <= to,
            to <= s.len(),
            r@ == s@.subrange(from as int, i as int),
        decreases to - i,
    {
        r.push(s[i]);
        i = i + 1;
        assert(r@ =~= s@.subrange(from as int, i as int));
    }
    r
}

/// Whether the bytes from `from` up to `to` spell the word.
fn spells(s: &[u8], from: usize, to: usize, word: &str) -> (r: bool)
    requires
        from <= to <= s.len(),
        word.is_ascii(),
    ensures
        r == (s@.subrange(from as int, to as int) == ascii(word@)),
{
    broadcast use vstd::string::is_ascii_spec_bytes;

    let w = word.as_bytes();
    assert(w@ =~= ascii(word@));
    if w.len() != to - from {
        return false;
    }
    let mut i: usize = 0;
    while i < w.len()
        invariant
            i <= w.len(),
            w.len() == to - from,
            from <= to <= s.len(),
            w@ == ascii(word@),
            forall|j: int| 0 <= j < i ==> s@[from + j] == w@[j],
        decreases w.len() - i,
    {
        if s[from + i] != w[i] {
            assert(s@.subrange(from as int, to as int)[i as int] != ascii(word@)[i as int]);
            return false;
        }
        i = i + 1;
    }
    assert(s@.subrange(from as int, to as int) =~= ascii(word@));
    true
}

/// The token that the word from `from` up to `to` is.
fn classify(s: &[u8], from: usize, to: usize) -> (r: Tkn)
    requires
        from <= to <= s.len(),
    ensures
        r@ == word_token(s@.subrange(from as int, to as int)),
{
    proof {
        reveal_strlit("let");
        reveal_strlit("fn");
        reveal_strlit("return");
        reveal_strlit("if");
        reveal_strlit("else");
        reveal_strlit("while");
        reveal_strlit("true");
        reveal_strlit("false");
        reveal_strlit("and");
        reveal_strlit("or");
    }
    if spells(s, from, to, "let") {
        Tkn::Keyword(Keyword::Let)
    } else if spells(s, from, to, "fn") {
        Tkn::Keyword(Keyword::Fn)
    } else if spells(s, from, to, "return") {
        Tkn::Keyword(Keyword::Return)
    } else if spells(s, from, to, "if") {
        Tkn::Keyword(Keyword::If)
    } else if spells(s, from, to, "else") {
        Tkn::Keyword(Keyword::Else)
    } else if spells(s, from, to, "while") {
        Tkn::Keyword(Keyword::While)
    } else if spells(s, from, to, "true") {
        Tkn::Bool(true)
    } else if spells(s, from, to, "false") {
        Tkn::Bool(false)
    } else if spells(s, from, to, "and") {
        Tkn::Symbol(Symbol::And)
    } else if spells(s, from, to, "or") {
        Tkn::Symbol(Symbol::Or)
    } else {
        Tkn::Identifier(slice_copy(s, from, to))
    }
}

/// The number that the digits from `from` up to `to` stand for, where it is
/// no more than the largest whole part.
fn value_of_digits(s: &[u8], from: usize, to: usize) -> (r: Option<u128>)
    requires
        from <= to <= s.len(),
        forall|i: int| from <= i < to ==> is_digit(s@[i]),
    ensures
        r matches Some(v) ==> v == digits_value(s@.subrange(from as int, to as int)) && v
            <= WHOLE_LIMIT,
        r is None ==> digits_value(s@.subrange(from as int, to as int)) > WHOLE_LIMIT,
{
    let ghost all = s@.subrange(from as int, to as int);
    let mut v: u128 = 0;
    let mut i = from;
    assert(all.subrange(0, 0) =~= Seq::<u8>::empty());
    while i < to
        invariant
            from <= i <= to,
            to <= s.len(),
            all == s@.subrange(from as int, to as int),
            forall|j: int| from <= j < to ==> is_digit(s@[j]),
            v == digits_value(all.subrange(0, i - from)),
            v <= WHOLE_LIMIT,
        decreases to - i,
    {
        let d = (s[i] - ZERO) as u128;
        assert(all.subrange(0, i + 1 - from).drop_last() =~= all.subrange(0, i - from));
        assert(all.subrange(0, i + 1 - from).last() == s@[i as int]);
        v = v * 10 + d;
        i = i + 1;
        if v > WHOLE_LIMIT {
            proof {
                lemma_digits_monotone(all, i - from);
            }
            return None;
        }
    }
    assert(all.subrange(0, to - from) =~= all);
    Some(v)
}

/// The number that the first places of the fraction's digits, which go from
/// `from` up to `to`, stand for.
fn value_of_places(s: &[u8], from: usize, to: usize) -> (r: u128)
    requires
        from <= to <= s.len(),
        forall|i: int| from <= i < to ==> is_digit(s@[i]),
    ensures
        r == places_value(s@.subrange(from as int, to as int), PLACES as nat),
        r < SCALE,
{
    let ghost all = s@.subrange(from as int, to as int);
    let mut v: u128 = 0;
    let mut k: usize = 0;
    while k < PLACES
        invariant
            k <= PLACES,
            from <= to <= s.len(),
            all == s@.subrange(from as int, to as int),
            forall|j: int| from <= j < to ==> is_digit(s@[j]),
            v == places_value(all, k as nat),
            v < pow10(k as nat),
        decreases PLACES - k,
    {
        proof {
            lemma_pow10_values();
        }
        let d = if k < to - from {
            (s[from + k] - ZERO) as u128
        } else {
            0
        };
        v = v * 10 + d;
        k = k + 1;
    }
    proof {
        lemma_pow10_values();
    }
    v
}

/// The numeric literal whose digits begin at `from`.
fn scan_number(s: &[u8], negative: bool, from: usize) -> (r: (Found, usize))
    requires
        from < s.len(),
        is_digit(s@[from as int]),
    ensures
        r.0@ == number_at(s@, negative, from as int).what,
        r.1 == number_at(s@, negative, from as int).end,
        from < r.1 <= s.len(),
{
    let whole_end = scan_digits(s, from);
    proof {
        lemma_digits_end_bounds(s@, from + 1);
    }
    let fraction = whole_end < s.len() && s[whole_end] == DOT && whole_end + 1 < s.len() && digit(
        s[whole_end + 1],
    );
    let end = if fraction {
        scan_digits(s, whole_end + 1)
    } else {
        whole_end
    };
    let part = if fraction {
        value_of_places(s, whole_end + 1, end)
    } else {
        0
    };
    match value_of_digits(s, from, whole_end) {
        None => (Found::Bad(Problem::NumberOutOfRange), end),
        Some(whole) => {
            let magnitude = whole * (SCALE as u128) + part;
            if magnitude > 0x7fff_ffff_ffff_ffff_ffff_ffff_ffff_ffffu128 {
                (Found::Bad(Problem::NumberOutOfRange), end)
            } else {
                let m = magnitude as i128;
                let raw = if negative {
                    -m
                } else {
                    m
                };
                (Found::Token(Tkn::Number(Number { raw })), end)
            }
        },
    }
}

/// The symbol that two bytes make together.
fn pair(a: u8, b: u8) -> (r: Option<Symbol>)
    ensures
        r == pair_symbol(a, b as int),
{
    if a == '<' as u8 && b == '=' as u8 {
        Some(Symbol::LessEq)
    } else if a == '>' as u8 && b == '=' as u8 {
        Some(Symbol::GreaterEq)
    } else if a == '=' as u8 && b == '=' as u8 {
        Some(Symbol::EqEq)
    } else if a == '!' as u8 && b == '=' as u8 {
        Some(Symbol::NotEq)
    } else if a == '&' as u8 && b == '&' as u8 {
        Some(Symbol::And)
    } else if a == '|' as u8 && b == '|' as u8 {
        Some(Symbol::Or)
    } else if a == '+' as u8 && b == '+' as u8 {
        Some(Symbol::PlusPlus)
    } else if a == '-' as u8 && b == '-' as u8 {
        Some(Symbol::MinusMinus)
    } else {
        None
    }
}

/// The symbol that one byte makes.
fn single(a: u8) -> (r: Option<Symbol>)
    ensures
        r == single_symbol(a),
{
    if a == '+' as u8 {
        Some(Symbol::Plus)
    } else if a == '-' as u8 {
        Some(Symbol::Minus)
    } else if a == '*' as u8 {
        Some(Symbol::Star)
    } else if a == '/' as u8 {
        Some(Symbol::Slash)
    } else if a == '%' as u8 {
        Some(Symbol::Percent)
    } else if a == '!' as u8 {
        Some(Symbol::Bang)
    } else if a == '<' as u8 {
        Some(Symbol::Less)
    } else if a == '>' as u8 {
        Some(Symbol::Greater)
    } else if a == '=' as u8 {
        Some(Symbol::Assign)
    } else if a == '&' as u8 {
        Some(Symbol::Amp)
    } else if a == '|' as u8 {
        Some(Symbol::Pipe)
    } else if a == ',' as u8 {
        Some(Symbol::Comma)
    } else if a == '.' as u8 {
        Some(Symbol::Dot)
    } else if a == ':' as u8 {
        Some(Symbol::Colon)
    } else if a == ';' as u8 {
        Some(Symbol::Semicolon)
    } else if a == '#' as u8 {
        Some(Symbol::Hash)
    } else if a == '\\' as u8 {
        Some(Symbol::Backslash)
    } else if a == '\'' as u8 {
        Some(Symbol::Apostrophe)
    } else {
        None
    }
}

/// What stands at `pos` where no white space, line end, number, string or
/// word begins: a symbol, a delimiter, or an unexpected character.
fn scan_mark(s: &[u8], pos: usize) -> (r: (Found, usize))
    requires
        pos < s.len(),
        !is_blank(s@[pos as int]),
        !(s@[pos as int] == SLASH && (byte_at(s@, pos + 1) == SLASH || byte_at(s@, pos + 1)
            == STAR)),
        s@[pos as int] != LINE_FEED && s@[pos as int] != CARRIAGE_RETURN,
        !is_digit(s@[pos as int]),
        !(s@[pos as int] == MINUS && digit_at(s@, pos + 1)),
        s@[pos as int] != QUOTE,
        !is_word_start(s@[pos as int]),
    ensures
        r.0@ == scan(s@, pos as int).what,
        r.1 == scan(s@, pos as int).end,
        pos < r.1 <= s.len(),
{
    let b = s[pos];
    if pos + 1 < s.len() {
        match pair(b, s[pos + 1]) {
            Some(sym) => {
                return (Found::Token(Tkn::Symbol(sym)), pos + 2);
            },
            None => {},
        }
    }
    match single(b) {
        Some(sym) => (Found::Token(Tkn::Symbol(sym)), pos + 1),
        None => {
            if b == '(' as u8 || b == ')' as u8 || b == '[' as u8 || b == ']' as u8 || b == '{' as u8 || b == '}' as u8 {
                (Found::Token(Tkn::Delimiter(b as char)), pos + 1)
            } else {
                (Found::Bad(Problem::UnexpectedCharacter), scan_character(s, pos + 1))
            }
        },
    }
}

/// What the lexer finds at `pos`, and where that ends.
pub fn scan_at(s: &[u8], pos: usize) -> (r: (Found, usize))
    requires
        pos < s.len(),
    ensures
        r.0@ == scan(s@, pos as int).what,
        r.1 == scan(s@, pos as int).end,
        pos < r.1 <= s.len(),
{
    let b = s[pos];
    let more = pos + 1 < s.len();
    if b == SPACE || b == TAB {
        (Found::Skip, pos + 1)
    } else if b == SLASH && more && s[pos + 1] == SLASH {
        (Found::Skip, scan_line(s, pos + 2))
    } else if b == SLASH && more && s[pos + 1] == STAR {
        match find_comment_close(s, pos + 2) {
            Some(e) => (Found::Skip, e),
            None => (Found::Bad(Problem::UnterminatedComment), s.len()),
        }
    } else if b == CARRIAGE_RETURN && more && s[pos + 1] == LINE_FEED {
        (Found::Token(Tkn::Newline), pos + 2)
    } else if b == LINE_FEED || b == CARRIAGE_RETURN {
        (Found::Token(Tkn::Newline), pos + 1)
    } else if digit(b) {
        scan_number(s, false, pos)
    } else if b == MINUS && more && digit(s[pos + 1]) {
        scan_number(s, true, pos + 1)
    } else if b == QUOTE {
        match find_quote(s, pos + 1) {
            Some(q) => (Found::Token(Tkn::Str(slice_copy(s, pos + 1, q))), q + 1),
            None => (Found::Bad(Problem::UnterminatedString), s.len()),
        }
    } else if word_start(b) {
        let e = scan_word(s, pos + 1);
        (Found::Token(classify(s, pos, e)), e)
    } else {
        scan_mark(s, pos)
    }
}

/// The tokens of a source in their order, and its lexical errors in theirs.
pub fn lex(source: &[u8]) -> (r: (Vec<Token>, Vec<Diagnostic>))
    ensures
        tokens_view(r.0@) == lexed(source@).tokens,
        diagnostics_view(r.1@) == lexed(source@).errors,
{
    let mut tokens: Vec<Token> = Vec::new();
    let mut errors: Vec<Diagnostic> = Vec::new();
    let mut pos: usize = 0;
    assert(tokens_view(tokens@) =~= Seq::empty());
    assert(diagnostics_view(errors@) =~= Seq::empty());
    while pos < source.len()
        invariant
            pos <= source.len(),
            lexed(source@) == lexed_from(
                source@,
                pos as int,
                Lexed { tokens: tokens_view(tokens@), errors: diagnostics_view(errors@) },
            ),
        decreases source.len() - pos,
    {
        let (found, end) = scan_at(source, pos);
        let span = Span { start: pos, end };
        match found {
            Found::Token(tkn) => {
                let ghost before = tokens_view(tokens@);
                let token = Token { tkn, span };
                tokens.push(token);
                assert(tokens_view(tokens@) =~= before.push(token@));
            },
            Found::Skip => {},
            Found::Bad(problem) => {
                let ghost before = diagnostics_view(errors@);
                let d = Diagnostic { problem, span, contexts: Vec::new() };
                errors.push(d);
                assert(diagnostics_view(errors@) =~= before.push(d@));
            },
        }
        pos = end;
    }
    (tokens, errors)
}

/// Whether every byte is a decimal digit.
pub open spec fn all_digits(s: Seq<u8>) -> bool {
    forall|i: int| 0 <= i < s.len() ==> is_digit(#[trigger] s[i])
}

/// The digits of a number are digits, and stand for the number.
proof fn lemma_digits_read_back(n: nat)
    ensures
        all_digits(digits(n)),
        n > 0 ==> digits(n).len() > 0,
        digits_value(digits(n)) == n,
    decreases n,
{
    if n != 0 {
        lemma_digits_read_back(n / 10);
        let d = ('0' as u8 + n % 10) as u8;
        assert(digits(n) == digits(n / 10).push(d));
        assert(digits(n).drop_last() =~= digits(n / 10));
    }
}

/// The text of a whole number is digits, at least one, and stands for the
/// number.
proof fn lemma_whole_reads_back(n: nat)
    ensures
        all_digits(whole_text(n)),
        whole_text(n).len() > 0,
        digits_value(whole_text(n)) == n,
{
    if n == 0 {
        let s = whole_text(n);
        assert(s.drop_last() =~= Seq::<u8>::empty());
        assert(digits_value(s.drop_last()) == 0);
    } else {
        lemma_digits_read_back(n);
    }
}

/// The places of no digits stand for nothing.
proof fn lemma_places_of_none(k: nat)
    ensures
        places_value(Seq::<u8>::empty(), k) == 0,
    decreases k,
{
    if k > 0 {
        lemma_places_of_none((k - 1) as nat);
    }
}

/// The first places of a text do not depend on what stands after them.
proof fn lemma_places_of_start(s: Seq<u8>, d: u8, k: nat)
    requires
        k <= s.len(),
    ensures
        places_value(s.push(d), k) == places_value(s, k),
    decreases k,
{
    if k > 0 {
        lemma_places_of_start(s, d, (k - 1) as nat);
    }
}

/// Padded digits are as many digits as asked for, and stand for the number.
proof fn lemma_padded_reads_back(f: nat, places: nat)
    requires
        f < pow10(places),
    ensures
        padded(f, places).len() == places,
        all_digits(padded(f, places)),
        places_value(padded(f, places), places) == f,
    decreases places,
{
    if places > 0 {
        lemma_padded_reads_back(f / 10, (places - 1) as nat);
        let rest = padded(f / 10, (places - 1) as nat);
        let d = ('0' as u8 + f % 10) as u8;
        lemma_places_of_start(rest, d, (places - 1) as nat);
    }
}

/// The digits of a fraction are digits, no more than the places, at least
/// one unless the fraction is zero, and stand for the fraction.
proof fn lemma_fraction_reads_back(f: nat, places: nat)
    requires
        f < pow10(places),
    ensures
        fraction_text(f, places).len() <= places,
        f > 0 ==> fraction_text(f, places).len() > 0,
        all_digits(fraction_text(f, places)),
        places_value(fraction_text(f, places), places) == f,
    decreases places,
{
    if places == 0 || f == 0 {
        lemma_places_of_none(places);
    } else if f % 10 == 0 {
        lemma_fraction_reads_back(f / 10, (places - 1) as nat);
    } else {
        lemma_padded_reads_back(f / 10, (places - 1) as nat);
        let rest = padded(f / 10, (places - 1) as nat);
        let d = ('0' as u8 + f % 10) as u8;
        lemma_places_of_start(rest, d, (places - 1) as nat);
    }
}

/// Digits end where the first byte stands that is no digit.
proof fn lemma_digits_end_of_run(s: Seq<u8>, pos: int, k: nat)
    requires
        0 <= pos,
        pos + k <= s.len(),
        forall|i: int| pos <= i < pos + k ==> is_digit(#[trigger] s[i]),
        pos + k == s.len() || !is_digit(s[pos + k]),
    ensures
        digits_end(s, pos) == pos + k,
    decreases k,
{
    if k > 0 {
        assert(is_digit(s[pos]));
        lemma_digits_end_of_run(s, pos + 1, (k - 1) as nat);
    }
}

/// What is written for a number reads back as the number: the lexer finds,
/// in the text of a number, exactly that number.
pub proof fn lemma_number_reads_back(n: int)
    requires
        -i128::MAX <= n <= i128::MAX,
    ensures
        scan(number_text(n), 0) == (Scanned {
            what: Scan::Token(TknV::Number(n)),
            end: number_text(n).len() as int,
        }),
{
    let m = abs(n);
    let whole = (m / (SCALE as int)) as nat;
    let fraction = (m % (SCALE as int)) as nat;
    let t = number_text(n);
    let sign: Seq<u8> = if n < 0 {
        seq!['-' as u8]
    } else {
        Seq::empty()
    };
    let head = whole_text(whole);
    let places = fraction_text(fraction, PLACES as nat);
    let tail = if fraction == 0 {
        Seq::empty()
    } else {
        seq!['.' as u8] + places
    };
    assert(t == sign + head + tail);
    lemma_pow10_values();
    lemma_whole_reads_back(whole);
    lemma_fraction_reads_back(fraction, PLACES as nat);
    let from = sign.len() as int;
    let whole_end = from + head.len();
    assert forall|i: int| from <= i < whole_end implies is_digit(#[trigger] t[i]) by {
        assert(t[i] == head[i - from]);
    }
    if fraction != 0 {
        assert(t[whole_end] == '.' as u8);
        assert forall|i: int| whole_end + 1 <= i < t.len() implies is_digit(#[trigger] t[i]) by {
            assert(t[i] == places[i - whole_end - 1]);
        }
        lemma_digits_end_of_run(t, whole_end + 1, places.len());
        assert(t.subrange(whole_end + 1, t.len() as int) =~= places);
    }
    lemma_digits_end_of_run(t, from, head.len());
    assert(t.subrange(from, whole_end) =~= head);
    assert(whole * SCALE + fraction == m);
    if n < 0 {
        assert(t[0] == '-' as u8);
        assert(digit_at(t, 1));
    } else {
        assert(is_digit(t[0]));
    }
}

} // verus!
