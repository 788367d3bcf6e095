//! Helpers of the code emitter: where two tokens need a space between them,
//! and how a string value is written as a literal.
use vstd::prelude::*;
use crate::nodes::{Expression, FunctionCall, SExpression, SStatement, Statement};
use crate::text::{chars_of, string_of};

verus! {

pub open spec fn is_digit(c: char) -> bool {
    '0' <= c <= '9'
}

pub open spec fn is_ascii_alphabetic(c: char) -> bool {
    ('a' <= c <= 'z') || ('A' <= c <= 'Z')
}

pub fn is_relevant_for_spacing(character: &char) -> (r: bool)
    ensures
        r == (is_ascii_alphabetic(*character) || is_digit(*character) || *character == '_'),
{
    let c = *character;
    ('a' <= c && c <= 'z') || ('A' <= c && c <= 'Z') || ('0' <= c && c <= '9') || c == '_'
}

/// Whether text ending with `[` needs a space before a long string.
pub fn break_long_string(last_str: &str) -> (r: bool)
    ensures
        r == (last_str@.len() > 0 && last_str@.last() == '['),
{
    let chars = chars_of(last_str);
    chars.len() > 0 && chars[chars.len() - 1] == '['
}

/// Whether `...` after this text needs a space: the text ends with a dot, or
/// starts with a dot or a digit.
pub fn break_variable_arguments(last_string: &str) -> (r: bool)
    ensures
        r == (last_string@.len() > 0 && (last_string@.last() == '.' || last_string@[0] == '.'
            || is_digit(last_string@[0]))),
{
    let chars = chars_of(last_string);
    if chars.len() == 0 {
        return false;
    }
    chars[chars.len() - 1] == '.' || chars[0] == '.' || ('0' <= chars[0] && chars[0] <= '9')
}

/// Whether a minus after this text needs a space (it would start a comment).
pub fn break_minus(last_string: &str) -> (r: bool)
    ensures
        r == (last_string@.len() > 0 && last_string@.last() == '-'),
{
    let chars = chars_of(last_string);
    chars.len() > 0 && chars[chars.len() - 1] == '-'
}

/// Whether `..` after this text needs a space.
pub fn break_concat(last_string: &str) -> (r: bool)
    ensures
        r == (last_string@.len() > 0 && (last_string@.last() == '.' || last_string@[0] == '.'
            || is_digit(last_string@[0]))),
{
    break_variable_arguments(last_string)
}

/// Whether an expression, as written, ends with something a `(` could call.
pub open spec fn ends_with_call(e: SExpression) -> bool
    decreases e,
{
    match e {
        SExpression::Binary { right, .. } => ends_with_call(*right),
        SExpression::Unary { operand, .. } => ends_with_call(*operand),
        SExpression::Call(_) | SExpression::Parenthese(_) | SExpression::Identifier(_)
        | SExpression::Field { .. } | SExpression::Index { .. } => true,
        _ => false,
    }
}

/// Whether a prefix expression, as written, starts with a parenthesis.
pub open spec fn prefix_starts_with_paren(e: SExpression) -> bool
    decreases e,
{
    match e {
        SExpression::Parenthese(_) => true,
        SExpression::Call(c) => prefix_starts_with_paren(*c.prefix),
        SExpression::Field { prefix, .. } => prefix_starts_with_paren(*prefix),
        SExpression::Index { prefix, .. } => prefix_starts_with_paren(*prefix),
        _ => false,
    }
}

/// Whether a statement, as written, ends with something a `(` could call.
pub open spec fn statement_ends_with_prefix(s: SStatement) -> bool {
    match s {
        SStatement::Assign { values, .. } => values.len() > 0 && ends_with_call(values.last()),
        SStatement::CompoundAssign { value, .. } => ends_with_call(value),
        SStatement::Call(_) => true,
        SStatement::Repeat { condition, .. } => ends_with_call(condition),
        SStatement::LocalAssign { values, .. } => values.len() > 0 && ends_with_call(values.last()),
        _ => false,
    }
}

/// Whether a statement, as written, starts with a parenthesis.
pub open spec fn statement_starts_with_paren(s: SStatement) -> bool {
    match s {
        SStatement::Assign { variables, .. } => variables.len() > 0 && match variables[0] {
            SExpression::Field { prefix, .. } => prefix_starts_with_paren(*prefix),
            SExpression::Index { prefix, .. } => prefix_starts_with_paren(*prefix),
            _ => false,
        },
        SStatement::CompoundAssign { variable, .. } => match variable {
            SExpression::Field { prefix, .. } => prefix_starts_with_paren(*prefix),
            SExpression::Index { prefix, .. } => prefix_starts_with_paren(*prefix),
            _ => false,
        },
        SStatement::Call(c) => prefix_starts_with_paren(*c.prefix),
        _ => false,
    }
}

fn expression_ends_with_call(expression: &Expression) -> (r: bool)
    ensures
        r == ends_with_call(expression.view()),
    decreases expression,
{
    match expression {
        Expression::Binary { right, .. } => expression_ends_with_call(right),
        Expression::Call(_) | Expression::Parenthese(_) | Expression::Identifier(_)
        | Expression::Field { .. } | Expression::Index { .. } => true,
        Expression::Unary { operand, .. } => expression_ends_with_call(operand),
        _ => false,
    }
}

fn prefix_starts_with_parenthese(prefix: &Expression) -> (r: bool)
    ensures
        r == prefix_starts_with_paren(prefix.view()),
    decreases prefix, 1nat,
{
    match prefix {
        Expression::Parenthese(_) => true,
        Expression::Call(call) => call_starts_with_parenthese(call),
        Expression::Field { .. } => field_starts_with_parenthese(prefix),
        Expression::Index { .. } => index_starts_with_parenthese(prefix),
        _ => false,
    }
}

fn call_starts_with_parenthese(call: &FunctionCall) -> (r: bool)
    ensures
        r == prefix_starts_with_paren(*call.view().prefix),
    decreases call, 0nat,
{
    prefix_starts_with_parenthese(&call.prefix)
}

/// A field access starts as its prefix does.
fn field_starts_with_parenthese(field: &Expression) -> (r: bool)
    ensures
        r == match field.view() {
            SExpression::Field { prefix, .. } => prefix_starts_with_paren(*prefix),
            _ => false,
        },
    decreases field, 0nat,
{
    match field {
        Expression::Field { prefix, .. } => prefix_starts_with_parenthese(prefix),
        _ => false,
    }
}

/// An index access starts as its prefix does.
fn index_starts_with_parenthese(index: &Expression) -> (r: bool)
    ensures
        r == match index.view() {
            SExpression::Index { prefix, .. } => prefix_starts_with_paren(*prefix),
            _ => false,
        },
    decreases index, 0nat,
{
    match index {
        Expression::Index { prefix, .. } => prefix_starts_with_parenthese(prefix),
        _ => false,
    }
}

pub fn ends_with_prefix(statement: &Statement) -> (r: bool)
    ensures
        r == statement_ends_with_prefix(statement.view()),
{
    match statement {
        Statement::Assign { values, .. } => {
            assert(statement.view()->Assign_values.len() == values@.len());
            if values.len() > 0 {
                assert(statement.view()->Assign_values.last() == values@[values@.len() - 1].view());
                expression_ends_with_call(&values[values.len() - 1])
            } else {
                false
            }
        },
        Statement::CompoundAssign { value, .. } => expression_ends_with_call(value),
        Statement::Call(_) => true,
        Statement::Repeat { condition, .. } => expression_ends_with_call(condition),
        Statement::LocalAssign { values, .. } => {
            assert(statement.view()->LocalAssign_values.len() == values@.len());
            if values.len() > 0 {
                assert(statement.view()->LocalAssign_values.last() == values@[values@.len() - 1].view());
                expression_ends_with_call(&values[values.len() - 1])
            } else {
                false
            }
        },
        _ => false,
    }
}

pub fn starts_with_parenthese(statement: &Statement) -> (r: bool)
    ensures
        r == statement_starts_with_paren(statement.view()),
{
    match statement {
        Statement::Assign { variables, .. } => {
            assert(statement.view()->Assign_variables.len() == variables@.len());
            if variables.len() > 0 {
                assert(statement.view()->Assign_variables[0] == variables@[0].view());
                match &variables[0] {
                    Expression::Field { .. } => field_starts_with_parenthese(&variables[0]),
                    Expression::Index { .. } => index_starts_with_parenthese(&variables[0]),
                    _ => false,
                }
            } else {
                false
            }
        },
        Statement::CompoundAssign { variable, .. } => match variable {
            Expression::Field { .. } => field_starts_with_parenthese(variable),
            Expression::Index { .. } => index_starts_with_parenthese(variable),
            _ => false,
        },
        Statement::Call(call) => call_starts_with_parenthese(call),
        _ => false,
    }
}

// ----- string literals -----

pub const FORCE_QUOTED_STRING_THRESHOLD: usize = 40;

pub open spec fn is_ascii_graphic(c: char) -> bool {
    '!' <= c <= '~'
}

pub open spec fn escaping_needed(c: char) -> bool {
    !(is_ascii_graphic(c) || c == ' ') || c == '\\'
}

pub open spec fn quoting_needed(c: char) -> bool {
    !(is_ascii_graphic(c) || c == ' ' || c == '\n')
}

pub open spec fn digit_char(d: nat) -> char {
    if d < 10 { ((d + 48) as u8) as char } else { ((d + 87) as u8) as char }
}

pub open spec fn decimal_digits(n: nat) -> Seq<char>
    decreases n,
{
    if n < 10 { seq![digit_char(n)] } else { decimal_digits(n / 10) + seq![digit_char(n % 10)] }
}

pub open spec fn hex_digits(n: nat) -> Seq<char>
    decreases n,
{
    if n < 16 { seq![digit_char(n)] } else { hex_digits(n / 16) + seq![digit_char(n % 16)] }
}

/// The escape sequence of a character inside a quoted literal.
pub open spec fn escaped(c: char) -> Seq<char> {
    if c == '\n' {
        seq!['\\', 'n']
    } else if c == '\t' {
        seq!['\\', 't']
    } else if c == '\\' {
        seq!['\\', '\\']
    } else if c == '\r' {
        seq!['\\', 'r']
    } else if c == '\u{7}' {
        seq!['\\', 'a']
    } else if c == '\u{8}' {
        seq!['\\', 'b']
    } else if c == '\u{B}' {
        seq!['\\', 'v']
    } else if c == '\u{C}' {
        seq!['\\', 'f']
    } else if (c as u32) < 128 {
        seq!['\\'] + decimal_digits(c as nat)
    } else {
        seq!['\\', 'u', '{'] + hex_digits(c as nat) + seq!['}']
    }
}

fn needs_escaping(character: char) -> (r: bool)
    ensures
        r == escaping_needed(character),
{
    !(('!' <= character && character <= '~') || character == ' ') || character == '\\'
}

fn needs_quoted_string(character: char) -> (r: bool)
    ensures
        r == quoting_needed(character),
{
    !(('!' <= character && character <= '~') || character == ' ' || character == '\n')
}

fn digit(d: u32) -> (r: char)
    requires
        d < 16,
    ensures
        r == digit_char(d as nat),
{
    if d < 10 { ((d + 48) as u8) as char } else { ((d + 87) as u8) as char }
}

fn push_decimal(out: &mut Vec<char>, n: u32)
    ensures
        final(out)@ == old(out)@ + decimal_digits(n as nat),
    decreases n,
{
    if n >= 10 {
        push_decimal(out, n / 10);
    }
    out.push(digit(n % 10));
    assert(final(out)@ =~= old(out)@ + decimal_digits(n as nat));
}

fn push_hex(out: &mut Vec<char>, n: u32)
    ensures
        final(out)@ == old(out)@ + hex_digits(n as nat),
    decreases n,
{
    if n >= 16 {
        push_hex(out, n / 16);
    }
    out.push(digit(n % 16));
    assert(final(out)@ =~= old(out)@ + hex_digits(n as nat));
}

fn escape_into(out: &mut Vec<char>, character: char)
    ensures
        final(out)@ == old(out)@ + escaped(character),
{
    let ghost start = out@;
    let c = character;
    if c == '\n' {
        out.push('\\');
        out.push('n');
    } else if c == '\t' {
        out.push('\\');
        out.push('t');
    } else if c == '\\' {
        out.push('\\');
        out.push('\\');
    } else if c == '\r' {
        out.push('\\');
        out.push('r');
    } else if c == '\u{7}' {
        out.push('\\');
        out.push('a');
    } else if c == '\u{8}' {
        out.push('\\');
        out.push('b');
    } else if c == '\u{B}' {
        out.push('\\');
        out.push('v');
    } else if c == '\u{C}' {
        out.push('\\');
        out.push('f');
    } else if (c as u32) < 128 {
        out.push('\\');
        push_decimal(out, c as u32);
    } else {
        out.push('\\');
        out.push('u');
        out.push('{');
        push_hex(out, c as u32);
        out.push('}');
    }
    assert(out@ =~= start + escaped(character));
}

/// The escape sequence of a character, as a string.
pub fn escape(character: char) -> (r: String)
    ensures
        r@ == escaped(character),
{
    let mut out: Vec<char> = Vec::new();
    escape_into(&mut out, character);
    assert(out@ =~= escaped(character));
    string_of(&out)
}

pub open spec fn quote_symbol(s: Seq<char>) -> char {
    if s.contains('"') { '\'' } else if s.contains('\'') { '"' } else { '\'' }
}

fn get_quote_symbol(value: &Vec<char>) -> (r: char)
    ensures
        r == quote_symbol(value@),
{
    let mut has_double = false;
    let mut has_single = false;
    let mut i: usize = 0;
    while i < value.len()
        invariant
            i <= value@.len(),
            has_double == exists|j: int| 0 <= j < i && value@[j] == '"',
            has_single == exists|j: int| 0 <= j < i && value@[j] == '\'',
        decreases value@.len() - i,
    {
        if value[i] == '"' {
            has_double = true;
        }
        if value[i] == '\'' {
            has_single = true;
        }
        i += 1;
    }
    if has_double {
        '\''
    } else if has_single {
        '"'
    } else {
        '\''
    }
}

/// Whether a character is escaped by its decimal code.
pub open spec fn decimal_escape(c: char) -> bool {
    c != '\n' && c != '\t' && c != '\\' && c != '\r' && c != '\u{7}' && c != '\u{8}' && c != '\u{B}'
        && c != '\u{C}' && (c as u32) < 128
}

/// The three decimal digits of a value below 1000.
pub open spec fn three_digits(n: nat) -> Seq<char> {
    seq![digit_char(n / 100), digit_char((n / 10) % 10), digit_char(n % 10)]
}

/// The escape of character `i` of `s`: a decimal escape followed by a digit
/// is written with three digits, so that the digit is not read as part of it.
pub open spec fn quoted_piece(s: Seq<char>, i: int, q: char) -> Seq<char> {
    let c = s[i];
    if c == q {
        seq!['\\', q]
    } else if escaping_needed(c) {
        if decimal_escape(c) && i + 1 < s.len() && is_digit(s[i + 1]) {
            seq!['\\'] + three_digits((c as u32) as nat)
        } else {
            escaped(c)
        }
    } else {
        seq![c]
    }
}

/// The escaped form of the first `n` characters of `s`.
pub open spec fn quoted_body(s: Seq<char>, n: int, q: char) -> Seq<char>
    decreases n,
{
    if n <= 0 { seq![] } else { quoted_body(s, n - 1, q) + quoted_piece(s, n - 1, q) }
}

/// The value between quotes, the quote that it does not hold (single ones
/// where it holds neither or both), escaped where needed.
pub open spec fn quoted(s: Seq<char>) -> Seq<char> {
    seq![quote_symbol(s)] + quoted_body(s, s.len() as int, quote_symbol(s)) + seq![quote_symbol(s)]
}

fn write_quoted(value: &Vec<char>) -> (r: String)
    ensures
        r@ == quoted(value@),
{
    let q = get_quote_symbol(value);
    let mut out: Vec<char> = Vec::new();
    out.push(q);
    let mut i: usize = 0;
    while i < value.len()
        invariant
            i <= value@.len(),
            q == quote_symbol(value@),
            out@ == seq![q] + quoted_body(value@, i as int, q),
        decreases value@.len() - i,
    {
        let c = value[i];
        let ghost before = out@;
        if c == q {
            out.push('\\');
            out.push(q);
        } else if needs_escaping(c) {
            let decimal = c != '\n' && c != '\t' && c != '\\' && c != '\r' && c != '\u{7}' && c != '\u{8}'
                && c != '\u{B}' && c != '\u{C}' && (c as u32) < 128;
            let digit_next = i + 1 < value.len() && '0' <= value[i + 1] && value[i + 1] <= '9';
            if decimal && digit_next {
                let n = c as u32;
                out.push('\\');
                out.push(digit(n / 100));
                out.push(digit((n / 10) % 10));
                out.push(digit(n % 10));
                assert(decimal_escape(c) && i + 1 < value@.len() && is_digit(value@[i + 1]));
                assert(out@ =~= before + seq!['\\'] + three_digits((c as u32) as nat));
            } else {
                escape_into(&mut out, c);
                assert(!(decimal_escape(c) && i + 1 < value@.len() && is_digit(value@[i + 1])));
            }
        } else {
            out.push(c);
        }
        assert(out@ =~= before + quoted_piece(value@, i as int, q));
        i += 1;
    }
    out.push(q);
    string_of(&out)
}

pub open spec fn equals_signs(n: nat) -> Seq<char> {
    Seq::new(n, |i: int| '=')
}

pub open spec fn closing_bracket(n: nat) -> Seq<char> {
    seq![']'] + equals_signs(n) + seq![']']
}

pub open spec fn occurs_at(s: Seq<char>, p: Seq<char>, k: int) -> bool {
    0 <= k && k + p.len() <= s.len() && s.subrange(k, k + p.len()) == p
}

pub open spec fn occurs(s: Seq<char>, p: Seq<char>) -> bool {
    exists|k: int| occurs_at(s, p, k)
}

/// The first level from `i` on whose closing bracket the value does not hold.
pub open spec fn level_from(s: Seq<char>, i: nat) -> nat
    decreases s.len() + 1 - i,
{
    if i <= s.len() && occurs(s, closing_bracket(i)) { level_from(s, i + 1) } else { i }
}

pub open spec fn starting_level(s: Seq<char>) -> nat {
    if s.len() > 0 && s.last() == ']' { 1 } else { 0 }
}

/// The value as a long bracket string whose level its content never closes;
/// a leading newline is doubled, since the first one is dropped when read.
pub open spec fn long_bracket(s: Seq<char>) -> Seq<char> {
    let level = level_from(s, starting_level(s));
    seq!['['] + equals_signs(level) + seq!['['] + (if s.len() > 0 && s[0] == '\n' {
        seq!['\n']
    } else {
        seq![]
    }) + s + closing_bracket(level)
}

fn closing_of(level: usize) -> (r: Vec<char>)
    ensures
        r@ == closing_bracket(level as nat),
{
    let mut out: Vec<char> = vec![']'];
    let mut i: usize = 0;
    while i < level
        invariant
            i <= level,
            out@ == seq![']'] + equals_signs(i as nat),
        decreases level - i,
    {
        out.push('=');
        assert(out@ =~= seq![']'] + equals_signs((i + 1) as nat));
        i += 1;
    }
    out.push(']');
    assert(out@ =~= closing_bracket(level as nat));
    out
}

fn occurs_in(s: &Vec<char>, p: &Vec<char>) -> (r: bool)
    ensures
        r == occurs(s@, p@),
{
    if p.len() > s.len() {
        assert forall|k: int| !occurs_at(s@, p@, k) by {}
        return false;
    }
    let n = s.len();
    let last = n - p.len();
    let mut k: usize = 0;
    while k <= last
        invariant
            p@.len() <= s@.len(),
            n == s@.len(),
            last == s@.len() - p@.len(),
            forall|j: int| 0 <= j < k ==> !occurs_at(s@, p@, j),
        decreases last + 1 - k,
    {
        let mut m: usize = 0;
        let mut same = true;
        while m < p.len()
            invariant
                k <= last,
                n == s@.len(),
                last == s@.len() - p@.len(),
                m <= p@.len(),
                same == forall|t: int| 0 <= t < m ==> s@[k + t] == p@[t],
            decreases p@.len() - m,
        {
            if s[k + m] != p[m] {
                same = false;
            }
            m += 1;
        }
        if same {
            assert(s@.subrange(k as int, k + p@.len()) =~= p@);
            assert(occurs_at(s@, p@, k as int));
            return true;
        }
        assert(!occurs_at(s@, p@, k as int)) by {
            let t = choose|t: int| 0 <= t < p@.len() && s@[k + t] != p@[t];
            assert(s@.subrange(k as int, k + p@.len())[t] != p@[t]);
        }
        if k == last {
            assert forall|j: int| !occurs_at(s@, p@, j) by {
                if occurs_at(s@, p@, j) {
                    assert(0 <= j <= k);
                }
            }
            return false;
        }
        k += 1;
    }
    false
}

fn write_long_bracket(value: &Vec<char>) -> (r: String)
    ensures
        r@ == long_bracket(value@),
{
    let mut level: usize = if value.len() > 0 && value[value.len() - 1] == ']' { 1 } else { 0 };
    while level <= value.len() && occurs_in(value, &closing_of(level))
        invariant
            level <= value@.len() + 1,
            level_from(value@, level as nat) == level_from(value@, starting_level(value@)),
        decreases value@.len() + 1 - level,
    {
        level += 1;
    }
    let closing = closing_of(level);
    let mut out: Vec<char> = vec!['['];
    let mut i: usize = 0;
    while i < level
        invariant
            i <= level,
            out@ == seq!['['] + equals_signs(i as nat),
        decreases level - i,
    {
        out.push('=');
        assert(out@ =~= seq!['['] + equals_signs((i + 1) as nat));
        i += 1;
    }
    out.push('[');
    if value.len() > 0 && value[0] == '\n' {
        out.push('\n');
    }
    let ghost before = out@;
    let mut j: usize = 0;
    while j < value.len()
        invariant
            j <= value@.len(),
            out@ == before + value@.take(j as int),
        decreases value@.len() - j,
    {
        out.push(value[j]);
        assert(value@.take(j + 1) =~= value@.take(j as int).push(value@[j as int]));
        j += 1;
    }
    assert(value@.take(value@.len() as int) =~= value@);
    let mut k: usize = 0;
    let ghost middle = out@;
    while k < closing.len()
        invariant
            k <= closing@.len(),
            out@ == middle + closing@.take(k as int),
        decreases closing@.len() - k,
    {
        out.push(closing[k]);
        assert(closing@.take(k + 1) =~= closing@.take(k as int).push(closing@[k as int]));
        k += 1;
    }
    assert(closing@.take(closing@.len() as int) =~= closing@);
    assert(out@ =~= long_bracket(value@));
    string_of(&out)
}

/// The number of bytes of a character in UTF-8.
pub open spec fn utf8_width(c: char) -> nat {
    if (c as u32) < 0x80 { 1 } else if (c as u32) < 0x800 { 2 } else if (c as u32) < 0x10000 { 3 } else { 4 }
}

/// The number of bytes of a text in UTF-8.
pub open spec fn utf8_len(s: Seq<char>) -> nat
    decreases s.len(),
{
    if s.len() == 0 { 0 } else { utf8_len(s.drop_last()) + utf8_width(s.last()) }
}

/// How a string value is written as a literal: `''` when empty; a single
/// one-byte character between the quote it is not (escaped where needed);
/// a value under 40 bytes, or with a character that only a quoted literal can
/// hold, as a quoted literal; any other as a long bracket string.
pub open spec fn string_literal(s: Seq<char>) -> Seq<char> {
    if s.len() == 0 {
        seq!['\'', '\'']
    } else if utf8_len(s) == 1 {
        let c = s[0];
        if c == '\'' {
            seq!['"', '\'', '"']
        } else if c == '"' {
            seq!['\'', '"', '\'']
        } else if escaping_needed(c) {
            seq!['\''] + escaped(c) + seq!['\'']
        } else {
            seq!['\'', c, '\'']
        }
    } else if utf8_len(s) < FORCE_QUOTED_STRING_THRESHOLD || exists|i: int| 0 <= i < s.len() && quoting_needed(#[trigger] s[i]) {
        quoted(s)
    } else {
        long_bracket(s)
    }
}

proof fn lemma_utf8_len_single(s: Seq<char>)
    requires
        s.len() >= 1,
    ensures
        utf8_len(s) >= s.len(),
        utf8_len(s) == 1 ==> s.len() == 1 && (s[0] as u32) < 0x80,
        s.len() == 1 ==> utf8_len(s) == utf8_width(s[0]),
    decreases s.len(),
{
    if s.len() > 1 {
        lemma_utf8_len_single(s.drop_last());
    } else {
        assert(s.drop_last().len() == 0);
        assert(utf8_len(s.drop_last()) == 0);
        assert(s.last() == s[0]);
    }
}

/// Writes a string value as a literal.
pub fn write_string(value: &str) -> (r: String)
    ensures
        r@ == string_literal(value@),
{
    let chars = chars_of(value);
    let n = chars.len();
    if n == 0 {
        let out = vec!['\'', '\''];
        assert(out@ =~= string_literal(value@));
        return string_of(&out);
    }
    let mut bytes: usize = 0;
    let mut quoting = false;
    let mut i: usize = 0;
    while i < n
        invariant
            i <= n == chars@.len(),
            chars@ == value@,
            bytes == if utf8_len(chars@.take(i as int)) > 41 { 41 } else { utf8_len(chars@.take(i as int)) },
            quoting == exists|j: int| 0 <= j < i && quoting_needed(#[trigger] chars@[j]),
        decreases n - i,
    {
        let c = #[verifier::truncate] (chars[i] as u32);
        let w: usize = if c < 0x80 { 1 } else if c < 0x800 { 2 } else if c < 0x10000 { 3 } else { 4 };
        assert(chars@.take(i + 1).drop_last() =~= chars@.take(i as int));
        assert(chars@.take(i + 1).last() == chars@[i as int]);
        bytes = if bytes + w > 41 { 41 } else { bytes + w };
        if needs_quoted_string(chars[i]) {
            quoting = true;
        }
        i += 1;
    }
    assert(chars@.take(n as int) =~= chars@);
    proof { lemma_utf8_len_single(chars@); }
    if bytes == 1 {
        let c = chars[0];
        let out = if c == '\'' {
            vec!['"', '\'', '"']
        } else if c == '"' {
            vec!['\'', '"', '\'']
        } else if needs_escaping(c) {
            let mut out: Vec<char> = vec!['\''];
            escape_into(&mut out, c);
            out.push('\'');
            out
        } else {
            vec!['\'', c, '\'']
        };
        assert(out@ =~= string_literal(value@));
        return string_of(&out);
    }
    if bytes < FORCE_QUOTED_STRING_THRESHOLD || quoting {
        write_quoted(&chars)
    } else {
        write_long_bracket(&chars)
    }
}

} // verus!
