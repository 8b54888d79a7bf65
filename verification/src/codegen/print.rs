//! How single pieces of JavaScript are written: operators and their precedence, identifiers, string
//! escapes, whole-word replacement and the order of declarations.

use vstd::prelude::*;

use crate::hir::{
    BinaryOperator, InstructionValue, LogicalOperator, NumberLiteral, UnaryOperator, UpdateOperator,
};
use crate::text::{
    alphanumeric, ascii_alphabetic, ascii_alphanumeric, ascii_digit, cat2, chars_occur_at, chars_of,
    contains_char, decimal, decimal_text, ends_with_char, from_chars, has_prefix, is_alphanumeric,
    is_ascii_alphabetic, is_ascii_alphanumeric, is_ascii_digit, last_is, occurs_at, owned,
    push_char, same, starts_with, texts, trim, trimmed,
};

verus! {

broadcast use crate::text::group_texts;

// ---------------------------------------------------------------------------
// Operators
// ---------------------------------------------------------------------------

pub open spec fn binary_text(op: BinaryOperator) -> Seq<char> {
    match op {
        BinaryOperator::Eq => "=="@,
        BinaryOperator::NotEq => "!="@,
        BinaryOperator::StrictEq => "==="@,
        BinaryOperator::StrictNotEq => "!=="@,
        BinaryOperator::Lt => "<"@,
        BinaryOperator::LtEq => "<="@,
        BinaryOperator::Gt => ">"@,
        BinaryOperator::GtEq => ">="@,
        BinaryOperator::LShift => "<<"@,
        BinaryOperator::RShift => ">>"@,
        BinaryOperator::URShift => ">>>"@,
        BinaryOperator::Add => "+"@,
        BinaryOperator::Sub => "-"@,
        BinaryOperator::Mul => "*"@,
        BinaryOperator::Div => "/"@,
        BinaryOperator::Mod => "%"@,
        BinaryOperator::Exp => "**"@,
        BinaryOperator::BitOr => "|"@,
        BinaryOperator::BitXor => "^"@,
        BinaryOperator::BitAnd => "&"@,
        BinaryOperator::In => "in"@,
        BinaryOperator::InstanceOf => "instanceof"@,
    }
}

/// The JavaScript spelling of a binary operator.
pub fn binary_op_str(op: &BinaryOperator) -> (r: &'static str)
    ensures
        r@ == binary_text(*op),
{
    match op {
        BinaryOperator::Eq => "==",
        BinaryOperator::NotEq => "!=",
        BinaryOperator::StrictEq => "===",
        BinaryOperator::StrictNotEq => "!==",
        BinaryOperator::Lt => "<",
        BinaryOperator::LtEq => "<=",
        BinaryOperator::Gt => ">",
        BinaryOperator::GtEq => ">=",
        BinaryOperator::LShift => "<<",
        BinaryOperator::RShift => ">>",
        BinaryOperator::URShift => ">>>",
        BinaryOperator::Add => "+",
        BinaryOperator::Sub => "-",
        BinaryOperator::Mul => "*",
        BinaryOperator::Div => "/",
        BinaryOperator::Mod => "%",
        BinaryOperator::Exp => "**",
        BinaryOperator::BitOr => "|",
        BinaryOperator::BitXor => "^",
        BinaryOperator::BitAnd => "&",
        BinaryOperator::In => "in",
        BinaryOperator::InstanceOf => "instanceof",
    }
}

pub open spec fn unary_text(op: UnaryOperator) -> Seq<char> {
    match op {
        UnaryOperator::Minus => "-"@,
        UnaryOperator::Plus => "+"@,
        UnaryOperator::Not => "!"@,
        UnaryOperator::BitNot => "~"@,
        UnaryOperator::TypeOf => "typeof "@,
        UnaryOperator::Void => "void "@,
    }
}

/// The JavaScript spelling of a unary operator, with the blank that a word operator needs.
pub fn unary_op_str(op: &UnaryOperator) -> (r: &'static str)
    ensures
        r@ == unary_text(*op),
{
    match op {
        UnaryOperator::Minus => "-",
        UnaryOperator::Plus => "+",
        UnaryOperator::Not => "!",
        UnaryOperator::BitNot => "~",
        UnaryOperator::TypeOf => "typeof ",
        UnaryOperator::Void => "void ",
    }
}

pub open spec fn logical_text(op: LogicalOperator) -> Seq<char> {
    match op {
        LogicalOperator::And => "&&"@,
        LogicalOperator::Or => "||"@,
        LogicalOperator::NullishCoalescing => "??"@,
    }
}

pub fn logical_op_str(op: &LogicalOperator) -> (r: &'static str)
    ensures
        r@ == logical_text(*op),
{
    match op {
        LogicalOperator::And => "&&",
        LogicalOperator::Or => "||",
        LogicalOperator::NullishCoalescing => "??",
    }
}

pub open spec fn update_text(op: UpdateOperator) -> Seq<char> {
    match op {
        UpdateOperator::Increment => "++"@,
        UpdateOperator::Decrement => "--"@,
    }
}

pub fn update_op_str(op: &UpdateOperator) -> (r: &'static str)
    ensures
        r@ == update_text(*op),
{
    match op {
        UpdateOperator::Increment => "++",
        UpdateOperator::Decrement => "--",
    }
}

pub open spec fn logical_precedence(op: LogicalOperator) -> u8 {
    match op {
        LogicalOperator::NullishCoalescing => 4,
        LogicalOperator::Or => 5,
        LogicalOperator::And => 6,
    }
}

pub fn logical_op_precedence(op: &LogicalOperator) -> (r: u8)
    ensures
        r == logical_precedence(*op),
{
    match op {
        LogicalOperator::NullishCoalescing => 4,
        LogicalOperator::Or => 5,
        LogicalOperator::And => 6,
    }
}

pub open spec fn binary_precedence(op: BinaryOperator) -> u8 {
    match op {
        BinaryOperator::BitOr => 7,
        BinaryOperator::BitXor => 8,
        BinaryOperator::BitAnd => 9,
        BinaryOperator::Eq | BinaryOperator::NotEq | BinaryOperator::StrictEq
        | BinaryOperator::StrictNotEq => 10,
        BinaryOperator::Lt | BinaryOperator::LtEq | BinaryOperator::Gt | BinaryOperator::GtEq
        | BinaryOperator::In | BinaryOperator::InstanceOf => 11,
        BinaryOperator::LShift | BinaryOperator::RShift | BinaryOperator::URShift => 12,
        BinaryOperator::Add | BinaryOperator::Sub => 13,
        BinaryOperator::Mul | BinaryOperator::Div | BinaryOperator::Mod => 14,
        BinaryOperator::Exp => 15,
    }
}

pub fn binary_op_precedence(op: &BinaryOperator) -> (r: u8)
    ensures
        r == binary_precedence(*op),
{
    match op {
        BinaryOperator::BitOr => 7,
        BinaryOperator::BitXor => 8,
        BinaryOperator::BitAnd => 9,
        BinaryOperator::Eq | BinaryOperator::NotEq | BinaryOperator::StrictEq
        | BinaryOperator::StrictNotEq => 10,
        BinaryOperator::Lt | BinaryOperator::LtEq | BinaryOperator::Gt | BinaryOperator::GtEq
        | BinaryOperator::In | BinaryOperator::InstanceOf => 11,
        BinaryOperator::LShift | BinaryOperator::RShift | BinaryOperator::URShift => 12,
        BinaryOperator::Add | BinaryOperator::Sub => 13,
        BinaryOperator::Mul | BinaryOperator::Div | BinaryOperator::Mod => 14,
        BinaryOperator::Exp => 15,
    }
}

/// How tightly the expression for `value` binds; 0 for one that is no operator expression.
pub open spec fn value_precedence(value: InstructionValue) -> u8 {
    match value {
        InstructionValue::Ternary { .. } => 3,
        InstructionValue::LogicalExpression { operator, .. } => logical_precedence(operator),
        InstructionValue::BinaryExpression { operator, .. } => binary_precedence(operator),
        InstructionValue::UnaryExpression { .. } => UNARY_LEVEL,
        InstructionValue::Await { .. } => UNARY_LEVEL,
        InstructionValue::PrefixUpdate { .. } => UNARY_LEVEL,
        InstructionValue::PostfixUpdate { .. } => UNARY_LEVEL,
        InstructionValue::PropertyDelete { .. } => UNARY_LEVEL,
        InstructionValue::ComputedDelete { .. } => UNARY_LEVEL,
        _ => 0,
    }
}

pub fn instr_precedence(value: &InstructionValue) -> (r: u8)
    ensures
        r == value_precedence(*value),
{
    match value {
        InstructionValue::Ternary { .. } => 3,
        InstructionValue::LogicalExpression { operator, .. } => logical_op_precedence(operator),
        InstructionValue::BinaryExpression { operator, .. } => binary_op_precedence(operator),
        InstructionValue::UnaryExpression { .. } => UNARY_LEVEL,
        InstructionValue::Await { .. } => UNARY_LEVEL,
        InstructionValue::PrefixUpdate { .. } => UNARY_LEVEL,
        InstructionValue::PostfixUpdate { .. } => UNARY_LEVEL,
        InstructionValue::PropertyDelete { .. } => UNARY_LEVEL,
        InstructionValue::ComputedDelete { .. } => UNARY_LEVEL,
        _ => 0,
    }
}

/// How tightly what has a prefix or postfix operator binds.
pub const UNARY_LEVEL: u8 = 16;

/// How tightly the object of a member access, and what is called, must bind.
pub const OBJECT_LEVEL: u8 = 17;

/// How tightly an arrow function binds.
pub const ARROW_LEVEL: u8 = 2;

/// How tightly the left operand of `op` must bind. `**` groups to the right, and takes no unary operator
/// on its left.
pub open spec fn left_level(op: BinaryOperator) -> u8 {
    if op == BinaryOperator::Exp {
        OBJECT_LEVEL
    } else {
        binary_precedence(op)
    }
}

/// How tightly the right operand of `op` must bind.
pub open spec fn right_level(op: BinaryOperator) -> u8 {
    if op == BinaryOperator::Exp {
        binary_precedence(op)
    } else {
        (binary_precedence(op) + 1) as u8
    }
}

/// How tightly the left and the right operand of `op` must bind.
pub fn operand_levels(op: &BinaryOperator) -> (r: (u8, u8))
    ensures
        r == (left_level(*op), right_level(*op)),
{
    let prec: u8 = binary_op_precedence(op);
    match op {
        BinaryOperator::Exp => (OBJECT_LEVEL, prec),
        _ => (prec, prec + 1),
    }
}

/// Of two binary operators of one level, one groups without parentheses on the left, or, where it is
/// `**`, on the right, and on that side only.
pub proof fn lemma_one_side_groups(a: BinaryOperator, b: BinaryOperator)
    requires
        binary_precedence(a) == binary_precedence(b),
    ensures
        (left_level(a) <= binary_precedence(b)) != (right_level(a) <= binary_precedence(b)),
        (left_level(a) <= binary_precedence(b)) <==> a != BinaryOperator::Exp,
{
}

/// Every operator binds tighter than the conditional operator, every binary operator tighter than every
/// logical one, and every unary operator tighter than every binary one.
pub proof fn lemma_precedence_layers(l: LogicalOperator, b: BinaryOperator)
    ensures
        3 < logical_precedence(l) < binary_precedence(b) < UNARY_LEVEL,
{
}

// ---------------------------------------------------------------------------
// Numbers
// ---------------------------------------------------------------------------

/// The text of a number: the digits of a whole number in range, else the shortest text for it.
pub open spec fn number_text(n: NumberLiteral) -> Seq<char> {
    match n.integer {
        Some(k) => decimal(k as nat),
        None => n.display@,
    }
}

pub fn format_number(n: &NumberLiteral) -> (r: String)
    ensures
        r@ == number_text(*n),
{
    match n.integer {
        Some(k) => decimal_text(k),
        None => n.display.clone(),
    }
}

/// The length of the run of decimal digits that begins at `i`.
pub open spec fn digit_run(s: Seq<char>, i: int) -> nat
    decreases s.len() - i,
{
    if 0 <= i < s.len() && ascii_digit(s[i]) {
        1 + digit_run(s, i + 1)
    } else {
        0
    }
}

/// Whether `s`, from `i` on, is an optional sign and at least one digit, to the end.
pub open spec fn signed_digits_at(s: Seq<char>, i: int) -> bool {
    let j = if i < s.len() && (s[i] == '+' || s[i] == '-') {
        i + 1
    } else {
        i
    };
    digit_run(s, j) > 0 && j + digit_run(s, j) == s.len()
}

/// Whether `s`, from `i` on, is an unsigned decimal number with optional fraction and exponent.
pub open spec fn unsigned_number_at(s: Seq<char>, i: int) -> bool {
    let whole = digit_run(s, i);
    let dot = i + whole;
    let has_dot = dot < s.len() && s[dot] == '.';
    let fraction = if has_dot {
        digit_run(s, dot + 1)
    } else {
        0
    };
    let end = if has_dot {
        dot + 1 + fraction
    } else {
        dot
    };
    &&& whole + fraction > 0
    &&& end == s.len() || ((s[end] == 'e' || s[end] == 'E') && signed_digits_at(s, end + 1))
}

/// Whether `s`, from `i` on, is `word`.
pub open spec fn word_at(s: Seq<char>, i: int, word: Seq<char>) -> bool {
    s.len() - i == word.len() && s.skip(i) == word
}

/// Whether `s` denotes a number: an optional sign, then `Infinity`, `NaN` or a decimal number with
/// optional fraction and exponent.
pub open spec fn signed_number(s: Seq<char>) -> bool {
    let i: int = if s.len() > 0 && (s[0] == '+' || s[0] == '-') {
        1
    } else {
        0
    };
    word_at(s, i, "Infinity"@) || word_at(s, i, "NaN"@) || unsigned_number_at(s, i)
}

/// Whether `c` is the lower case letter `letter`, or the same letter in upper case.
pub open spec fn same_letter(c: char, letter: char) -> bool {
    c == letter || ('A' <= c && c <= 'Z' && c as u32 + 32 == letter as u32)
}

/// Whether `s`, from `i` on, is `word`, with its letters in any case.
pub open spec fn word_in_any_case(s: Seq<char>, i: int, word: Seq<char>) -> bool {
    s.len() - i == word.len() && forall|k: int|
        0 <= k < word.len() ==> same_letter(s[i + k], #[trigger] word[k])
}

/// Whether `s` reads as a floating point number: an optional sign, then `inf`, `infinity` or `nan` in any
/// case, or a decimal number with optional fraction and exponent.
pub open spec fn float_text(s: Seq<char>) -> bool {
    let i: int = if s.len() > 0 && (s[0] == '+' || s[0] == '-') {
        1
    } else {
        0
    };
    word_in_any_case(s, i, "inf"@) || word_in_any_case(s, i, "infinity"@) || word_in_any_case(
        s,
        i,
        "nan"@,
    ) || unsigned_number_at(s, i)
}

fn count_digits(cs: &Vec<char>, from: usize) -> (r: usize)
    requires
        from <= cs@.len(),
    ensures
        r == digit_run(cs@, from as int),
        from + r <= cs@.len(),
{
    let mut i: usize = from;
    while i < cs.len() && is_ascii_digit(cs[i])
        invariant
            from <= i <= cs@.len(),
            digit_run(cs@, from as int) == (i - from) + digit_run(cs@, i as int),
        decreases cs@.len() - i,
    {
        i = i + 1;
    }
    i - from
}

fn chars_word_at(cs: &Vec<char>, i: usize, word: &str) -> (r: bool)
    requires
        i <= cs@.len(),
    ensures
        r == word_at(cs@, i as int, word@),
{
    let w = chars_of(word);
    if cs.len() - i != w.len() {
        return false;
    }
    let mut k: usize = i;
    while k < cs.len()
        invariant
            i <= k <= cs@.len(),
            w@ == word@,
            i + w@.len() == cs@.len(),
            forall|m: int| i <= m < k ==> #[trigger] cs@[m] == w@[m - i],
        decreases cs@.len() - k,
    {
        if cs[k] != w[k - i] {
            assert(cs@.skip(i as int)[k - i] != word@[k - i]);
            return false;
        }
        k = k + 1;
    }
    assert(cs@.skip(i as int) =~= word@);
    true
}

fn chars_word_in_any_case(cs: &Vec<char>, i: usize, word: &str) -> (r: bool)
    requires
        i <= cs@.len(),
    ensures
        r == word_in_any_case(cs@, i as int, word@),
{
    let w = chars_of(word);
    if cs.len() - i != w.len() {
        return false;
    }
    let mut k: usize = 0;
    while k < w.len()
        invariant
            k <= w@.len(),
            w@ == word@,
            i + w@.len() == cs@.len(),
            forall|m: int| 0 <= m < k ==> same_letter(cs@[i + m], #[trigger] w@[m]),
        decreases w@.len() - k,
    {
        assert(i + k < cs.len());
        let c = cs[i + k];
        if !(c == w[k] || ('A' <= c && c <= 'Z' && c as u32 + 32 == w[k] as u32)) {
            assert(!same_letter(cs@[i + k], word@[k as int]));
            return false;
        }
        k = k + 1;
    }
    true
}

fn is_signed_number(s: &str) -> (r: bool)
    ensures
        r == signed_number(s@),
{
    let cs = chars_of(s);
    let i: usize = if cs.len() > 0 && (cs[0] == '+' || cs[0] == '-') {
        1
    } else {
        0
    };
    chars_word_at(&cs, i, "Infinity") || chars_word_at(&cs, i, "NaN") || is_unsigned_number_at(&cs, i)
}

/// Whether a text reads as a floating point number.
pub fn is_float_text(s: &str) -> (r: bool)
    ensures
        r == float_text(s@),
{
    let cs = chars_of(s);
    let i: usize = if cs.len() > 0 && (cs[0] == '+' || cs[0] == '-') {
        1
    } else {
        0
    };
    chars_word_in_any_case(&cs, i, "inf") || chars_word_in_any_case(&cs, i, "infinity")
        || chars_word_in_any_case(&cs, i, "nan") || is_unsigned_number_at(&cs, i)
}

fn is_unsigned_number_at(cs: &Vec<char>, i: usize) -> (r: bool)
    requires
        i <= cs@.len(),
    ensures
        r == unsigned_number_at(cs@, i as int),
{
    let n: usize = cs.len();
    let whole: usize = count_digits(cs, i);
    assert(i + whole <= n);
    let dot: usize = i + whole;
    let has_dot = dot < cs.len() && cs[dot] == '.';
    let fraction: usize = if has_dot {
        count_digits(cs, dot + 1)
    } else {
        0
    };
    let end: usize = if has_dot {
        dot + 1 + fraction
    } else {
        dot
    };
    if whole == 0 && fraction == 0 {
        return false;
    }
    if end == cs.len() {
        return true;
    }
    if cs[end] != 'e' && cs[end] != 'E' {
        return false;
    }
    let j: usize = if end + 1 < cs.len() && (cs[end + 1] == '+' || cs[end + 1] == '-') {
        end + 2
    } else {
        end + 1
    };
    let exponent: usize = count_digits(cs, j);
    exponent > 0 && j + exponent == cs.len()
}

// ---------------------------------------------------------------------------
// Identifiers
// ---------------------------------------------------------------------------

pub open spec fn identifier_start(c: char) -> bool {
    ascii_alphabetic(c) || c == '_' || c == '$'
}

pub open spec fn identifier_part(c: char) -> bool {
    ascii_alphanumeric(c) || c == '_' || c == '$'
}

/// An ASCII JavaScript identifier.
pub open spec fn valid_identifier(s: Seq<char>) -> bool {
    s.len() > 0 && identifier_start(s[0]) && forall|i: int|
        1 <= i < s.len() ==> identifier_part(#[trigger] s[i])
}

/// Whether `s` can be written behind a dot.
pub fn is_valid_identifier(s: &str) -> (r: bool)
    ensures
        r == valid_identifier(s@),
{
    let cs = chars_of(s);
    if cs.len() == 0 {
        return false;
    }
    let first = cs[0];
    if !is_ascii_alphabetic(first) && first != '_' && first != '$' {
        return false;
    }
    let mut i: usize = 1;
    while i < cs.len()
        invariant
            1 <= i <= cs@.len(),
            cs@ == s@,
            forall|k: int| 1 <= k < i ==> identifier_part(#[trigger] cs@[k]),
        decreases cs@.len() - i,
    {
        let c = cs[i];
        if !(is_ascii_alphanumeric(c) || c == '_' || c == '$') {
            assert(!identifier_part(s@[i as int]));
            return false;
        }
        i = i + 1;
    }
    true
}

/// A character that belongs to a word: a letter, a number, `_` or `$`.
pub open spec fn word_char(c: char) -> bool {
    alphanumeric(c) || c == '_' || c == '$'
}

pub fn is_word_char(c: char) -> (r: bool)
    ensures
        r == word_char(c),
{
    is_alphanumeric(c) || c == '_' || c == '$'
}

/// Whether every character of `s` belongs to a word.
pub open spec fn all_word_chars(s: Seq<char>) -> bool {
    forall|i: int| 0 <= i < s.len() ==> word_char(#[trigger] s[i])
}

pub fn has_only_word_chars(s: &str) -> (r: bool)
    ensures
        r == all_word_chars(s@),
{
    let cs = chars_of(s);
    let mut i: usize = 0;
    while i < cs.len()
        invariant
            i <= cs@.len(),
            cs@ == s@,
            forall|k: int| 0 <= k < i ==> word_char(#[trigger] cs@[k]),
        decreases cs@.len() - i,
    {
        if !is_word_char(cs[i]) {
            return false;
        }
        i = i + 1;
    }
    true
}

// ---------------------------------------------------------------------------
// Whole-word replacement
// ---------------------------------------------------------------------------

/// Whether `old` stands in `s` at `i` as a whole word: with no word character next to it.
pub open spec fn whole_word_at(s: Seq<char>, old: Seq<char>, i: int) -> bool {
    &&& occurs_at(s, old, i)
    &&& i == 0 || !word_char(s[i - 1])
    &&& i + old.len() >= s.len() || !word_char(s[i + old.len()])
}

/// `s` from position `i` on, with every whole word `old` replaced by `new`, from left to right.
pub open spec fn replaced_from(s: Seq<char>, old: Seq<char>, new: Seq<char>, i: int) -> Seq<char>
    decreases s.len() - i,
{
    if i < 0 || i >= s.len() || old.len() == 0 {
        Seq::empty()
    } else if whole_word_at(s, old, i) {
        new + replaced_from(s, old, new, i + old.len())
    } else {
        seq![s[i]] + replaced_from(s, old, new, i + 1)
    }
}

/// `s` with every whole word `old` replaced by `new`.
pub open spec fn words_replaced(s: Seq<char>, old: Seq<char>, new: Seq<char>) -> Seq<char> {
    if old.len() == 0 {
        s
    } else {
        replaced_from(s, old, new, 0)
    }
}

/// Replaces the whole-word occurrences of `old` by `new_val`. A word ends where the next character is
/// neither alphanumeric nor `_` nor `$`.
pub fn replace_whole_word(s: &str, old: &str, new_val: &str) -> (r: String)
    ensures
        r@ == words_replaced(s@, old@, new_val@),
{
    let cs = chars_of(s);
    let os = chars_of(old);
    if os.len() == 0 {
        return owned(s);
    }
    let mut out = String::new();
    let mut i: usize = 0;
    let ghost goal = replaced_from(s@, old@, new_val@, 0);
    proof {
        assert(out@ + goal =~= goal);
    }
    while i < cs.len()
        invariant
            i <= cs@.len(),
            cs@ == s@,
            os@ == old@,
            os@.len() > 0,
            out@ + replaced_from(s@, old@, new_val@, i as int) == goal,
        decreases cs@.len() - i,
    {
        let ghost before = out@;
        let n: usize = os.len();
        if chars_occur_at(&cs, &os, i) && (i == 0 || !is_word_char(cs[i - 1])) && (cs.len() - i == n
            || !is_word_char(cs[i + n])) {
            out.append(new_val);
            proof {
                let rest = replaced_from(s@, old@, new_val@, i + n);
                assert(before + new_val@ + rest =~= before + (new_val@ + rest));
            }
            i = i + n;
        } else {
            push_char(&mut out, cs[i]);
            proof {
                let rest = replaced_from(s@, old@, new_val@, i + 1);
                assert(before.push(cs@[i as int]) + rest =~= before + (seq![cs@[i as int]] + rest));
            }
            i = i + 1;
        }
    }
    proof {
        assert(out@ + Seq::<char>::empty() =~= out@);
    }
    out
}

// ---------------------------------------------------------------------------
// String escapes
// ---------------------------------------------------------------------------

/// The character of the hexadecimal digit `d`, with capitals.
pub open spec fn hex_digit(d: nat) -> char {
    if d < 10 {
        crate::text::digit(d)
    } else if d == 10 {
        'A'
    } else if d == 11 {
        'B'
    } else if d == 12 {
        'C'
    } else if d == 13 {
        'D'
    } else if d == 14 {
        'E'
    } else {
        'F'
    }
}

/// `\u` and the four hexadecimal digits of `code`.
pub open spec fn unicode_escape(code: nat) -> Seq<char> {
    "\\u"@.push(hex_digit(code / 4096 % 16)).push(hex_digit(code / 256 % 16)).push(
        hex_digit(code / 16 % 16),
    ).push(hex_digit(code % 16))
}

/// The UTF-16 code units of a character.
pub open spec fn code_units(c: char) -> Seq<nat> {
    let code = c as nat;
    if code <= 0xFFFF {
        seq![code]
    } else {
        seq![(0xD800 + (code - 0x10000) / 1024) as nat, (0xDC00 + (code - 0x10000) % 1024) as nat]
    }
}

/// The UTF-16 code units of a text.
pub open spec fn utf16(s: Seq<char>) -> Seq<nat>
    decreases s.len(),
{
    if s.len() == 0 {
        Seq::empty()
    } else {
        code_units(s[0]) + utf16(s.drop_first())
    }
}

/// How a character stands in a double-quoted JavaScript string, where `digit_follows` says whether the
/// next one is a digit. What is not ASCII, or is a control character, becomes an escape of its UTF-16
/// code units.
pub open spec fn escaped_char(c: char, digit_follows: bool) -> Seq<char> {
    let code = c as nat;
    if c == '"' {
        "\\\""@
    } else if c == '\\' {
        "\\\\"@
    } else if c == '\n' {
        "\\n"@
    } else if c == '\r' {
        "\\r"@
    } else if c == '\t' {
        "\\t"@
    } else if code == 8 {
        "\\b"@
    } else if code == 12 {
        "\\f"@
    } else if code == 11 {
        "\\v"@
    } else if code == 0 {
        if digit_follows {
            "\\x00"@
        } else {
            "\\0"@
        }
    } else if code < 32 || code >= 127 {
        if code <= 0xFFFF {
            unicode_escape(code)
        } else {
            unicode_escape(code_units(c)[0]) + unicode_escape(code_units(c)[1])
        }
    } else {
        seq![c]
    }
}

pub open spec fn starts_with_digit(s: Seq<char>) -> bool {
    s.len() > 0 && ascii_digit(s[0])
}

/// A text for the inside of double quotes.
pub open spec fn escaped(s: Seq<char>) -> Seq<char>
    decreases s.len(),
{
    if s.len() == 0 {
        Seq::empty()
    } else {
        escaped_char(s[0], starts_with_digit(s.drop_first())) + escaped(s.drop_first())
    }
}

fn hex_char(d: u32) -> (c: char)
    requires
        d < 16,
    ensures
        c == hex_digit(d as nat),
{
    if d == 0 {
        '0'
    } else if d == 1 {
        '1'
    } else if d == 2 {
        '2'
    } else if d == 3 {
        '3'
    } else if d == 4 {
        '4'
    } else if d == 5 {
        '5'
    } else if d == 6 {
        '6'
    } else if d == 7 {
        '7'
    } else if d == 8 {
        '8'
    } else if d == 9 {
        '9'
    } else if d == 10 {
        'A'
    } else if d == 11 {
        'B'
    } else if d == 12 {
        'C'
    } else if d == 13 {
        'D'
    } else if d == 14 {
        'E'
    } else {
        'F'
    }
}

fn unicode_escape_text(code: u32) -> (r: String)
    ensures
        r@ == unicode_escape(code as nat),
{
    let mut r = owned("\\u");
    push_char(&mut r, hex_char(code / 4096 % 16));
    push_char(&mut r, hex_char(code / 256 % 16));
    push_char(&mut r, hex_char(code / 16 % 16));
    push_char(&mut r, hex_char(code % 16));
    r
}

fn escape_char(c: char, digit_follows: bool) -> (r: String)
    ensures
        r@ == escaped_char(c, digit_follows),
{
    let code: u32 = c as u32;
    if c == '"' {
        owned("\\\"")
    } else if c == '\\' {
        owned("\\\\")
    } else if c == '\n' {
        owned("\\n")
    } else if c == '\r' {
        owned("\\r")
    } else if c == '\t' {
        owned("\\t")
    } else if code == 8 {
        owned("\\b")
    } else if code == 12 {
        owned("\\f")
    } else if code == 11 {
        owned("\\v")
    } else if code == 0 {
        if digit_follows {
            owned("\\x00")
        } else {
            owned("\\0")
        }
    } else if code < 32 || code >= 127 {
        if code <= 0xFFFF {
            unicode_escape_text(code)
        } else {
            let high = unicode_escape_text(0xD800 + (code - 0x10000) / 1024);
            let low = unicode_escape_text(0xDC00 + (code - 0x10000) % 1024);
            cat2(&high, &low)
        }
    } else {
        let mut r = String::new();
        push_char(&mut r, c);
        proof {
            assert(r@ =~= seq![c]);
        }
        r
    }
}

/// Escapes a string for the inside of double quotes.
pub fn escape_js_string(s: &str) -> (r: String)
    ensures
        r@ == escaped(s@),
        denoted(r@) == Some(utf16(s@)),
{
    let cs = chars_of(s);
    let mut out = String::new();
    let mut i: usize = 0;
    proof {
        assert(s@.skip(0) =~= s@);
        assert(out@ + escaped(s@) =~= escaped(s@));
        lemma_escaped_denotes(s@);
    }
    while i < cs.len()
        invariant
            i <= cs@.len(),
            cs@ == s@,
            out@ + escaped(s@.skip(i as int)) == escaped(s@),
        decreases cs@.len() - i,
    {
        let digit_follows = i + 1 < cs.len() && is_ascii_digit(cs[i + 1]);
        let piece = escape_char(cs[i], digit_follows);
        let ghost before = out@;
        out.append(&piece);
        proof {
            let rest = s@.skip(i as int + 1);
            assert(s@.skip(i as int).drop_first() =~= rest);
            assert(digit_follows == starts_with_digit(rest));
            assert(before + (piece@ + escaped(rest)) =~= out@ + escaped(rest));
        }
        i = i + 1;
    }
    proof {
        assert(s@.skip(s@.len() as int) =~= Seq::<char>::empty());
        assert(out@ + Seq::<char>::empty() =~= out@);
    }
    out
}

/// The value of a hexadecimal digit.
pub open spec fn hex_value(c: char) -> Option<nat> {
    if '0' <= c <= '9' {
        Some((c as nat - '0' as nat) as nat)
    } else if 'A' <= c <= 'F' {
        Some((c as nat - 'A' as nat + 10) as nat)
    } else if 'a' <= c <= 'f' {
        Some((c as nat - 'a' as nat + 10) as nat)
    } else {
        None
    }
}

/// The number that the `n` hexadecimal digits from `i` on denote.
pub open spec fn hex_number(t: Seq<char>, i: int, n: int) -> Option<nat>
    decreases n,
{
    if n <= 0 {
        Some(0)
    } else if i + n > t.len() {
        None
    } else {
        match (hex_number(t, i, n - 1), hex_value(t[i + n - 1])) {
            (Some(front), Some(d)) => Some(front * 16 + d),
            _ => None,
        }
    }
}

/// The first escape or character of the inside of a double-quoted JavaScript string: the code units
/// that it denotes, and its length. None where no such string begins so, and for the escapes of other
/// forms: line continuations, code points in braces, and characters that need no escape.
pub open spec fn first_units(t: Seq<char>) -> Option<(Seq<nat>, int)> {
    if t.len() == 0 || t[0] == '"' || t[0] == '\n' || t[0] == '\r' {
        None
    } else if t[0] != '\\' {
        Some((code_units(t[0]), 1))
    } else if t.len() == 1 {
        None
    } else {
        match t[1] {
            '"' => Some((seq!['"' as nat], 2)),
            '\'' => Some((seq!['\'' as nat], 2)),
            '\\' => Some((seq!['\\' as nat], 2)),
            'n' => Some((seq![10nat], 2)),
            'r' => Some((seq![13nat], 2)),
            't' => Some((seq![9nat], 2)),
            'b' => Some((seq![8nat], 2)),
            'f' => Some((seq![12nat], 2)),
            'v' => Some((seq![11nat], 2)),
            '0' => if starts_with_digit(t.skip(2)) {
                None
            } else {
                Some((seq![0nat], 2))
            },
            'x' => match hex_number(t, 2, 2) {
                Some(u) => Some((seq![u], 4)),
                None => None,
            },
            'u' => match hex_number(t, 2, 4) {
                Some(u) => Some((seq![u], 6)),
                None => None,
            },
            _ => None,
        }
    }
}

/// The UTF-16 code units that the inside of a double-quoted JavaScript string denotes.
pub open spec fn denoted(t: Seq<char>) -> Option<Seq<nat>>
    decreases t.len(),
{
    if t.len() == 0 {
        Some(Seq::empty())
    } else {
        match first_units(t) {
            Some((units, n)) => if 0 < n <= t.len() {
                match denoted(t.skip(n)) {
                    Some(rest) => Some(units + rest),
                    None => None,
                }
            } else {
                None
            },
            None => None,
        }
    }
}

proof fn lemma_hex_digit(d: nat)
    requires
        d < 16,
    ensures
        hex_value(hex_digit(d)) == Some(d),
{
}

proof fn lemma_four_hex_digits(t: Seq<char>, i: int, a: nat, b: nat, c: nat, d: nat)
    requires
        0 <= i,
        i + 4 <= t.len(),
        a < 16,
        b < 16,
        c < 16,
        d < 16,
        t[i] == hex_digit(a),
        t[i + 1] == hex_digit(b),
        t[i + 2] == hex_digit(c),
        t[i + 3] == hex_digit(d),
    ensures
        hex_number(t, i, 4) == Some(((a * 16 + b) * 16 + c) * 16 + d),
{
    lemma_hex_digit(a);
    lemma_hex_digit(b);
    lemma_hex_digit(c);
    lemma_hex_digit(d);
    reveal_with_fuel(hex_number, 5);
}

proof fn lemma_hex_digits_of(code: nat)
    requires
        code <= 0xFFFF,
    ensures
        code == ((code / 4096 % 16 * 16 + code / 256 % 16) * 16 + code / 16 % 16) * 16 + code % 16,
{
}

proof fn lemma_unicode_escape_denotes(code: nat, rest: Seq<char>)
    requires
        code <= 0xFFFF,
    ensures
        first_units(unicode_escape(code) + rest) == Some((seq![code], 6int)),
        unicode_escape(code).len() == 6,
        (unicode_escape(code) + rest).skip(6) == rest,
{
    reveal_strlit("\\u");
    let t = unicode_escape(code) + rest;
    assert(t.skip(6) =~= rest);
    let a = code / 4096 % 16;
    let b = code / 256 % 16;
    let c = code / 16 % 16;
    let d = code % 16;
    lemma_four_hex_digits(t, 2, a, b, c, d);
    lemma_hex_digits_of(code);
}

/// What begins with an escape denotes its code units, then what the rest denotes.
proof fn lemma_first_denotes(e: Seq<char>, units: Seq<nat>, rest: Seq<char>)
    requires
        e.len() > 0,
        first_units(e + rest) == Some((units, e.len() as int)),
        denoted(rest) is Some,
    ensures
        denoted(e + rest) == Some(units + denoted(rest)->0),
{
    assert((e + rest).skip(e.len() as int) =~= rest);
}

proof fn lemma_unicode_char_denotes(c: char, rest: Seq<char>)
    requires
        denoted(rest) is Some,
    ensures
        c as nat <= 0xFFFF ==> denoted(unicode_escape(c as nat) + rest) == Some(
            code_units(c) + denoted(rest)->0,
        ),
        c as nat > 0xFFFF ==> denoted(
            unicode_escape(code_units(c)[0]) + unicode_escape(code_units(c)[1]) + rest,
        ) == Some(code_units(c) + denoted(rest)->0),
{
    let units = code_units(c);
    if c as nat <= 0xFFFF {
        lemma_unicode_escape_denotes(c as nat, rest);
        lemma_first_denotes(unicode_escape(c as nat), units, rest);
    } else {
        let high = unicode_escape(units[0]);
        let low = unicode_escape(units[1]);
        lemma_unicode_escape_denotes(units[1], rest);
        lemma_first_denotes(low, seq![units[1]], rest);
        lemma_unicode_escape_denotes(units[0], low + rest);
        lemma_first_denotes(high, seq![units[0]], low + rest);
        assert(high + (low + rest) =~= high + low + rest);
        assert(seq![units[0]] + (seq![units[1]] + denoted(rest)->0) =~= units + denoted(rest)->0);
    }
}

/// So does what begins with a backslash and one more character.
proof fn lemma_short_escape_denotes(e: Seq<char>, unit: nat, rest: Seq<char>)
    requires
        e.len() == 2,
        first_units(e) == Some((seq![unit], 2int)),
        e[0] == '\\',
        e[1] == '0' ==> !starts_with_digit(rest),
        denoted(rest) is Some,
    ensures
        denoted(e + rest) == Some(seq![unit] + denoted(rest)->0),
{
    let t = e + rest;
    assert(t.skip(2) =~= rest);
    assert(t[0] == e[0] && t[1] == e[1]);
    assert(first_units(t) == Some((seq![unit], 2int))) by {
        if e[1] == 'x' {
            reveal_with_fuel(hex_number, 3);
        }
        if e[1] == 'u' {
            reveal_with_fuel(hex_number, 5);
        }
    }
    lemma_first_denotes(e, seq![unit], rest);
}

proof fn lemma_escaped_char_denotes(c: char, digit_follows: bool, rest: Seq<char>)
    requires
        starts_with_digit(rest) ==> digit_follows,
        denoted(rest) is Some,
    ensures
        denoted(escaped_char(c, digit_follows) + rest) == Some(code_units(c) + denoted(rest)->0),
{
    let code = c as nat;
    let e = escaped_char(c, digit_follows);
    if code == 0 && digit_follows {
        reveal_strlit("\\x00");
        let t = e + rest;
        reveal_with_fuel(hex_number, 3);
        assert(t[0] == '\\' && t[1] == 'x' && t[2] == '0' && t[3] == '0');
        assert(hex_number(t, 2, 2) == Some(0nat));
        lemma_first_denotes(e, code_units(c), rest);
    } else if c == '"' || c == '\\' || c == '\n' || c == '\r' || c == '\t' || code == 8 || code == 12
        || code == 11 || code == 0 {
        reveal_strlit("\\\"");
        reveal_strlit("\\\\");
        reveal_strlit("\\n");
        reveal_strlit("\\r");
        reveal_strlit("\\t");
        reveal_strlit("\\b");
        reveal_strlit("\\f");
        reveal_strlit("\\v");
        reveal_strlit("\\0");
        lemma_short_escape_denotes(e, code, rest);
    } else if code < 32 || code >= 127 {
        lemma_unicode_char_denotes(c, rest);
    } else {
        assert((e + rest)[0] == c);
        lemma_first_denotes(e, code_units(c), rest);
    }
}

proof fn lemma_escaped_start(s: Seq<char>)
    ensures
        starts_with_digit(escaped(s)) ==> starts_with_digit(s),
{
    if s.len() > 0 {
        let c = s[0];
        let d = starts_with_digit(s.drop_first());
        reveal_strlit("\\\"");
        reveal_strlit("\\\\");
        reveal_strlit("\\n");
        reveal_strlit("\\r");
        reveal_strlit("\\t");
        reveal_strlit("\\b");
        reveal_strlit("\\f");
        reveal_strlit("\\v");
        reveal_strlit("\\0");
        reveal_strlit("\\x00");
        reveal_strlit("\\u");
        let e = escaped_char(c, d);
        assert(e.len() > 0 && (e[0] == '\\' || e[0] == c));
        assert(escaped(s)[0] == e[0]);
    }
}

/// An escaped string, between double quotes, denotes the string.
pub proof fn lemma_escaped_denotes(s: Seq<char>)
    ensures
        denoted(escaped(s)) == Some(utf16(s)),
    decreases s.len(),
{
    if s.len() > 0 {
        let rest = s.drop_first();
        lemma_escaped_denotes(rest);
        lemma_escaped_start(rest);
        lemma_escaped_char_denotes(s[0], starts_with_digit(rest), escaped(rest));
    }
}

/// A character that can stand in a double-quoted string or in an attribute as it is.
pub open spec fn plain_ascii(c: char) -> bool {
    ' ' <= c <= '~'
}

proof fn lemma_unicode_escape_is_plain(code: nat)
    ensures
        forall|i: int|
            0 <= i < unicode_escape(code).len() ==> plain_ascii(#[trigger] unicode_escape(code)[i]),
{
    reveal_strlit("\\u");
    let e = unicode_escape(code);
    assert(e.len() == 6);
    assert(plain_ascii(e[0]) && plain_ascii(e[1]) && plain_ascii(e[2]) && plain_ascii(e[3])
        && plain_ascii(e[4]) && plain_ascii(e[5]));
}

proof fn lemma_escaped_char_is_plain(c: char, digit_follows: bool)
    ensures
        forall|i: int|
            0 <= i < escaped_char(c, digit_follows).len() ==> plain_ascii(
                #[trigger] escaped_char(c, digit_follows)[i],
            ),
{
    reveal_strlit("\\\"");
    reveal_strlit("\\\\");
    reveal_strlit("\\n");
    reveal_strlit("\\r");
    reveal_strlit("\\t");
    reveal_strlit("\\b");
    reveal_strlit("\\f");
    reveal_strlit("\\v");
    reveal_strlit("\\0");
    reveal_strlit("\\x00");
    let code = c as nat;
    if code <= 0xFFFF {
        lemma_unicode_escape_is_plain(code);
    } else {
        lemma_unicode_escape_is_plain(code_units(c)[0]);
        lemma_unicode_escape_is_plain(code_units(c)[1]);
    }
}

/// An escaped string holds printable ASCII only.
pub proof fn lemma_escaped_is_plain(s: Seq<char>)
    ensures
        forall|i: int| 0 <= i < escaped(s).len() ==> plain_ascii(#[trigger] escaped(s)[i]),
    decreases s.len(),
{
    if s.len() > 0 {
        let rest = s.drop_first();
        lemma_escaped_is_plain(rest);
        let first = escaped_char(s[0], starts_with_digit(rest));
        lemma_escaped_char_is_plain(s[0], starts_with_digit(rest));
        assert forall|i: int| 0 <= i < escaped(s).len() implies plain_ascii(
            #[trigger] escaped(s)[i],
        ) by {
            if i < first.len() {
                assert(escaped(s)[i] == first[i]);
            } else {
                assert(escaped(s)[i] == escaped(rest)[i - first.len()]);
            }
        }
    }
}

// ---------------------------------------------------------------------------
// Literals
// ---------------------------------------------------------------------------

/// Whether what follows from `i` on is the inside of a string literal and the quote at its end: the
/// first quote `q` that no backslash escapes is the last character.
pub open spec fn closed_from(s: Seq<char>, q: char, i: int) -> bool
    decreases s.len() - i,
{
    if i < 0 || i >= s.len() {
        false
    } else if s[i] == q {
        i == s.len() - 1
    } else if s[i] == '\\' {
        i + 1 < s.len() && closed_from(s, q, i + 2)
    } else {
        closed_from(s, q, i + 1)
    }
}

/// Whether `s` is one string literal in the quotes `q`.
pub open spec fn string_literal(s: Seq<char>, q: char) -> bool {
    s.len() > 0 && s[0] == q && closed_from(s, q, 1)
}

fn is_string_literal(s: &str, q: char) -> (r: bool)
    ensures
        r == string_literal(s@, q),
{
    let cs = chars_of(s);
    if cs.len() == 0 || cs[0] != q {
        return false;
    }
    let mut i: usize = 1;
    while i < cs.len()
        invariant
            1 <= i,
            cs@ == s@,
            cs@.len() > 0,
            cs@[0] == q,
            closed_from(s@, q, 1) == closed_from(s@, q, i as int),
        decreases cs@.len() - i,
    {
        if cs[i] == q {
            return i == cs.len() - 1;
        }
        if cs[i] == '\\' {
            if i == cs.len() - 1 {
                return false;
            }
            i = i + 2;
        } else {
            i = i + 1;
        }
    }
    false
}

/// Whether the expression `s` is a literal of a primitive type: `null`, `undefined`, `void 0`, a
/// boolean, a number or a quoted string.
pub open spec fn literal_primitive(s: Seq<char>) -> bool {
    let t = trimmed(s);
    &&& t.len() > 0
    &&& {
        ||| t == "null"@
        ||| t == "undefined"@
        ||| t == "void 0"@
        ||| t == "true"@
        ||| t == "false"@
        ||| signed_number(t)
        ||| string_literal(t, '"')
        ||| string_literal(t, '\'')
    }
}

pub fn is_literal_primitive(expr: &str) -> (r: bool)
    ensures
        r == literal_primitive(expr@),
{
    let s = trim(expr);
    if s.as_str().is_empty() {
        return false;
    }
    if same(&s, "null") || same(&s, "undefined") || same(&s, "void 0") {
        return true;
    }
    if same(&s, "true") || same(&s, "false") {
        return true;
    }
    is_signed_number(&s) || is_string_literal(&s, '"') || is_string_literal(&s, '\'')
}

// ---------------------------------------------------------------------------
// The order of declarations
// ---------------------------------------------------------------------------

/// The name that the statement `stmt` declares, where it has the form `let name;`.
pub open spec fn declared_name(stmt: Seq<char>) -> Option<Seq<char>> {
    let t = trimmed(stmt);
    if has_prefix(t, "let "@) && last_is(t, ';') && !t.contains('=') {
        let name = trimmed(t.subrange(4, t.len() - 1));
        if valid_identifier(name) {
            Some(name)
        } else {
            None
        }
    } else {
        None
    }
}

/// Whether the statement `stmt` assigns to `name`.
pub open spec fn assigns_to(stmt: Seq<char>, name: Seq<char>) -> bool {
    has_prefix(trimmed(stmt), name + " = "@)
}

/// Whether one of the statements from `i` on declares `name`.
pub open spec fn declared_from(stmts: Seq<Seq<char>>, name: Seq<char>, i: int) -> bool {
    exists|k: int| i <= k < stmts.len() && declared_name(#[trigger] stmts[k]) == Some(name)
}

/// The first of the statements before `end`, counted from `i`, that assigns to `name`; `end` if none
/// does.
pub open spec fn first_assignment(stmts: Seq<Seq<char>>, name: Seq<char>, i: int, end: int) -> int
    decreases end - i,
{
    if i >= end || assigns_to(stmts[i], name) {
        i
    } else {
        first_assignment(stmts, name, i + 1, end)
    }
}

/// The statements with the one at `from` moved to `to`, where `to` is no later.
pub open spec fn moved_up<T>(s: Seq<T>, from: int, to: int) -> Seq<T> {
    s.remove(from).insert(to, s[from])
}

/// One step of the reordering: the declaration at `i`, if there is one and no later one declares the
/// same name, is moved in front of the first assignment to its name.
pub open spec fn reorder_step(stmts: Seq<Seq<char>>, i: int) -> Seq<Seq<char>> {
    match declared_name(stmts[i]) {
        Some(name) => {
            if declared_from(stmts, name, i + 1) {
                stmts
            } else {
                let a = first_assignment(stmts, name, 0, i);
                if a < i {
                    moved_up(stmts, i, a)
                } else {
                    stmts
                }
            }
        },
        None => stmts,
    }
}

/// The statements after the steps from `i` on.
pub open spec fn reordered_from(stmts: Seq<Seq<char>>, i: int) -> Seq<Seq<char>>
    decreases stmts.len() - i,
    via reordered_from_decreases
{
    if 0 <= i < stmts.len() {
        reordered_from(reorder_step(stmts, i), i + 1)
    } else {
        stmts
    }
}

#[via_fn]
proof fn reordered_from_decreases(stmts: Seq<Seq<char>>, i: int) {
    if 0 <= i < stmts.len() {
        lemma_reorder_step_len(stmts, i);
    }
}

/// The statements with each `let name;` in front of the assignments to its name.
pub open spec fn reordered(stmts: Seq<Seq<char>>) -> Seq<Seq<char>> {
    reordered_from(stmts, 0)
}

proof fn lemma_first_assignment_range(stmts: Seq<Seq<char>>, name: Seq<char>, i: int, end: int)
    requires
        i <= end,
    ensures
        i <= first_assignment(stmts, name, i, end) <= end,
        forall|k: int|
            i <= k < first_assignment(stmts, name, i, end) ==> !assigns_to(
                #[trigger] stmts[k],
                name,
            ),
    decreases end - i,
{
    if i < end && !assigns_to(stmts[i], name) {
        lemma_first_assignment_range(stmts, name, i + 1, end);
    }
}

proof fn lemma_reorder_step_len(stmts: Seq<Seq<char>>, i: int)
    requires
        0 <= i < stmts.len(),
    ensures
        reorder_step(stmts, i).len() == stmts.len(),
{
    if let Some(name) = declared_name(stmts[i]) {
        lemma_first_assignment_range(stmts, name, 0, i);
    }
}

/// Reads the name out of a `let name;` statement.
fn declared_name_of(stmt: &str) -> (r: Option<String>)
    ensures
        match r {
            Some(n) => declared_name(stmt@) == Some(n@),
            None => declared_name(stmt@) is None,
        },
{
    let t = trim(stmt);
    proof {
        reveal_strlit("let ");
    }
    if starts_with(&t, "let ") && ends_with_char(&t, ';') && !contains_char(&t, '=') {
        let cs = chars_of(&t);
        proof {
            if cs@.len() == 4 {
                assert(cs@.subrange(0, 4)[3] == ' ');
                assert(cs@.last() == cs@[3]);
            }
        }
        let inner = from_chars(&cs, 4, cs.len() - 1);
        let name = trim(&inner);
        if is_valid_identifier(&name) {
            return Some(name);
        }
    }
    None
}

fn is_declared_from(stmts: &Vec<String>, name: &str, from: usize) -> (r: bool)
    ensures
        r == declared_from(texts(stmts@), name@, from as int),
{
    let mut k: usize = from;
    while k < stmts.len()
        invariant
            from <= k,
            forall|m: int|
                from <= m < k && m < stmts@.len() ==> declared_name(
                    #[trigger] texts(stmts@)[m],
                ) != Some(name@),
        decreases stmts@.len() - k,
    {
        if let Some(n) = declared_name_of(&stmts[k]) {
            if same(&n, name) {
                assert(declared_name(texts(stmts@)[k as int]) == Some(name@));
                return true;
            }
        }
        k = k + 1;
    }
    false
}

fn find_first_assignment(stmts: &Vec<String>, name: &str, end: usize) -> (r: usize)
    requires
        end <= stmts@.len(),
    ensures
        r == first_assignment(texts(stmts@), name@, 0, end as int),
{
    let prefix = cat2(name, " = ");
    let mut i: usize = 0;
    while i < end
        invariant
            i <= end <= stmts@.len(),
            prefix@ == name@ + " = "@,
            first_assignment(texts(stmts@), name@, i as int, end as int) == first_assignment(
                texts(stmts@),
                name@,
                0,
                end as int,
            ),
        decreases end - i,
    {
        let t = trim(&stmts[i]);
        if starts_with(&t, &prefix) {
            return i;
        }
        i = i + 1;
    }
    i
}

/// Moves each `let name;` in front of the first assignment to `name`.
pub fn reorder_declarations(stmts: &mut Vec<String>)
    ensures
        texts(final(stmts)@) == reordered(texts(old(stmts)@)),
{
    let mut i: usize = 0;
    let ghost goal = reordered(texts(stmts@));
    while i < stmts.len()
        invariant
            reordered_from(texts(stmts@), i as int) == goal,
        decreases stmts@.len() - i,
    {
        let ghost before = texts(stmts@);
        proof {
            lemma_reorder_step_len(before, i as int);
        }
        if let Some(name) = declared_name_of(&stmts[i]) {
            if !is_declared_from(stmts, &name, i + 1) {
                let a: usize = find_first_assignment(stmts, &name, i);
                if a < i {
                    let decl = stmts.remove(i);
                    stmts.insert(a, decl);
                    proof {
                        lemma_first_assignment_range(before, name@, 0, i as int);
                        assert(texts(stmts@) =~= moved_up(before, i as int, a as int));
                    }
                }
            }
        }
        proof {
            assert(texts(stmts@) == reorder_step(before, i as int));
        }
        i = i + 1;
    }
}

proof fn lemma_moved_up_multiset(s: Seq<Seq<char>>, from: int, to: int)
    requires
        0 <= to <= from < s.len(),
    ensures
        moved_up(s, from, to).to_multiset() == s.to_multiset(),
{
    let t = moved_up(s, from, to);
    let x = s[from];
    s.to_multiset_ensures();
    t.to_multiset_ensures();
    assert(t.remove(to) =~= s.remove(from));
    assert(t[to] == x);
    assert(t.remove(to).to_multiset() =~= t.to_multiset().remove(x));
    assert(s.remove(from).to_multiset() =~= s.to_multiset().remove(x));
    assert(t.contains(x) && s.contains(x));
    assert(t.to_multiset().remove(x) == s.to_multiset().remove(x));
    assert(t.to_multiset() =~= t.to_multiset().remove(x).insert(x));
    assert(s.to_multiset() =~= s.to_multiset().remove(x).insert(x));
}

/// Reordering keeps every statement: only the places change.
pub proof fn lemma_reordered_is_permutation(stmts: Seq<Seq<char>>)
    ensures
        reordered(stmts).to_multiset() == stmts.to_multiset(),
        reordered(stmts).len() == stmts.len(),
{
    lemma_reordered_from_is_permutation(stmts, 0);
}

proof fn lemma_reordered_from_is_permutation(stmts: Seq<Seq<char>>, i: int)
    requires
        0 <= i,
    ensures
        reordered_from(stmts, i).to_multiset() == stmts.to_multiset(),
        reordered_from(stmts, i).len() == stmts.len(),
    decreases stmts.len() - i,
{
    if i < stmts.len() {
        let next = reorder_step(stmts, i);
        lemma_reorder_step_len(stmts, i);
        lemma_reordered_from_is_permutation(next, i + 1);
        if let Some(name) = declared_name(stmts[i]) {
            lemma_first_assignment_range(stmts, name, 0, i);
            let a = first_assignment(stmts, name, 0, i);
            if !declared_from(stmts, name, i + 1) && a < i {
                lemma_moved_up_multiset(stmts, i, a);
            }
        }
    }
}

/// Whether a declaration of `name` stands before each assignment to it.
pub open spec fn declared_before_assigned(stmts: Seq<Seq<char>>, name: Seq<char>) -> bool {
    forall|k: int|
        0 <= k < stmts.len() && assigns_to(#[trigger] stmts[k], name) ==> exists|j: int|
            0 <= j < k && declared_name(#[trigger] stmts[j]) == Some(name)
}

/// Whether this holds of each name whose last declaration stands before `i`.
spec fn settled_before(stmts: Seq<Seq<char>>, i: int) -> bool {
    forall|name: Seq<char>|
        (exists|j: int| 0 <= j < i && declared_name(#[trigger] stmts[j]) == Some(name))
            && !declared_from(stmts, name, i) ==> #[trigger] declared_before_assigned(stmts, name)
}

proof fn lemma_declaration_assigns_nothing(stmt: Seq<char>, name: Seq<char>)
    requires
        declared_name(stmt) is Some,
    ensures
        !assigns_to(stmt, name),
{
    reveal_strlit(" = ");
    let t = trimmed(stmt);
    if has_prefix(t, name + " = "@) {
        assert((name + " = "@)[(name.len() + 1) as int] == '=');
        assert(t[(name.len() + 1) as int] == t.take((name + " = "@).len() as int)[(name.len() + 1) as int]);
        assert(t.contains('='));
    }
}

proof fn lemma_step_settles(stmts: Seq<Seq<char>>, i: int)
    requires
        0 <= i < stmts.len(),
        settled_before(stmts, i),
    ensures
        settled_before(reorder_step(stmts, i), i + 1),
{
    let next = reorder_step(stmts, i);
    assert forall|name: Seq<char>|
        (exists|j: int| 0 <= j < i + 1 && declared_name(#[trigger] next[j]) == Some(name))
            && !declared_from(next, name, i + 1) implies #[trigger] declared_before_assigned(
        next,
        name,
    ) by {
        if declared_name(stmts[i]) == Some(name) {
            assert(!declared_from(stmts, name, i + 1)) by {
                if declared_from(stmts, name, i + 1) {
                    let k = choose|k: int|
                        i + 1 <= k < stmts.len() && declared_name(#[trigger] stmts[k]) == Some(name);
                    assert(next[k] == stmts[k]);
                }
            }
            lemma_first_assignment_range(stmts, name, 0, i);
            let a = first_assignment(stmts, name, 0, i);
            assert(next[a] == stmts[i]);
            assert forall|k: int| 0 <= k < next.len() && assigns_to(#[trigger] next[k], name) implies a
                < k by {
                if k == a {
                    lemma_declaration_assigns_nothing(stmts[i], name);
                } else if k < a {
                    assert(next[k] == stmts[k]);
                }
            }
        } else {
            lemma_other_name_settles(stmts, i, name);
        }
    }
}

proof fn lemma_other_name_settles(stmts: Seq<Seq<char>>, i: int, name: Seq<char>)
    requires
        0 <= i < stmts.len(),
        settled_before(stmts, i),
        declared_name(stmts[i]) != Some(name),
        ({
            let next = reorder_step(stmts, i);
            &&& exists|j: int| 0 <= j < i + 1 && declared_name(#[trigger] next[j]) == Some(name)
            &&& !declared_from(next, name, i + 1)
        }),
    ensures
        declared_before_assigned(reorder_step(stmts, i), name),
{
    let next = reorder_step(stmts, i);
    let j = choose|j: int| 0 <= j < i + 1 && declared_name(#[trigger] next[j]) == Some(name);
    let a = match declared_name(stmts[i]) {
        Some(other) => {
            lemma_first_assignment_range(stmts, other, 0, i);
            if next == stmts {
                i
            } else {
                first_assignment(stmts, other, 0, i)
            }
        },
        None => i,
    };
    assert(next =~= moved_up(stmts, i, a));
    let back = |k: int|
        if k == a {
            i
        } else if a < k <= i {
            k - 1
        } else {
            k
        };
    assert forall|k: int| 0 <= k < next.len() implies #[trigger] next[k] == stmts[back(k)] by {}
    assert(stmts[back(j)] == next[j]);
    assert(!declared_from(stmts, name, i)) by {
        if declared_from(stmts, name, i) {
            let k = choose|k: int|
                i <= k < stmts.len() && declared_name(#[trigger] stmts[k]) == Some(name);
            assert(next[k] == stmts[k] || k == i);
        }
    }
    assert(declared_before_assigned(stmts, name));
    assert forall|k: int| 0 <= k < next.len() && assigns_to(#[trigger] next[k], name) implies exists|
        m: int,
    |
        0 <= m < k && declared_name(#[trigger] next[m]) == Some(name) by {
        if k == a && next != stmts {
            lemma_declaration_assigns_nothing(stmts[i], name);
        }
        assert(assigns_to(stmts[back(k)], name));
        let d = choose|d: int|
            0 <= d < back(k) && declared_name(#[trigger] stmts[d]) == Some(name);
        let m = if d < a || d > i {
            d
        } else {
            d + 1
        };
        assert(next[m] == stmts[d]);
    }
}

proof fn lemma_settled_from(stmts: Seq<Seq<char>>, i: int)
    requires
        0 <= i <= stmts.len(),
        settled_before(stmts, i),
    ensures
        settled_before(reordered_from(stmts, i), stmts.len() as int),
    decreases stmts.len() - i,
{
    if i < stmts.len() {
        lemma_step_settles(stmts, i);
        lemma_reorder_step_len(stmts, i);
        lemma_settled_from(reorder_step(stmts, i), i + 1);
    }
}

/// Behind the reordering a declaration of each declared name stands before each assignment to it.
pub proof fn lemma_declared_before_assigned(stmts: Seq<Seq<char>>, name: Seq<char>)
    requires
        declared_from(reordered(stmts), name, 0),
    ensures
        declared_before_assigned(reordered(stmts), name),
{
    lemma_settled_from(stmts, 0);
    lemma_reordered_is_permutation(stmts);
    let r = reordered(stmts);
    assert(!declared_from(r, name, r.len() as int));
}

} // verus!
