//! The conditions this library hands to the CEL interpreter.
//!
//! The interpreter panics on some inputs. The parser unwraps the conversion
//! of integer literals that do not fit 64 bits and of strings or bytes with
//! an escape it cannot convert. Evaluation does integer arithmetic and
//! negation unchecked (a division by zero, an overflow), indexes a string at
//! `index + 1` unchecked, and looks for an empty byte string with
//! `windows(0)`. It evaluates by recursion, one call per level of the
//! expression, and its `map`, `filter`, `all`, `exists` and `exists_one`
//! macros walk a map in hash order. A condition is evaluated only when a
//! scan of its text shows it to lie in a fragment where none of that can
//! happen:
//!
//! - outside strings and comments, only ASCII letters, digits, `_`, blanks
//!   and the symbols `. , : ? ! = < > & | ( ) [ ] { } - " ' /`; so no
//!   `+ * %`, and every `/` begins a `//` comment;
//! - every `-` is directly followed by a digit (the sign of a literal, never
//!   an operator);
//! - no run of more than 18 decimal digits; a hexadecimal literal has at
//!   most 15 digits and no sign;
//! - in a string, a backslash begins one of the escapes
//!   `\a \b \f \n \r \t \v \\ \? \' \" \`` or `\x` with two hexadecimal
//!   digits (in a raw string, any escape but a line break), and every string
//!   is closed; there are no byte strings;
//! - an opening bracket follows a value only after the keyword `in`, or, for
//!   `(`, after one of the functions `contains`, `size`, `has`, `max`, `min`,
//!   `startsWith`, `endsWith`, `string`, `double`, `int`, `uint`, `matches`:
//!   so no other call and no indexing;
//! - at most 64 of the symbols `. ? ! & | ( [ { = < >` outside strings and
//!   comments, which bounds the depth of the expression (a list of any
//!   length, or a long string, costs one).
//!
//! All documented pricing conditions lie in it, such as
//! `customer.country in ["KE", "TZ"]`, `item.sku.startsWith("RIDE")` or
//! `size(customer.id) > 0 && item.channel == "direct"`.

use vstd::prelude::*;
use crate::text::text_eq;

verus! {

/// The state of a scan after a prefix of the text.
#[derive(Clone, Copy)]
pub struct ScanState {
    /// Nothing outside the fragment was seen.
    pub ok: bool,
    /// The quote that opened the string literal the scan is in.
    pub quote: Option<char>,
    /// That string is raw (`r"..."`).
    pub raw: bool,
    /// The previous character in the string is a backslash.
    pub escaping: bool,
    /// How many hexadecimal digits a `\x` escape still needs.
    pub escape_hex: u8,
    /// The scan is in a `//` comment.
    pub comment: bool,
    /// The previous character is a `/` that must begin a comment.
    pub slash_pending: bool,
    /// The last significant character ends a value.
    pub after_value: bool,
    /// The previous character belongs to a name or a number.
    pub in_word: bool,
    /// The last name or number seen is the text between these positions
    /// (kept across blanks and comments, emptied by other symbols).
    pub word_start: usize,
    pub word_end: usize,
    /// The length of the current run of decimal digits.
    pub digits: u8,
    /// The previous character is `0`.
    pub prev_zero: bool,
    /// That `0` begins a number without a sign.
    pub zero_start: bool,
    /// The scan is in the digits of a hexadecimal literal.
    pub hex: bool,
    /// How many digits that literal has.
    pub hex_digits: u8,
    /// The previous character is a `-` still waiting for its digit.
    pub minus_pending: bool,
    /// How many operator and bracket symbols were seen.
    pub ops: u8,
}

pub open spec fn is_digit(c: char) -> bool {
    '0' <= c && c <= '9'
}

pub open spec fn is_hex_digit(c: char) -> bool {
    is_digit(c) || ('a' <= c && c <= 'f') || ('A' <= c && c <= 'F')
}

pub open spec fn is_name_char(c: char) -> bool {
    is_digit(c) || ('a' <= c && c <= 'z') || ('A' <= c && c <= 'Z') || c == '_'
}

pub open spec fn is_blank(c: char) -> bool {
    c == ' ' || c == '\t' || c == '\n' || c == '\r'
}

pub open spec fn is_opening(c: char) -> bool {
    c == '(' || c == '[' || c == '{'
}

/// The characters after a backslash that the parser turns into one
/// character without reading further (besides `x`, handled apart).
pub open spec fn is_simple_escape(c: char) -> bool {
    c == 'a' || c == 'b' || c == 'f' || c == 'n' || c == 'r' || c == 't' || c == 'v' || c == '\\'
        || c == '?' || c == '\'' || c == '"' || c == '`'
}

/// The functions a condition may call: none of them panics on any argument
/// a condition can build, and none walks a map.
pub open spec fn is_callable(w: Seq<char>) -> bool {
    ||| w == "contains"@
    ||| w == "size"@
    ||| w == "has"@
    ||| w == "max"@
    ||| w == "min"@
    ||| w == "startsWith"@
    ||| w == "endsWith"@
    ||| w == "string"@
    ||| w == "double"@
    ||| w == "int"@
    ||| w == "uint"@
    ||| w == "matches"@
}

/// The symbols counted against the bound on depth.
pub open spec fn is_counted(c: char) -> bool {
    c == '.' || c == '?' || c == '!' || c == '&' || c == '|' || c == '(' || c == '[' || c == '{'
        || c == '=' || c == '<' || c == '>'
}

/// The most counted symbols a condition may hold. Every level of the
/// expression tree but the leaves needs one of them (or, for `in`, sits
/// right above one), so this bounds how deep the interpreter recurses.
pub open spec fn max_symbols() -> u8 {
    64
}

pub open spec fn start_state() -> ScanState {
    ScanState {
        ok: true,
        quote: None,
        raw: false,
        escaping: false,
        escape_hex: 0,
        comment: false,
        slash_pending: false,
        after_value: false,
        in_word: false,
        word_start: 0,
        word_end: 0,
        digits: 0,
        prev_zero: false,
        zero_start: false,
        hex: false,
        hex_digits: 0,
        minus_pending: false,
        ops: 0,
    }
}

pub open spec fn failed(st: ScanState) -> ScanState {
    ScanState { ok: false, ..st }
}

/// The last name or number seen, in the text `t` scanned so far.
pub open spec fn word_of(st: ScanState, t: Seq<char>) -> Seq<char> {
    t.subrange(st.word_start as int, st.word_end as int)
}

/// The state after a symbol (not a name, digit, blank or quote) ending at
/// position `n`.
pub open spec fn after_symbol(st: ScanState, n: usize, after_value: bool, minus: bool, ops: u8) -> ScanState {
    ScanState {
        after_value,
        in_word: false,
        word_start: n,
        word_end: n,
        digits: 0,
        prev_zero: false,
        zero_start: false,
        hex: false,
        minus_pending: minus,
        ops,
        ..st
    }
}

/// The state after a letter or `_` ending at position `n`.
pub open spec fn after_letter(st: ScanState, n: usize, hex: bool) -> ScanState {
    ScanState {
        after_value: true,
        in_word: true,
        word_start: if st.in_word { st.word_start } else { (n - 1) as usize },
        word_end: n,
        digits: 0,
        prev_zero: false,
        zero_start: false,
        hex,
        hex_digits: 0,
        minus_pending: false,
        ..st
    }
}

/// The state after a decimal digit `c` ending at position `n`.
pub open spec fn after_digit(st: ScanState, c: char, n: usize) -> ScanState {
    ScanState {
        after_value: true,
        in_word: true,
        word_start: if st.in_word { st.word_start } else { (n - 1) as usize },
        word_end: n,
        digits: (st.digits + 1) as u8,
        prev_zero: c == '0',
        zero_start: c == '0' && !st.in_word && !st.minus_pending,
        hex: false,
        minus_pending: false,
        ..st
    }
}

/// The state after a blank: the last word and whether a value ended are
/// kept.
pub open spec fn after_blank(st: ScanState) -> ScanState {
    ScanState { in_word: false, digits: 0, prev_zero: false, zero_start: false, hex: false, ..st }
}

/// The state after the quote that closes a string, at position `n`.
pub open spec fn after_string(st: ScanState, n: usize) -> ScanState {
    ScanState { quote: None, raw: false, ..after_symbol(st, n, true, false, st.ops) }
}

/// The state after the quote `c` that opens a string, at position `n`.
pub open spec fn in_string(st: ScanState, c: char, raw: bool, n: usize) -> ScanState {
    ScanState { quote: Some(c), raw, escaping: false, escape_hex: 0, ..after_symbol(st, n, false, false, st.ops) }
}

/// One step of the scan: `t` is the text scanned so far, its last
/// character the one read.
pub open spec fn scan_step(st: ScanState, t: Seq<char>) -> ScanState {
    let c = t.last();
    let n = t.len() as usize;
    if !st.ok {
        st
    } else if st.comment {
        if c == '\n' || c == '\r' {
            ScanState { comment: false, ..st }
        } else {
            st
        }
    } else if st.quote is Some {
        if st.escape_hex > 0 {
            if is_hex_digit(c) {
                ScanState { escape_hex: (st.escape_hex - 1) as u8, ..st }
            } else {
                failed(st)
            }
        } else if st.escaping {
            if st.raw {
                if c != '\n' && c != '\r' {
                    ScanState { escaping: false, ..st }
                } else {
                    failed(st)
                }
            } else if c == 'x' {
                ScanState { escaping: false, escape_hex: 2, ..st }
            } else if is_simple_escape(c) {
                ScanState { escaping: false, ..st }
            } else {
                failed(st)
            }
        } else if c == '\\' {
            ScanState { escaping: true, ..st }
        } else if st.quote == Some(c) {
            after_string(st, n)
        } else {
            st
        }
    } else if st.slash_pending {
        if c == '/' {
            ScanState { slash_pending: false, comment: true, ..st }
        } else {
            failed(st)
        }
    } else if st.minus_pending && !is_digit(c) {
        failed(st)
    } else if st.hex && is_hex_digit(c) {
        if st.hex_digits >= 15 {
            failed(st)
        } else {
            ScanState { hex_digits: (st.hex_digits + 1) as u8, ..after_letter(st, n, true) }
        }
    } else if is_digit(c) {
        if st.digits >= 18 {
            failed(st)
        } else {
            after_digit(st, c, n)
        }
    } else if is_name_char(c) {
        if st.prev_zero && (c == 'x' || c == 'X') {
            if st.zero_start {
                after_letter(st, n, true)
            } else {
                failed(st)
            }
        } else {
            after_letter(st, n, false)
        }
    } else if is_blank(c) {
        after_blank(st)
    } else if c == '"' || c == '\'' {
        if st.in_word && (t[t.len() - 2] == 'b' || t[t.len() - 2] == 'B') {
            failed(st)
        } else {
            in_string(
                st,
                c,
                st.in_word && (word_of(st, t) == "r"@ || word_of(st, t) == "R"@),
                n,
            )
        }
    } else if c == '/' {
        ScanState { slash_pending: true, ..after_blank(st) }
    } else if c == '-' {
        after_symbol(st, n, false, true, st.ops)
    } else if is_counted(c) && st.ops >= max_symbols() {
        failed(st)
    } else if is_opening(c) {
        if st.after_value && !(word_of(st, t) == "in"@ || (c == '(' && is_callable(word_of(st, t)))) {
            failed(st)
        } else {
            after_symbol(st, n, false, false, (st.ops + 1) as u8)
        }
    } else if c == '.' {
        after_symbol(st, n, true, false, (st.ops + 1) as u8)
    } else if c == ')' || c == ']' || c == '}' {
        after_symbol(st, n, true, false, st.ops)
    } else if c == ',' || c == ':' {
        after_symbol(st, n, false, false, st.ops)
    } else if is_counted(c) {
        after_symbol(st, n, false, false, (st.ops + 1) as u8)
    } else {
        failed(st)
    }
}

/// The state after scanning all of `s`.
pub open spec fn scan(s: Seq<char>) -> ScanState
    decreases s.len(),
{
    if s.len() == 0 {
        start_state()
    } else {
        scan_step(scan(s.drop_last()), s)
    }
}

/// The conditions this library evaluates (see the module documentation).
pub open spec fn supported_condition(s: Seq<char>) -> bool {
    let st = scan(s);
    st.ok && st.quote is None && !st.minus_pending && !st.slash_pending
}

/// The positions of the last word lie in the text scanned, and a word in
/// progress has a character before the current position.
pub open spec fn scan_wf(st: ScanState, n: int) -> bool {
    &&& st.word_start <= st.word_end <= n
    &&& (st.in_word ==> n >= 1)
}

pub proof fn lemma_scan_wf(t: Seq<char>)
    requires
        t.len() <= usize::MAX,
    ensures
        scan_wf(scan(t), t.len() as int),
    decreases t.len(),
{
    if t.len() > 0 {
        lemma_scan_wf(t.drop_last());
    }
}

/// Position `i` of `s` is code: it lies outside strings and comments.
pub open spec fn is_code_at(s: Seq<char>, i: int) -> bool {
    let st = scan(s.take(i));
    st.quote is None && !st.comment
}

/// How many of the first `n` characters of `s` are counted symbols in code.
pub open spec fn counted_in_code(s: Seq<char>, n: int) -> int
    decreases n,
{
    if n <= 0 {
        0
    } else {
        counted_in_code(s, n - 1) + if is_code_at(s, n - 1) && is_counted(s[n - 1]) {
            1int
        } else {
            0int
        }
    }
}

proof fn lemma_unfold_scan(s: Seq<char>, i: int)
    requires
        0 <= i < s.len(),
    ensures
        scan(s.take(i + 1)) == scan_step(scan(s.take(i)), s.take(i + 1)),
        s.take(i + 1).last() == s[i],
        s.take(i + 1).len() == i + 1,
{
    assert(s.take(i + 1).drop_last() =~= s.take(i));
}

/// A scan that ends well went well all along.
proof fn lemma_ok_before(s: Seq<char>, n: int, j: int)
    requires
        0 <= j <= n <= s.len(),
        scan(s.take(n)).ok,
    ensures
        scan(s.take(j)).ok,
    decreases n - j,
{
    if j < n {
        lemma_unfold_scan(s, n - 1);
        lemma_ok_before(s, n - 1, j);
    }
}

proof fn lemma_supported_ok(s: Seq<char>, j: int)
    requires
        supported_condition(s),
        0 <= j <= s.len(),
    ensures
        scan(s.take(j)).ok,
{
    assert(s.take(s.len() as int) =~= s);
    lemma_ok_before(s, s.len() as int, j);
}

/// In a supported condition, code holds no `+`, `*`, `%` or backslash; a
/// `/` begins a `//` comment; a `-` is followed by a digit; an opening
/// bracket after a value follows the keyword `in` or, for `(`, the name of
/// an allowed function; and no quote follows a `b` or `B` (no byte string).
pub proof fn lemma_supported_code(s: Seq<char>, i: int)
    requires
        supported_condition(s),
        0 <= i < s.len(),
        is_code_at(s, i),
        !scan(s.take(i)).slash_pending,
    ensures
        s[i] != '+' && s[i] != '*' && s[i] != '%' && s[i] != '\\',
        s[i] == '/' ==> i + 1 < s.len() && s[i + 1] == '/',
        s[i] == '-' ==> i + 1 < s.len() && is_digit(s[i + 1]),
        is_opening(s[i]) && scan(s.take(i)).after_value ==> ({
            let w = word_of(scan(s.take(i)), s.take(i + 1));
            w == "in"@ || (s[i] == '(' && is_callable(w))
        }),
        (s[i] == '"' || s[i] == '\'') && scan(s.take(i)).in_word ==> s[i - 1] != 'b' && s[i - 1] != 'B',
{
    lemma_supported_ok(s, i + 1);
    lemma_unfold_scan(s, i);
    if i >= 1 {
        assert(s.take(i + 1)[i - 1] == s[i - 1]);
    }
    let st = scan(s.take(i));
    assert(st.ok);
    if s[i] == '/' || s[i] == '-' {
        assert(s.take(s.len() as int) =~= s);
        if i + 1 < s.len() {
            lemma_supported_ok(s, i + 2);
            lemma_unfold_scan(s, i + 1);
        }
    }
}

/// In a supported condition, a backslash in a string that is not raw begins
/// one of the simple escapes or `\x`, and the two characters after `\x` are
/// hexadecimal digits.
pub proof fn lemma_supported_escape(s: Seq<char>, i: int)
    requires
        supported_condition(s),
        0 <= i < s.len(),
        scan(s.take(i)).quote is Some,
        !scan(s.take(i)).comment,
    ensures
        ({
            let st = scan(s.take(i));
            &&& (st.escaping && !st.raw && st.escape_hex == 0 ==> is_simple_escape(s[i]) || s[i] == 'x')
            &&& (st.escape_hex > 0 ==> is_hex_digit(s[i]))
            &&& (st.escaping && st.raw ==> s[i] != '\n' && s[i] != '\r')
        }),
{
    lemma_supported_ok(s, i + 1);
    lemma_unfold_scan(s, i);
}

/// A supported condition holds at most `max_symbols()` counted symbols in
/// code, which bounds the depth of its expression.
pub proof fn lemma_supported_symbols(s: Seq<char>)
    requires
        supported_condition(s),
    ensures
        counted_in_code(s, s.len() as int) <= max_symbols(),
{
    lemma_symbols_counted(s, s.len() as int);
    assert(s.take(s.len() as int) =~= s);
}

proof fn lemma_symbols_counted(s: Seq<char>, n: int)
    requires
        supported_condition(s),
        0 <= n <= s.len(),
    ensures
        scan(s.take(n)).ops == counted_in_code(s, n),
        scan(s.take(n)).ops <= max_symbols(),
    decreases n,
{
    if n > 0 {
        lemma_symbols_counted(s, n - 1);
        lemma_supported_ok(s, n);
        lemma_unfold_scan(s, n - 1);
    }
}

fn is_digit_char(c: char) -> (r: bool)
    ensures
        r == is_digit(c),
{
    '0' <= c && c <= '9'
}

fn is_hex_char(c: char) -> (r: bool)
    ensures
        r == is_hex_digit(c),
{
    ('0' <= c && c <= '9') || ('a' <= c && c <= 'f') || ('A' <= c && c <= 'F')
}

fn is_simple_escape_char(c: char) -> (r: bool)
    ensures
        r == is_simple_escape(c),
{
    c == 'a' || c == 'b' || c == 'f' || c == 'n' || c == 'r' || c == 't' || c == 'v' || c == '\\'
        || c == '?' || c == '\'' || c == '"' || c == '`'
}

fn is_counted_char(c: char) -> (r: bool)
    ensures
        r == is_counted(c),
{
    c == '.' || c == '?' || c == '!' || c == '&' || c == '|' || c == '(' || c == '[' || c == '{'
        || c == '=' || c == '<' || c == '>'
}

/// Whether `w` names one of the functions a condition may call.
fn callable(w: &str) -> (r: bool)
    ensures
        r == is_callable(w@),
{
    text_eq(w, "contains") || text_eq(w, "size") || text_eq(w, "has") || text_eq(w, "max")
        || text_eq(w, "min") || text_eq(w, "startsWith") || text_eq(w, "endsWith") || text_eq(
        w,
        "string",
    ) || text_eq(w, "double") || text_eq(w, "int") || text_eq(w, "uint") || text_eq(w, "matches")
}

fn symbol_to(st: ScanState, n: usize, after_value: bool, minus: bool, ops: u8) -> (r: ScanState)
    ensures
        r == after_symbol(st, n, after_value, minus, ops),
{
    ScanState {
        after_value,
        in_word: false,
        word_start: n,
        word_end: n,
        digits: 0,
        prev_zero: false,
        zero_start: false,
        hex: false,
        minus_pending: minus,
        ops,
        ..st
    }
}

fn letter_to(st: ScanState, n: usize, hex: bool) -> (r: ScanState)
    requires
        n >= 1,
    ensures
        r == after_letter(st, n, hex),
{
    ScanState {
        after_value: true,
        in_word: true,
        word_start: if st.in_word {
            st.word_start
        } else {
            n - 1
        },
        word_end: n,
        digits: 0,
        prev_zero: false,
        zero_start: false,
        hex,
        hex_digits: 0,
        minus_pending: false,
        ..st
    }
}

fn blank_to(st: ScanState) -> (r: ScanState)
    ensures
        r == after_blank(st),
{
    ScanState { in_word: false, digits: 0, prev_zero: false, zero_start: false, hex: false, ..st }
}

/// One step of the scan on the character at position `i` of `s`.
fn step(st: ScanState, s: &str, i: usize) -> (r: ScanState)
    requires
        i < s@.len(),
        s@.len() <= usize::MAX,
        scan_wf(st, i as int),
    ensures
        r == scan_step(st, s@.take(i + 1)),
{
    let ghost t = s@.take(i + 1);
    let c = s.get_char(i);
    let n = i + 1;
    assert(t.last() == c);
    assert(t.len() == n);
    let fail = ScanState { ok: false, ..st };
    if !st.ok {
        st
    } else if st.comment {
        if c == '\n' || c == '\r' {
            ScanState { comment: false, ..st }
        } else {
            st
        }
    } else if let Some(q) = st.quote {
        if st.escape_hex > 0 {
            if is_hex_char(c) {
                ScanState { escape_hex: st.escape_hex - 1, ..st }
            } else {
                fail
            }
        } else if st.escaping {
            if st.raw {
                if c != '\n' && c != '\r' {
                    ScanState { escaping: false, ..st }
                } else {
                    fail
                }
            } else if c == 'x' {
                ScanState { escaping: false, escape_hex: 2, ..st }
            } else if is_simple_escape_char(c) {
                ScanState { escaping: false, ..st }
            } else {
                fail
            }
        } else if c == '\\' {
            ScanState { escaping: true, ..st }
        } else if q == c {
            let p = symbol_to(st, n, true, false, st.ops);
            ScanState { quote: None, raw: false, ..p }
        } else {
            st
        }
    } else if st.slash_pending {
        if c == '/' {
            ScanState { slash_pending: false, comment: true, ..st }
        } else {
            fail
        }
    } else if st.minus_pending && !is_digit_char(c) {
        fail
    } else if st.hex && is_hex_char(c) {
        if st.hex_digits >= 15 {
            fail
        } else {
            let p = letter_to(st, n, true);
            ScanState { hex_digits: st.hex_digits + 1, ..p }
        }
    } else if is_digit_char(c) {
        if st.digits >= 18 {
            fail
        } else {
            ScanState {
                after_value: true,
                in_word: true,
                word_start: if st.in_word {
                    st.word_start
                } else {
                    i
                },
                word_end: n,
                digits: st.digits + 1,
                prev_zero: c == '0',
                zero_start: c == '0' && !st.in_word && !st.minus_pending,
                hex: false,
                minus_pending: false,
                ..st
            }
        }
    } else if ('a' <= c && c <= 'z') || ('A' <= c && c <= 'Z') || c == '_' {
        if st.prev_zero && (c == 'x' || c == 'X') {
            if st.zero_start {
                letter_to(st, n, true)
            } else {
                fail
            }
        } else {
            letter_to(st, n, false)
        }
    } else if c == ' ' || c == '\t' || c == '\n' || c == '\r' {
        blank_to(st)
    } else if c == '"' || c == '\'' {
        let before_b = if st.in_word {
            let p = s.get_char(i - 1);
            assert(t[t.len() - 2] == p);
            p == 'b' || p == 'B'
        } else {
            false
        };
        if before_b {
            fail
        } else {
            let raw = if st.in_word {
                let w = s.substring_char(st.word_start, st.word_end);
                assert(w@ =~= word_of(st, t));
                text_eq(w, "r") || text_eq(w, "R")
            } else {
                false
            };
            let p = symbol_to(st, n, false, false, st.ops);
            ScanState { quote: Some(c), raw, escaping: false, escape_hex: 0, ..p }
        }
    } else if c == '/' {
        let p = blank_to(st);
        ScanState { slash_pending: true, ..p }
    } else if c == '-' {
        symbol_to(st, n, false, true, st.ops)
    } else if is_counted_char(c) && st.ops >= 64 {
        fail
    } else if c == '(' || c == '[' || c == '{' {
        let allowed = if st.after_value {
            let w = s.substring_char(st.word_start, st.word_end);
            assert(w@ =~= word_of(st, t));
            text_eq(w, "in") || (c == '(' && callable(w))
        } else {
            true
        };
        if allowed {
            symbol_to(st, n, false, false, st.ops + 1)
        } else {
            fail
        }
    } else if c == '.' {
        symbol_to(st, n, true, false, st.ops + 1)
    } else if c == ')' || c == ']' || c == '}' {
        symbol_to(st, n, true, false, st.ops)
    } else if c == ',' || c == ':' {
        symbol_to(st, n, false, false, st.ops)
    } else if is_counted_char(c) {
        symbol_to(st, n, false, false, st.ops + 1)
    } else {
        fail
    }
}

/// Whether `s` lies in the fragment of CEL this library evaluates.
pub fn condition_supported(s: &str) -> (r: bool)
    ensures
        r == supported_condition(s@),
{
    let n = s.unicode_len();
    let mut st = ScanState {
        ok: true,
        quote: None,
        raw: false,
        escaping: false,
        escape_hex: 0,
        comment: false,
        slash_pending: false,
        after_value: false,
        in_word: false,
        word_start: 0,
        word_end: 0,
        digits: 0,
        prev_zero: false,
        zero_start: false,
        hex: false,
        hex_digits: 0,
        minus_pending: false,
        ops: 0,
    };
    let mut i: usize = 0;
    while i < n
        invariant
            n == s@.len(),
            i <= n,
            st == scan(s@.take(i as int)),
        decreases n - i,
    {
        proof {
            lemma_scan_wf(s@.take(i as int));
            assert(s@.take(i + 1).drop_last() =~= s@.take(i as int));
        }
        st = step(st, s, i);
        i = i + 1;
    }
    proof {
        assert(s@.take(n as int) =~= s@);
    }
    st.ok && st.quote.is_none() && !st.minus_pending && !st.slash_pending
}

} // verus!
