//! The reader: source text to values.
//!
//! The reader is a machine with one stack of open delimiters. Each level of
//! the stack holds the values read so far inside its delimiter and the
//! quoting marks that wait for the next value.

use vstd::prelude::*;
use crate::eval::builtins::insert_pairs;
use crate::line_count::{col_at, locate, row_at};
use crate::table::insert_entry;
use crate::text::{decimal, digit_value, is_digit, push_decimal_nat, string_of, to_chars};
use crate::types::{entry_vals, two, vals, Val, Value};

verus! {

broadcast use crate::types::group_value_models;

/// A quoting mark in front of a value.
#[derive(Clone, Copy, Debug, PartialEq, Eq, Structural)]
pub enum Wrap {
    /// `'x` reads as `(quote x)`.
    Quote,
    /// `` `x `` reads as `(quasiquote x)`.
    Quasiquote,
    /// `~x` reads as `(unquote x)`.
    Unquote,
}

/// An opening delimiter.
#[derive(Clone, Copy, Debug, PartialEq, Eq, Structural)]
pub enum Opener {
    /// `(`: the values up to `)` as a list.
    Paren,
    /// `[`: the values up to `]` as a list behind the symbol `list`.
    Bracket,
    /// `{`: the values up to `}` as the keys and values of a table.
    Brace,
}

/// One level of the reader's stack.
pub struct Level {
    /// The values read so far at this level.
    pub items: Vec<Value>,
    /// The quoting marks that wait for the next value, the outermost first.
    pub wraps: Vec<Wrap>,
    /// The delimiter that opened the level; none at the top level.
    pub opener: Option<Opener>,
    /// The index of that delimiter in the text.
    pub at: usize,
}

/// The model of a level.
pub struct LevelV {
    pub items: Seq<Val>,
    pub wraps: Seq<Wrap>,
    pub opener: Option<Opener>,
    pub at: int,
}

impl View for Level {
    type V = LevelV;

    open spec fn view(&self) -> LevelV {
        LevelV {
            items: vals(self.items@),
            wraps: self.wraps@,
            opener: self.opener,
            at: self.at as int,
        }
    }
}

/// The models of the levels of a stack.
pub open spec fn levels_view(l: Seq<Level>) -> Seq<LevelV> {
    Seq::new(l.len(), |i: int| l[i]@)
}

/// What one token leaves: the index behind it, the stack, and the value
/// that it completed, if it completed one.
pub struct Scan {
    pub next: int,
    pub levels: Seq<LevelV>,
    pub value: Option<Val>,
}

/// The symbol that a quoting mark stands for.
pub open spec fn wrap_name(w: Wrap) -> Seq<char> {
    match w {
        Wrap::Quote => "quote"@,
        Wrap::Quasiquote => "quasiquote"@,
        Wrap::Unquote => "unquote"@,
    }
}

/// A value inside its quoting marks: the last mark is the innermost.
pub open spec fn wrapped(wraps: Seq<Wrap>, v: Val) -> Val
    decreases wraps.len(),
{
    if wraps.len() == 0 {
        v
    } else {
        wrapped(
            wraps.drop_last(),
            Val::List(seq![Val::Symbol(wrap_name(wraps.last())), v]),
        )
    }
}

/// The stack after a value was read: the value, inside the marks that
/// waited for it, is the next item of the innermost level.
pub open spec fn emit_spec(levels: Seq<LevelV>, v: Val) -> Seq<LevelV> {
    if levels.len() == 0 {
        levels
    } else {
        let top = levels.last();
        levels.update(
            levels.len() - 1,
            LevelV { items: top.items.push(wrapped(top.wraps, v)), wraps: seq![], ..top },
        )
    }
}

/// The stack after a form was put in that no quoting mark applies to.
pub open spec fn add_plain(levels: Seq<LevelV>, v: Val) -> Seq<LevelV> {
    if levels.len() == 0 {
        levels
    } else {
        let top = levels.last();
        levels.update(levels.len() - 1, LevelV { items: top.items.push(v), ..top })
    }
}

/// The stack after a quoting mark was read.
pub open spec fn add_wrap(levels: Seq<LevelV>, w: Wrap) -> Seq<LevelV> {
    if levels.len() == 0 {
        levels
    } else {
        let top = levels.last();
        levels.update(levels.len() - 1, LevelV { wraps: top.wraps.push(w), ..top })
    }
}

/// The stack after a delimiter was opened at the index `at`.
pub open spec fn open_level(levels: Seq<LevelV>, opener: Opener, at: int) -> Seq<LevelV> {
    levels.push(LevelV { items: seq![], wraps: seq![], opener: Some(opener), at })
}

/// Space, tab and line break part tokens.
pub open spec fn is_space(c: char) -> bool {
    c == ' ' || c == '\t' || c == '\n'
}

/// The characters that end a symbol.
pub open spec fn ends_symbol(c: char) -> bool {
    is_space(c) || c == '(' || c == ')' || c == '[' || c == ']' || c == '#' || c == '{' || c
        == '}'
}

/// The characters that end an integer.
pub open spec fn ends_int(c: char) -> bool {
    ends_symbol(c) || c == '\''
}

/// The index of the first line break from `i` on, or the length of the text.
pub open spec fn line_end(s: Seq<char>, i: int) -> int
    decreases s.len() - i,
{
    if i < 0 || i >= s.len() {
        s.len() as int
    } else if s[i] == '\n' {
        i
    } else {
        line_end(s, i + 1)
    }
}

/// The index behind the line that ends at `end`.
pub open spec fn next_line(s: Seq<char>, end: int) -> int {
    if end < s.len() {
        end + 1
    } else {
        s.len() as int
    }
}

/// The index of the first character from `i` on that ends a symbol, or the
/// length of the text.
pub open spec fn sym_end(s: Seq<char>, i: int) -> int
    decreases s.len() - i,
{
    if i < 0 || i >= s.len() {
        s.len() as int
    } else if ends_symbol(s[i]) {
        i
    } else {
        sym_end(s, i + 1)
    }
}

/// Reads the digits of an integer from `i` on, with `acc` read so far. Gives
/// the number, wrapped to 32 bits, and the index of the character that ends
/// the integer; or the index of a character that is neither a digit nor an
/// end.
pub open spec fn scan_int(s: Seq<char>, i: int, acc: u32) -> Result<(u32, int), int>
    decreases s.len() - i,
{
    if i < 0 || i >= s.len() || ends_int(s[i]) {
        Ok((acc, if i < 0 || i >= s.len() { s.len() as int } else { i }))
    } else if !is_digit(s[i]) {
        Err(i)
    } else {
        scan_int(s, i + 1, acc.wrapping_mul(10).wrapping_add(digit_value(s[i]) as u32))
    }
}

/// The 32 bits of `acc` as a signed integer.
pub open spec fn as_signed(acc: u32) -> i32 {
    if acc <= 0x7fff_ffff {
        acc as i32
    } else {
        (acc - 0x1_0000_0000) as i32
    }
}

/// The index of the double quote that ends the string whose text starts at
/// `i`. A backslash takes the character behind it along. Nothing where the
/// text ends before the string does.
pub open spec fn string_end(s: Seq<char>, i: int) -> Option<int>
    decreases s.len() - i,
{
    if i < 0 || i >= s.len() {
        None
    } else if s[i] == '"' {
        Some(i)
    } else if s[i] == '\\' {
        if i + 1 >= s.len() {
            None
        } else {
            string_end(s, i + 2)
        }
    } else {
        string_end(s, i + 1)
    }
}

/// The text `s` from `i` on behind `acc`, with each pair `a b` that does not
/// overlap an earlier one replaced by `to`.
pub open spec fn replace_pair(s: Seq<char>, i: int, a: char, b: char, to: char, acc: Seq<char>) -> Seq<
    char,
>
    decreases s.len() - i,
{
    if i < 0 || i >= s.len() {
        acc
    } else if i + 1 < s.len() && s[i] == a && s[i + 1] == b {
        replace_pair(s, i + 2, a, b, to, acc.push(to))
    } else {
        replace_pair(s, i + 1, a, b, to, acc.push(s[i]))
    }
}

/// What a string literal stands for: first every `\n` becomes a line break,
/// then every `\\` a backslash.
pub open spec fn unescape(raw: Seq<char>) -> Seq<char> {
    replace_pair(replace_pair(raw, 0, '\\', 'n', '\n', seq![]), 0, '\\', '\\', '\\', seq![])
}

/// The row and the column after the first `n` characters, as `row:col`.
pub open spec fn place(s: Seq<char>, n: int) -> Seq<char> {
    decimal(row_at(s, n) as int) + seq![':'] + decimal(col_at(s, n) as int)
}

/// The name of the delimiter that closes what `opener` opened.
pub open spec fn delimiter_name(opener: Opener) -> Seq<char> {
    match opener {
        Opener::Paren => "parenthesis"@,
        Opener::Bracket => "square bracket"@,
        Opener::Brace => "curly bracket"@,
    }
}

/// The message for a closing delimiter that closes nothing.
pub open spec fn unmatched_closing(s: Seq<char>, opener: Opener, pos: int) -> Seq<char> {
    "Unmatched closing "@ + delimiter_name(opener) + " at "@ + place(s, pos + 1)
}

/// The message for an opening delimiter that is never closed.
pub open spec fn unmatched_opening(s: Seq<char>, opener: Opener, at: int) -> Seq<char> {
    "Unmatched opening "@ + delimiter_name(opener) + " at "@ + place(s, at + 1)
}

/// The message for a table with a key that has no value.
pub open spec fn invalid_table(s: Seq<char>, pos: int) -> Seq<char> {
    "Invalid table syntax at "@ + place(s, pos + 1)
}

/// The message for a character inside an integer that is no digit.
pub open spec fn invalid_digit(s: Seq<char>, bad: int) -> Seq<char> {
    "Invalid character in int literal: `"@ + seq![s[bad]] + "`; "@ + place(s, bad + 1)
}

/// The message for a string that does not end.
pub open spec fn unmatched_quote(s: Seq<char>, pos: int) -> Seq<char> {
    "Unmatched quote; "@ + place(s, pos + 1)
}

/// The value that a closed delimiter makes of the items read inside it.
/// Nothing for a table with an odd number of items.
pub open spec fn close_value(opener: Opener, items: Seq<Val>) -> Option<Val> {
    match opener {
        Opener::Paren => Some(Val::List(items)),
        Opener::Bracket => Some(Val::List(seq![Val::Symbol("list"@)] + items)),
        Opener::Brace => if items.len() % 2 == 0 {
            Some(Val::Table(insert_pairs(seq![], items, 0)))
        } else {
            None
        },
    }
}

/// A closing delimiter at `pos`. It has to close the innermost level, with
/// no quoting mark waiting there.
pub open spec fn close_spec(s: Seq<char>, pos: int, levels: Seq<LevelV>, opener: Opener) -> Result<
    Scan,
    Seq<char>,
> {
    if levels.len() < 2 || levels.last().opener != Some(opener) || levels.last().wraps.len()
        > 0 {
        Err(unmatched_closing(s, opener, pos))
    } else {
        match close_value(opener, levels.last().items) {
            Some(v) => Ok(Scan { next: pos + 1, levels: levels.drop_last(), value: Some(v) }),
            None => Err(invalid_table(s, pos)),
        }
    }
}

/// The form that a documentation comment stands for.
pub open spec fn doc_form(text: Seq<char>) -> Val {
    Val::List(seq![Val::Symbol("doc"@), Val::Str(text)])
}

/// The token at `pos`, where `pos` is inside the text.
pub open spec fn token_spec(s: Seq<char>, pos: int, levels: Seq<LevelV>) -> Result<Scan, Seq<char>> {
    let c = s[pos];
    if c == '#' {
        if pos + 1 < s.len() && s[pos + 1] == '#' {
            let start = if pos + 2 < s.len() && s[pos + 2] == ' ' {
                pos + 3
            } else {
                pos + 2
            };
            let end = line_end(s, start);
            Ok(
                Scan {
                    next: next_line(s, end),
                    levels: add_plain(levels, doc_form(s.subrange(start, end))),
                    value: None,
                },
            )
        } else {
            Ok(Scan { next: next_line(s, line_end(s, pos + 1)), levels, value: None })
        }
    } else if c == '{' {
        Ok(Scan { next: pos + 1, levels: open_level(levels, Opener::Brace, pos), value: None })
    } else if c == '}' {
        close_spec(s, pos, levels, Opener::Brace)
    } else if c == '(' {
        Ok(Scan { next: pos + 1, levels: open_level(levels, Opener::Paren, pos), value: None })
    } else if c == ')' {
        close_spec(s, pos, levels, Opener::Paren)
    } else if c == '[' {
        Ok(Scan { next: pos + 1, levels: open_level(levels, Opener::Bracket, pos), value: None })
    } else if c == ']' {
        close_spec(s, pos, levels, Opener::Bracket)
    } else if c == '\'' {
        Ok(Scan { next: pos + 1, levels: add_wrap(levels, Wrap::Quote), value: None })
    } else if c == '`' {
        Ok(Scan { next: pos + 1, levels: add_wrap(levels, Wrap::Quasiquote), value: None })
    } else if c == '~' {
        Ok(Scan { next: pos + 1, levels: add_wrap(levels, Wrap::Unquote), value: None })
    } else if is_space(c) {
        Ok(Scan { next: pos + 1, levels, value: None })
    } else if is_digit(c) {
        match scan_int(s, pos + 1, digit_value(c) as u32) {
            Ok((acc, end)) => Ok(Scan { next: end, levels, value: Some(Val::Int(as_signed(acc))) }),
            Err(bad) => Err(invalid_digit(s, bad)),
        }
    } else if c == '"' {
        match string_end(s, pos + 1) {
            Some(end) => Ok(
                Scan {
                    next: end + 1,
                    levels,
                    value: Some(Val::Str(unescape(s.subrange(pos + 1, end)))),
                },
            ),
            None => Err(unmatched_quote(s, pos)),
        }
    } else {
        let end = sym_end(s, pos + 1);
        Ok(Scan { next: end, levels, value: Some(Val::Symbol(s.subrange(pos, end))) })
    }
}

/// Where the scanners stop.
pub proof fn lemma_scan_bounds(s: Seq<char>, i: int, acc: u32)
    requires
        0 <= i <= s.len(),
    ensures
        i <= line_end(s, i) <= s.len(),
        i <= sym_end(s, i) <= s.len(),
        scan_int(s, i, acc) matches Ok(r) ==> i <= r.1 <= s.len(),
        scan_int(s, i, acc) matches Err(bad) ==> i <= bad < s.len(),
        string_end(s, i) matches Some(end) ==> i <= end < s.len(),
    decreases s.len() - i,
{
    if i < s.len() {
        lemma_scan_bounds(
            s,
            i + 1,
            acc.wrapping_mul(10).wrapping_add(digit_value(s[i]) as u32),
        );
        if i + 1 < s.len() {
            lemma_scan_bounds(s, i + 2, acc);
        }
    }
}

/// A token is at least one character long and ends inside the text.
pub proof fn lemma_token_advances(s: Seq<char>, pos: int, levels: Seq<LevelV>)
    requires
        0 <= pos < s.len(),
    ensures
        token_spec(s, pos, levels) matches Ok(sc) ==> pos < sc.next <= s.len(),
{
    let c = s[pos];
    lemma_scan_bounds(s, pos + 1, digit_value(c) as u32);
    if pos + 1 < s.len() {
        lemma_scan_bounds(s, pos + 2, 0);
        if pos + 2 < s.len() {
            lemma_scan_bounds(s, pos + 3, 0);
        }
    }
}

/// Reads tokens from `pos` on until one completes a value. Gives nothing
/// for the value where the text ends first.
pub open spec fn read_value_spec(s: Seq<char>, pos: int, levels: Seq<LevelV>) -> Result<
    Scan,
    Seq<char>,
>
    decreases s.len() - pos,
{
    if pos < 0 || pos >= s.len() {
        Ok(Scan { next: pos, levels, value: None })
    } else {
        proof {
            lemma_token_advances(s, pos, levels);
        }
        match token_spec(s, pos, levels) {
            Ok(sc) => if sc.value is Some {
                Ok(sc)
            } else {
                read_value_spec(s, sc.next, sc.levels)
            },
            Err(msg) => Err(msg),
        }
    }
}

/// A value is only completed by reading at least one character.
pub proof fn lemma_read_value_advances(s: Seq<char>, pos: int, levels: Seq<LevelV>)
    requires
        0 <= pos,
    ensures
        read_value_spec(s, pos, levels) matches Ok(sc) ==> (sc.value is Some ==> pos < sc.next
            <= s.len()) && pos <= sc.next,
    decreases s.len() - pos,
{
    if pos < s.len() {
        lemma_token_advances(s, pos, levels);
        match token_spec(s, pos, levels) {
            Ok(sc) => {
                if sc.value is None {
                    lemma_read_value_advances(s, sc.next, sc.levels);
                }
            },
            Err(_) => {},
        }
    }
}

/// The end of the text: the program is the list of the top-level forms
/// behind the symbol `do`. A delimiter that is still open is an error.
pub open spec fn finish_spec(s: Seq<char>, levels: Seq<LevelV>) -> Result<Val, Seq<char>> {
    if levels.len() == 1 {
        Ok(Val::List(seq![Val::Symbol("do"@)] + levels[0].items))
    } else if levels.len() > 1 && levels.last().opener is Some {
        Err(unmatched_opening(s, levels.last().opener->0, levels.last().at))
    } else {
        Err("Unmatched opening parenthesis"@)
    }
}

/// Reads the text from `pos` on, value by value.
pub open spec fn read_all(s: Seq<char>, pos: int, levels: Seq<LevelV>) -> Result<Val, Seq<char>>
    decreases s.len() - pos,
{
    if pos < 0 {
        finish_spec(s, levels)
    } else {
        proof {
            lemma_read_value_advances(s, pos, levels);
        }
        match read_value_spec(s, pos, levels) {
            Ok(sc) => match sc.value {
                Some(v) => read_all(s, sc.next, emit_spec(sc.levels, v)),
                None => finish_spec(s, sc.levels),
            },
            Err(msg) => Err(msg),
        }
    }
}

/// The stack before anything is read: the top level alone.
pub open spec fn top_level() -> Seq<LevelV> {
    seq![LevelV { items: seq![], wraps: seq![], opener: None, at: 0 }]
}

/// The program that a source text stands for, or the message that says
/// what is wrong with the text, and where.
pub open spec fn parse_spec(s: Seq<char>) -> Result<Val, Seq<char>> {
    read_all(s, 0, top_level())
}

/// The model of what the reader gives.
pub open spec fn parsed_val(r: Result<Value, String>) -> Result<Val, Seq<char>> {
    match r {
        Ok(v) => Ok(v@),
        Err(msg) => Err(msg@),
    }
}

fn is_space_char(c: char) -> (r: bool)
    ensures
        r == is_space(c),
{
    c == ' ' || c == '\t' || c == '\n'
}

fn ends_symbol_char(c: char) -> (r: bool)
    ensures
        r == ends_symbol(c),
{
    is_space_char(c) || c == '(' || c == ')' || c == '[' || c == ']' || c == '#' || c == '{'
        || c == '}'
}

fn find_line_end(chars: &Vec<char>, from: usize) -> (end: usize)
    requires
        from <= chars.len(),
    ensures
        end == line_end(chars@, from as int),
        from <= end <= chars.len(),
{
    let mut i: usize = from;
    while i < chars.len() && chars[i] != '\n'
        invariant
            from <= i <= chars.len(),
            line_end(chars@, i as int) == line_end(chars@, from as int),
        decreases chars.len() - i,
    {
        i += 1;
    }
    i
}

fn find_sym_end(chars: &Vec<char>, from: usize) -> (end: usize)
    requires
        from <= chars.len(),
    ensures
        end == sym_end(chars@, from as int),
        from <= end <= chars.len(),
{
    let mut i: usize = from;
    while i < chars.len() && !ends_symbol_char(chars[i])
        invariant
            from <= i <= chars.len(),
            sym_end(chars@, i as int) == sym_end(chars@, from as int),
        decreases chars.len() - i,
    {
        i += 1;
    }
    i
}

fn read_int(chars: &Vec<char>, from: usize, first: u32) -> (r: Result<(u32, usize), usize>)
    requires
        from <= chars.len(),
    ensures
        match r {
            Ok((acc, end)) => scan_int(chars@, from as int, first) == Ok::<(u32, int), int>(
                (acc, end as int),
            ) && from <= end <= chars.len(),
            Err(bad) => scan_int(chars@, from as int, first) == Err::<(u32, int), int>(bad as int)
                && from <= bad < chars.len(),
        },
{
    let mut acc: u32 = first;
    let mut i: usize = from;
    while i < chars.len()
        invariant
            from <= i <= chars.len(),
            scan_int(chars@, i as int, acc) == scan_int(chars@, from as int, first),
        decreases chars.len() - i,
    {
        let c = chars[i];
        if ends_symbol_char(c) || c == '\'' {
            return Ok((acc, i));
        }
        if !(c >= '0' && c <= '9') {
            return Err(i);
        }
        acc = acc.wrapping_mul(10).wrapping_add(c as u32 - '0' as u32);
        i += 1;
    }
    Ok((acc, i))
}

fn to_signed(acc: u32) -> (r: i32)
    ensures
        r == as_signed(acc),
{
    if acc <= 0x7fff_ffff {
        acc as i32
    } else {
        ((acc - 0x8000_0000) as i64 - 0x8000_0000i64) as i32
    }
}

fn find_string_end(chars: &Vec<char>, from: usize) -> (r: Option<usize>)
    requires
        from <= chars.len(),
    ensures
        match r {
            Some(end) => string_end(chars@, from as int) == Some(end as int) && from <= end
                < chars.len(),
            None => string_end(chars@, from as int) is None,
        },
{
    let mut i: usize = from;
    while i < chars.len()
        invariant
            from <= i <= chars.len(),
            string_end(chars@, i as int) == string_end(chars@, from as int),
        decreases chars.len() - i,
    {
        let c = chars[i];
        if c == '"' {
            return Some(i);
        }
        if c == '\\' {
            if chars.len() - i <= 1 {
                return None;
            }
            i += 2;
        } else {
            i += 1;
        }
    }
    None
}

fn replace_in(v: &Vec<char>, a: char, b: char, to: char) -> (res: Vec<char>)
    ensures
        res@ == replace_pair(v@, 0, a, b, to, seq![]),
{
    let mut out: Vec<char> = Vec::new();
    let mut i: usize = 0;
    while i < v.len()
        invariant
            i <= v.len(),
            replace_pair(v@, i as int, a, b, to, out@) == replace_pair(v@, 0, a, b, to, seq![]),
        decreases v.len() - i,
    {
        if v.len() - i > 1 && v[i] == a && v[i + 1] == b {
            out.push(to);
            i += 2;
        } else {
            out.push(v[i]);
            i += 1;
        }
    }
    out
}

/// The text of a string literal: the characters `chars[from..to]` with the
/// escapes resolved.
fn literal_text(chars: &Vec<char>, from: usize, to: usize) -> (res: String)
    requires
        from <= to <= chars.len(),
    ensures
        res@ == unescape(chars@.subrange(from as int, to as int)),
{
    let mut raw: Vec<char> = Vec::new();
    let mut i: usize = from;
    while i < to
        invariant
            from <= i <= to <= chars.len(),
            raw@ == chars@.subrange(from as int, i as int),
        decreases to - i,
    {
        raw.push(chars[i]);
        i += 1;
        assert(chars@.subrange(from as int, i as int) == chars@.subrange(from as int, i - 1).push(
            chars@[i - 1],
        ));
    }
    let first = replace_in(&raw, '\\', 'n', '\n');
    let second = replace_in(&first, '\\', '\\', '\\');
    string_of(&second, 0, second.len())
}

/// Appends `row:col` for the place after the first `n` characters.
fn push_place(out: &mut String, chars: &Vec<char>, n: usize)
    ensures
        final(out)@ == old(out)@ + place(chars@, n as int),
{
    let (row, col) = locate(chars, n);
    push_decimal_nat(out, row as u64);
    out.push(':');
    push_decimal_nat(out, col as u64);
    assert(out@ == old(out)@ + place(chars@, n as int));
}

fn name_of(opener: Opener) -> (r: &'static str)
    ensures
        r@ == delimiter_name(opener),
{
    match opener {
        Opener::Paren => "parenthesis",
        Opener::Bracket => "square bracket",
        Opener::Brace => "curly bracket",
    }
}

fn closing_message(chars: &Vec<char>, opener: Opener, pos: usize) -> (res: String)
    requires
        pos < chars.len(),
    ensures
        res@ == unmatched_closing(chars@, opener, pos as int),
{
    let mut out = "Unmatched closing ".to_owned();
    out.append(name_of(opener));
    out.append(" at ");
    push_place(&mut out, chars, pos + 1);
    out
}

fn opening_message(chars: &Vec<char>, opener: Opener, at: usize) -> (res: String)
    ensures
        res@ == unmatched_opening(chars@, opener, at as int),
{
    let mut out = "Unmatched opening ".to_owned();
    out.append(name_of(opener));
    out.append(" at ");
    if at < chars.len() {
        push_place(&mut out, chars, at + 1);
    } else {
        // past the end of the text every place is 0:0
        let ghost before = out@;
        push_decimal_nat(&mut out, 0);
        out.push(':');
        push_decimal_nat(&mut out, 0);
        assert(out@ == before + place(chars@, at + 1));
    }
    out
}

fn table_message(chars: &Vec<char>, pos: usize) -> (res: String)
    requires
        pos < chars.len(),
    ensures
        res@ == invalid_table(chars@, pos as int),
{
    let mut out = "Invalid table syntax at ".to_owned();
    push_place(&mut out, chars, pos + 1);
    out
}

fn digit_message(chars: &Vec<char>, bad: usize) -> (res: String)
    requires
        bad < chars.len(),
    ensures
        res@ == invalid_digit(chars@, bad as int),
{
    let mut out = "Invalid character in int literal: `".to_owned();
    out.push(chars[bad]);
    out.append("`; ");
    push_place(&mut out, chars, bad + 1);
    assert(out@ == invalid_digit(chars@, bad as int));
    out
}

fn quote_message(chars: &Vec<char>, pos: usize) -> (res: String)
    requires
        pos < chars.len(),
    ensures
        res@ == unmatched_quote(chars@, pos as int),
{
    let mut out = "Unmatched quote; ".to_owned();
    push_place(&mut out, chars, pos + 1);
    out
}

/// A value inside its quoting marks.
fn wrap_value(wraps: &Vec<Wrap>, v: Value) -> (res: Value)
    ensures
        res@ == wrapped(wraps@, v@),
{
    let mut out = v;
    let mut k: usize = wraps.len();
    assert(wraps@.take(k as int) == wraps@);
    while k > 0
        invariant
            k <= wraps.len(),
            wrapped(wraps@.take(k as int), out@) == wrapped(wraps@, v@),
        decreases k,
    {
        k -= 1;
        let name = match wraps[k] {
            Wrap::Quote => "quote",
            Wrap::Quasiquote => "quasiquote",
            Wrap::Unquote => "unquote",
        };
        proof {
            assert(wraps@.take(k + 1).drop_last() == wraps@.take(k as int));
            assert(wraps@.take(k + 1).last() == wraps@[k as int]);
        }
        out = Value::List(two(Value::symbol(name), out));
    }
    out
}

/// Puts a value that was read into the innermost level.
pub fn emit(levels: &mut Vec<Level>, v: Value)
    ensures
        levels_view(final(levels)@) == emit_spec(levels_view(old(levels)@), v@),
{
    match levels.pop() {
        Some(top) => {
            let Level { items, wraps, opener, at } = top;
            let mut items = items;
            let ghost before = vals(items@);
            let w = wrap_value(&wraps, v);
            items.push(w);
            assert(vals(items@) =~= before.push(w@));
            levels.push(Level { items, wraps: Vec::new(), opener, at });
            assert(levels_view(levels@) =~= emit_spec(levels_view(old(levels)@), v@));
        },
        None => {
            assert(levels_view(levels@) =~= emit_spec(levels_view(old(levels)@), v@));
        },
    }
}

fn put_plain(levels: &mut Vec<Level>, v: Value)
    ensures
        levels_view(final(levels)@) == add_plain(levels_view(old(levels)@), v@),
{
    match levels.pop() {
        Some(top) => {
            let Level { items, wraps, opener, at } = top;
            let mut items = items;
            let ghost before = vals(items@);
            items.push(v);
            assert(vals(items@) =~= before.push(v@));
            levels.push(Level { items, wraps, opener, at });
            assert(levels_view(levels@) =~= add_plain(levels_view(old(levels)@), v@));
        },
        None => {
            assert(levels_view(levels@) =~= add_plain(levels_view(old(levels)@), v@));
        },
    }
}

fn put_wrap(levels: &mut Vec<Level>, w: Wrap)
    ensures
        levels_view(final(levels)@) == add_wrap(levels_view(old(levels)@), w),
{
    match levels.pop() {
        Some(top) => {
            let Level { items, wraps, opener, at } = top;
            let mut wraps = wraps;
            wraps.push(w);
            levels.push(Level { items, wraps, opener, at });
            assert(levels_view(levels@) =~= add_wrap(levels_view(old(levels)@), w));
        },
        None => {
            assert(levels_view(levels@) =~= add_wrap(levels_view(old(levels)@), w));
        },
    }
}

fn open(levels: &mut Vec<Level>, opener: Opener, at: usize)
    ensures
        levels_view(final(levels)@) == open_level(levels_view(old(levels)@), opener, at as int),
{
    let items: Vec<Value> = Vec::new();
    assert(vals(items@) =~= seq![]);
    levels.push(Level { items, wraps: Vec::new(), opener: Some(opener), at });
    assert(levels_view(levels@) =~= open_level(levels_view(old(levels)@), opener, at as int));
}

/// The table whose keys and values are the items, in pairs.
fn table_of(items: &Vec<Value>) -> (res: Vec<(Value, Value)>)
    requires
        items.len() % 2 == 0,
    ensures
        entry_vals(res@) == insert_pairs(seq![], vals(items@), 0),
{
    let mut table: Vec<(Value, Value)> = Vec::new();
    assert(entry_vals(table@) =~= seq![]);
    let mut i: usize = 0;
    while i < items.len()
        invariant
            i <= items.len(),
            i % 2 == 0,
            items.len() % 2 == 0,
            insert_pairs(entry_vals(table@), vals(items@), i as int) == insert_pairs(
                seq![],
                vals(items@),
                0,
            ),
        decreases items.len() - i,
    {
        insert_entry(&mut table, items[i].clone(), items[i + 1].clone());
        i += 2;
    }
    table
}

fn same_opener(a: Option<Opener>, b: Opener) -> (r: bool)
    ensures
        r == (a == Some(b)),
{
    match a {
        Some(x) => x == b,
        None => false,
    }
}

fn close(chars: &Vec<char>, pos: usize, levels: &mut Vec<Level>, opener: Opener) -> (res: Result<
    (usize, Option<Value>),
    String,
>)
    requires
        pos < chars.len(),
    ensures
        match res {
            Ok((next, value)) => close_spec(chars@, pos as int, levels_view(old(levels)@), opener)
                == Ok::<Scan, Seq<char>>(
                Scan {
                    next: next as int,
                    levels: levels_view(final(levels)@),
                    value: match value {
                        Some(v) => Some(v@),
                        None => None,
                    },
                },
            ) && next == pos + 1,
            Err(msg) => close_spec(chars@, pos as int, levels_view(old(levels)@), opener) == Err::<
                Scan,
                Seq<char>,
            >(msg@),
        },
{
    let n = levels.len();
    if n < 2 {
        return Err(closing_message(chars, opener, pos));
    }
    assert(levels_view(levels@).last() == levels@[n - 1]@);
    if !same_opener(levels[n - 1].opener, opener) || levels[n - 1].wraps.len() > 0 {
        return Err(closing_message(chars, opener, pos));
    }
    if let Opener::Brace = opener {
        if levels[n - 1].items.len() % 2 != 0 {
            return Err(table_message(chars, pos));
        }
    }
    let top = match levels.pop() {
        Some(top) => top,
        None => {
            return Err(closing_message(chars, opener, pos));
        },
    };
    assert(levels_view(levels@) =~= levels_view(old(levels)@).drop_last());
    let value = match opener {
        Opener::Paren => Value::List(top.items),
        Opener::Bracket => {
            let mut items = top.items;
            let ghost before = vals(items@);
            items.insert(0, Value::symbol("list"));
            assert(vals(items@) =~= seq![Val::Symbol("list"@)] + before);
            Value::List(items)
        },
        Opener::Brace => Value::Table(table_of(&top.items)),
    };
    Ok((pos + 1, Some(value)))
}

/// Reads the token at `pos`.
fn token(chars: &Vec<char>, pos: usize, levels: &mut Vec<Level>) -> (res: Result<
    (usize, Option<Value>),
    String,
>)
    requires
        pos < chars.len(),
    ensures
        match res {
            Ok((next, value)) => token_spec(chars@, pos as int, levels_view(old(levels)@)) == Ok::<
                Scan,
                Seq<char>,
            >(
                Scan {
                    next: next as int,
                    levels: levels_view(final(levels)@),
                    value: match value {
                        Some(v) => Some(v@),
                        None => None,
                    },
                },
            ) && pos < next <= chars.len(),
            Err(msg) => token_spec(chars@, pos as int, levels_view(old(levels)@)) == Err::<
                Scan,
                Seq<char>,
            >(msg@),
        },
{
    let c = chars[pos];
    let len = chars.len();
    if c == '#' {
        if len - pos > 1 && chars[pos + 1] == '#' {
            let start = if len - pos > 2 && chars[pos + 2] == ' ' {
                pos + 3
            } else {
                pos + 2
            };
            let end = find_line_end(chars, start);
            let text = string_of(chars, start, end);
            put_plain(levels, Value::List(two(Value::symbol("doc"), Value::String(text))));
            let next = if end < len {
                end + 1
            } else {
                len
            };
            Ok((next, None))
        } else {
            let end = find_line_end(chars, pos + 1);
            let next = if end < len {
                end + 1
            } else {
                len
            };
            Ok((next, None))
        }
    } else if c == '{' {
        open(levels, Opener::Brace, pos);
        Ok((pos + 1, None))
    } else if c == '}' {
        close(chars, pos, levels, Opener::Brace)
    } else if c == '(' {
        open(levels, Opener::Paren, pos);
        Ok((pos + 1, None))
    } else if c == ')' {
        close(chars, pos, levels, Opener::Paren)
    } else if c == '[' {
        open(levels, Opener::Bracket, pos);
        Ok((pos + 1, None))
    } else if c == ']' {
        close(chars, pos, levels, Opener::Bracket)
    } else if c == '\'' {
        put_wrap(levels, Wrap::Quote);
        Ok((pos + 1, None))
    } else if c == '`' {
        put_wrap(levels, Wrap::Quasiquote);
        Ok((pos + 1, None))
    } else if c == '~' {
        put_wrap(levels, Wrap::Unquote);
        Ok((pos + 1, None))
    } else if is_space_char(c) {
        Ok((pos + 1, None))
    } else if c >= '0' && c <= '9' {
        match read_int(chars, pos + 1, c as u32 - '0' as u32) {
            Ok((acc, end)) => Ok((end, Some(Value::Int(to_signed(acc))))),
            Err(bad) => Err(digit_message(chars, bad)),
        }
    } else if c == '"' {
        match find_string_end(chars, pos + 1) {
            Some(end) => Ok((end + 1, Some(Value::String(literal_text(chars, pos + 1, end))))),
            None => Err(quote_message(chars, pos)),
        }
    } else {
        let end = find_sym_end(chars, pos + 1);
        Ok((end, Some(Value::Symbol(string_of(chars, pos, end)))))
    }
}

/// Reads tokens from `*pos` on until one completes a value, and leaves
/// `*pos` behind it. Gives nothing where the text ends first.
pub fn read_value(chars: &Vec<char>, pos: &mut usize, levels: &mut Vec<Level>) -> (res: Result<
    Option<Value>,
    String,
>)
    ensures
        match res {
            Ok(value) => read_value_spec(chars@, *old(pos) as int, levels_view(old(levels)@))
                == Ok::<Scan, Seq<char>>(
                Scan {
                    next: *final(pos) as int,
                    levels: levels_view(final(levels)@),
                    value: match value {
                        Some(v) => Some(v@),
                        None => None,
                    },
                },
            ),
            Err(msg) => read_value_spec(chars@, *old(pos) as int, levels_view(old(levels)@))
                == Err::<Scan, Seq<char>>(msg@),
        },
{
    while *pos < chars.len()
        invariant
            read_value_spec(chars@, *pos as int, levels_view(levels@)) == read_value_spec(
                chars@,
                *old(pos) as int,
                levels_view(old(levels)@),
            ),
        decreases chars.len() - *pos,
    {
        match token(chars, *pos, levels) {
            Ok((next, value)) => {
                *pos = next;
                if value.is_some() {
                    return Ok(value);
                }
            },
            Err(msg) => {
                return Err(msg);
            },
        }
    }
    Ok(None)
}

/// Reads a source text. The program is the list of its top-level forms
/// behind the symbol `do`.
pub fn parse(src: &str) -> (res: Result<Value, String>)
    ensures
        parsed_val(res) == parse_spec(src@),
{
    let chars = to_chars(src);
    let mut levels: Vec<Level> = Vec::new();
    let top_items: Vec<Value> = Vec::new();
    assert(vals(top_items@) =~= seq![]);
    levels.push(Level { items: top_items, wraps: Vec::new(), opener: None, at: 0 });
    assert(levels_view(levels@) =~= top_level());
    let mut pos: usize = 0;
    loop
        invariant_except_break
            read_all(chars@, pos as int, levels_view(levels@)) == parse_spec(src@),
        invariant
            chars@ == src@,
        ensures
            finish_spec(chars@, levels_view(levels@)) == parse_spec(src@),
        decreases chars.len() - pos + 1,
    {
        proof {
            lemma_read_value_advances(chars@, pos as int, levels_view(levels@));
        }
        match read_value(&chars, &mut pos, &mut levels) {
            Ok(Some(v)) => {
                emit(&mut levels, v);
            },
            Ok(None) => {
                break ;
            },
            Err(msg) => {
                return Err(msg);
            },
        }
    }
    if levels.len() == 1 {
        let top = match levels.pop() {
            Some(top) => top,
            None => {
                return Err("Unmatched opening parenthesis".to_owned());
            },
        };
        let mut items = top.items;
        let ghost before = vals(items@);
        items.insert(0, Value::symbol("do"));
        assert(vals(items@) =~= seq![Val::Symbol("do"@)] + before);
        Ok(Value::List(items))
    } else if levels.len() > 1 {
        let top = &levels[levels.len() - 1];
        assert(levels_view(levels@).last() == top@);
        match top.opener {
            Some(opener) => Err(opening_message(&chars, opener, top.at)),
            None => Err("Unmatched opening parenthesis".to_owned()),
        }
    } else {
        Err("Unmatched opening parenthesis".to_owned())
    }
}

} // verus!
