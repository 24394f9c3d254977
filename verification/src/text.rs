//! Text: characters in and out of strings, decimal numbers, and the two
//! printed forms of a value.

use vstd::prelude::*;
use crate::types::{Val, Value};

verus! {

/// `String::push` appends the character to the end of the string.
pub assume_specification[ std::string::String::push ](s: &mut std::string::String, c: char)
    ensures
        final(s)@ == old(s)@.push(c),
;

/// The characters of a string.
pub fn to_chars(s: &str) -> (r: Vec<char>)
    ensures
        r@ == s@,
{
    let mut out: Vec<char> = Vec::new();
    for c in it: s.chars()
        invariant
            out@ == it.seq().take(it.index() as int),
            it.seq() == s@,
    {
        out.push(c);
    }
    out
}

/// The string made of the characters `v[from..to]`.
pub fn string_of(v: &Vec<char>, from: usize, to: usize) -> (r: String)
    requires
        from <= to <= v.len(),
    ensures
        r@ == v@.subrange(from as int, to as int),
{
    let mut out = String::new();
    let mut i: usize = from;
    while i < to
        invariant
            from <= i <= to <= v.len(),
            out@ == v@.subrange(from as int, i as int),
        decreases to - i,
    {
        out.push(v[i]);
        i += 1;
        assert(v@.subrange(from as int, i as int) == v@.subrange(from as int, i - 1).push(
            v@[i - 1],
        ));
    }
    out
}

/// The string that holds the one character `c`.
pub fn char_string(c: char) -> (r: String)
    ensures
        r@ == seq![c],
{
    let mut out = String::new();
    out.push(c);
    out
}

/// The decimal digit for `d`, where `0 <= d < 10`.
pub open spec fn digit(d: int) -> char {
    ('0' as int + d) as char
}

/// The decimal digits of a natural number, most significant first.
pub open spec fn decimal_nat(n: nat) -> Seq<char>
    decreases n,
{
    if n < 10 {
        seq![digit(n as int)]
    } else {
        decimal_nat(n / 10).push(digit((n % 10) as int))
    }
}

/// An integer in decimal, with a minus sign where it is negative.
pub open spec fn decimal(i: int) -> Seq<char> {
    if i < 0 {
        seq!['-'] + decimal_nat((-i) as nat)
    } else {
        decimal_nat(i as nat)
    }
}

/// Appends the decimal digits of `n` to `out`.
pub fn push_decimal_nat(out: &mut String, n: u64)
    ensures
        final(out)@ == old(out)@ + decimal_nat(n as nat),
    decreases n,
{
    if n >= 10 {
        push_decimal_nat(out, n / 10);
    }
    let d: u8 = (n % 10) as u8;
    out.push((48u8 + d) as char);
    assert(out@ == old(out)@ + decimal_nat(n as nat));
}

/// Appends `i` in decimal to `out`.
pub fn push_decimal(out: &mut String, i: i64)
    ensures
        final(out)@ == old(out)@ + decimal(i as int),
{
    if i < 0 {
        out.push('-');
        let m: u64 = if i == i64::MIN {
            9223372036854775808u64
        } else {
            (-i) as u64
        };
        push_decimal_nat(out, m);
        assert(out@ == old(out)@ + (seq!['-'] + decimal_nat((-i) as nat)));
    } else {
        push_decimal_nat(out, i as u64);
    }
}

/// What stands for one character inside a quoted string.
pub open spec fn escape_char(c: char) -> Seq<char> {
    if c == '"' {
        seq!['\\', '"']
    } else if c == '\\' {
        seq!['\\', '\\']
    } else if c == '\n' {
        seq!['\\', 'n']
    } else if c == '\t' {
        seq!['\\', 't']
    } else if c == '\r' {
        seq!['\\', 'r']
    } else {
        seq![c]
    }
}

/// A text with each of its characters escaped.
pub open spec fn escape(s: Seq<char>) -> Seq<char>
    decreases s.len(),
{
    if s.len() == 0 {
        Seq::empty()
    } else {
        escape(s.drop_last()) + escape_char(s.last())
    }
}

/// A text between double quotes, escaped.
pub open spec fn quoted(s: Seq<char>) -> Seq<char> {
    seq!['"'] + escape(s) + seq!['"']
}

/// Appends the text `s`, between double quotes and escaped, to `out`.
pub fn push_quoted(out: &mut String, s: &str)
    ensures
        final(out)@ == old(out)@ + quoted(s@),
{
    let chars = to_chars(s);
    out.push('"');
    let mut i: usize = 0;
    while i < chars.len()
        invariant
            i <= chars.len(),
            chars@ == s@,
            out@ == old(out)@ + seq!['"'] + escape(chars@.take(i as int)),
        decreases chars.len() - i,
    {
        let c = chars[i];
        let ghost before = out@;
        if c == '"' {
            out.push('\\');
            out.push('"');
        } else if c == '\\' {
            out.push('\\');
            out.push('\\');
        } else if c == '\n' {
            out.push('\\');
            out.push('n');
        } else if c == '\t' {
            out.push('\\');
            out.push('t');
        } else if c == '\r' {
            out.push('\\');
            out.push('r');
        } else {
            out.push(c);
        }
        assert(out@ == before + escape_char(c));
        i += 1;
        assert(chars@.take(i as int).drop_last() == chars@.take(i - 1));
        assert(out@ == old(out)@ + seq!['"'] + escape(chars@.take(i as int)));
    }
    assert(chars@.take(i as int) == chars@);
    out.push('"');
    assert(out@ == old(out)@ + quoted(s@));
}

/// The printed form of a value. In the display form a string stands as it
/// is; in the debug form it is quoted and escaped, and a table's entries are
/// written `k: v` and parted by commas.
pub open spec fn show(v: Val, debug: bool) -> Seq<char>
    decreases v, 0nat,
{
    match v {
        Val::Int(i) => decimal(i as int),
        Val::Str(s) => if debug {
            quoted(s)
        } else {
            s
        },
        Val::Symbol(s) => s,
        Val::List(items) => seq!['('] + show_items(items, debug) + seq![')'],
        Val::Table(entries) => seq!['{'] + show_entries(entries, debug) + seq!['}'],
        Val::Function { .. } => "#<function>"@,
        Val::Lambda { .. } => "#<function>"@,
        Val::Atom(_) => "#<atom>"@,
    }
}

/// The printed forms of the items, parted by single spaces.
pub open spec fn show_items(items: Seq<Val>, debug: bool) -> Seq<char>
    decreases items, 1nat,
{
    if items.len() == 0 {
        Seq::empty()
    } else if items.len() == 1 {
        show(items[0], debug)
    } else {
        show_items(items.drop_last(), debug) + seq![' '] + show(items.last(), debug)
    }
}

/// What stands between a table's key and its value.
pub open spec fn key_sep(debug: bool) -> Seq<char> {
    if debug {
        seq![':', ' ']
    } else {
        seq![' ']
    }
}

/// What stands between two entries of a table.
pub open spec fn entry_sep(debug: bool) -> Seq<char> {
    if debug {
        seq![',', ' ']
    } else {
        seq![' ']
    }
}

/// The printed forms of a table's entries.
pub open spec fn show_entries(entries: Seq<(Val, Val)>, debug: bool) -> Seq<char>
    decreases entries, 1nat,
{
    if entries.len() == 0 {
        Seq::empty()
    } else {
        let e = entries.last();
        let this = show(e.0, debug) + key_sep(debug) + show(e.1, debug);
        if entries.len() == 1 {
            this
        } else {
            show_entries(entries.drop_last(), debug) + entry_sep(debug) + this
        }
    }
}

impl Value {
    /// Appends the printed form of the value to `out`.
    pub fn render(&self, debug: bool, out: &mut String)
        ensures
            final(out)@ == old(out)@ + show(self@, debug),
        decreases self,
    {
        match self {
            Value::Int(i) => {
                push_decimal(out, *i as i64);
            },
            Value::String(s) => {
                if debug {
                    push_quoted(out, s.as_str());
                } else {
                    out.append(s.as_str());
                }
            },
            Value::Symbol(s) => {
                out.append(s.as_str());
            },
            Value::List(l) => {
                out.push('(');
                let mut i: usize = 0;
                while i < l.len()
                    invariant
                        i <= l.len(),
                        self is List,
                        self->List_0 == *l,
                        out@ == old(out)@ + seq!['('] + show_items(
                            self@->List_0.take(i as int),
                            debug,
                        ),
                    decreases l.len() - i,
                {
                    let ghost before = out@;
                    if i > 0 {
                        out.push(' ');
                    }
                    assert(decreases_to!(self => self->List_0@[i as int]));
                    l[i].render(debug, out);
                    proof {
                        let items = self@->List_0;
                        assert(items.take(i + 1).drop_last() == items.take(i as int));
                        assert(items.take(i + 1).last() == l@[i as int]@);
                        assert(items.take(i + 1)[0] == items.take(i + 1).last() || i > 0);
                    }
                    i += 1;
                }
                assert(self@->List_0.take(i as int) == self@->List_0);
                out.push(')');
            },
            Value::Table(t) => {
                out.push('{');
                let mut i: usize = 0;
                while i < t.len()
                    invariant
                        i <= t.len(),
                        self is Table,
                        self->Table_0 == *t,
                        out@ == old(out)@ + seq!['{'] + show_entries(
                            self@->Table_0.take(i as int),
                            debug,
                        ),
                    decreases t.len() - i,
                {
                    if i > 0 {
                        if debug {
                            out.push(',');
                        }
                        out.push(' ');
                    }
                    assert(decreases_to!(self => self->Table_0@[i as int].0));
                    assert(decreases_to!(self => self->Table_0@[i as int].1));
                    t[i].0.render(debug, out);
                    if debug {
                        out.push(':');
                    }
                    out.push(' ');
                    t[i].1.render(debug, out);
                    proof {
                        let entries = self@->Table_0;
                        assert(entries.take(i + 1).drop_last() == entries.take(i as int));
                        assert(entries.take(i + 1).last() == (t@[i as int].0@, t@[i as int].1@));
                    }
                    i += 1;
                }
                assert(self@->Table_0.take(i as int) == self@->Table_0);
                out.push('}');
            },
            Value::Function { .. } => {
                out.append("#<function>");
            },
            Value::Lambda { .. } => {
                out.append("#<function>");
            },
            Value::Atom(_) => {
                out.append("#<atom>");
            },
        }
    }

    /// The display form: strings and symbols bare, integers in decimal,
    /// lists as `(a b c)`, tables as `{k v ...}`.
    pub fn to_string(&self) -> (r: String)
        ensures
            r@ == show(self@, false),
    {
        let mut out = String::new();
        self.render(false, &mut out);
        out
    }

    /// The debug form: as the display form, but strings are quoted and
    /// escaped and tables are written `{k: v, ...}`.
    pub fn to_debug_string(&self) -> (r: String)
        ensures
            r@ == show(self@, true),
    {
        let mut out = String::new();
        self.render(true, &mut out);
        out
    }
}

/// Why a text is no 32-bit integer in decimal.
#[derive(Clone, Copy, Debug, PartialEq, Eq, Structural)]
pub enum IntFailure {
    /// The text is empty.
    Empty,
    /// A character is no digit, or only a sign stands there.
    InvalidDigit,
    /// The number is too large.
    PosOverflow,
    /// The number is too small.
    NegOverflow,
}

/// Whether the character is one of the ten decimal digits.
pub open spec fn is_digit(c: char) -> bool {
    '0' <= c <= '9'
}

/// The number that a decimal digit stands for.
pub open spec fn digit_value(c: char) -> int {
    c as int - '0' as int
}

/// Reads the digits of `s` from index `i` on, with `acc` read so far. With
/// `negative` the digits are taken off, else added. The first character that
/// is no digit, or the first step that leaves the 32-bit range, ends the
/// reading.
pub open spec fn read_digits(s: Seq<char>, i: int, acc: int, negative: bool) -> Result<
    i32,
    IntFailure,
>
    decreases s.len() - i,
{
    if i < 0 || i >= s.len() {
        Ok(acc as i32)
    } else if !is_digit(s[i]) {
        Err(IntFailure::InvalidDigit)
    } else {
        let next = if negative {
            acc * 10 - digit_value(s[i])
        } else {
            acc * 10 + digit_value(s[i])
        };
        if next > i32::MAX {
            Err(IntFailure::PosOverflow)
        } else if next < i32::MIN {
            Err(IntFailure::NegOverflow)
        } else {
            read_digits(s, i + 1, next, negative)
        }
    }
}

/// The 32-bit integer that a text denotes in decimal, with an optional sign
/// in front of at least one digit.
pub open spec fn read_i32(s: Seq<char>) -> Result<i32, IntFailure> {
    if s.len() == 0 {
        Err(IntFailure::Empty)
    } else if s[0] == '-' || s[0] == '+' {
        if s.len() == 1 {
            Err(IntFailure::InvalidDigit)
        } else {
            read_digits(s, 1, 0, s[0] == '-')
        }
    } else {
        read_digits(s, 0, 0, false)
    }
}

/// Reads a 32-bit integer in decimal.
pub fn parse_i32(s: &str) -> (r: Result<i32, IntFailure>)
    ensures
        r == read_i32(s@),
{
    let chars = to_chars(s);
    if chars.len() == 0 {
        return Err(IntFailure::Empty);
    }
    let negative = chars[0] == '-';
    let mut i: usize = 0;
    if chars[0] == '-' || chars[0] == '+' {
        if chars.len() == 1 {
            return Err(IntFailure::InvalidDigit);
        }
        i = 1;
    }
    let ghost start = i as int;
    let mut acc: i64 = 0;
    while i < chars.len()
        invariant
            start <= i <= chars.len(),
            i32::MIN <= acc <= i32::MAX,
            read_i32(s@) == read_digits(chars@, start, 0, negative),
            read_digits(chars@, i as int, acc as int, negative) == read_digits(
                chars@,
                start,
                0,
                negative,
            ),
        decreases chars.len() - i,
    {
        let c = chars[i];
        if !(c >= '0' && c <= '9') {
            return Err(IntFailure::InvalidDigit);
        }
        let d: i64 = (c as u32 - '0' as u32) as i64;
        let next: i64 = if negative {
            acc * 10 - d
        } else {
            acc * 10 + d
        };
        if next > 2147483647 {
            return Err(IntFailure::PosOverflow);
        }
        if next < -2147483648 {
            return Err(IntFailure::NegOverflow);
        }
        acc = next;
        i += 1;
    }
    Ok(acc as i32)
}

} // verus!
