//! Reading back what was printed: the debug form of a value that the reader
//! can write down reads as that value.

use vstd::prelude::*;
use crate::env::World;
use crate::eval::model::{
    eval_seq, eval_spec, step_do, step_list, step_quote, step_spec, Many, Outcome,
};
use crate::parser::{
    add_wrap, close_spec, emit_spec, ends_symbol, finish_spec, lemma_token_advances, open_level,
    parse_spec,
    read_all, read_value_spec, replace_pair, scan_int, string_end, sym_end, token_spec,
    top_level, unescape, wrapped, LevelV, Opener, Scan, Wrap,
};
use crate::text::{
    decimal, decimal_nat, digit, digit_value, escape, escape_char, is_digit, quoted, show,
    show_items,
};
use crate::types::Val;

verus! {

/// Whether the text `x` stands in `s` at the index `p`.
pub open spec fn has_at(s: Seq<char>, p: int, x: Seq<char>) -> bool {
    &&& 0 <= p
    &&& p + x.len() <= s.len()
    &&& forall|k: int| 0 <= k < x.len() ==> s[p + k] == #[trigger] x[k]
}

/// Whether a token that ends before the index `p` ends there: the text is
/// over, or a character stands there that ends a symbol.
pub open spec fn token_ends(s: Seq<char>, p: int) -> bool {
    p == s.len() || (0 <= p < s.len() && ends_symbol(s[p]))
}

/// A text that stands somewhere stands there in parts.
pub proof fn lemma_has_at_split(s: Seq<char>, p: int, a: Seq<char>, b: Seq<char>)
    requires
        has_at(s, p, a + b),
    ensures
        has_at(s, p, a),
        has_at(s, p + a.len(), b),
{
    assert forall|k: int| 0 <= k < a.len() implies s[p + k] == #[trigger] a[k] by {
        assert((a + b)[k] == a[k]);
    }
    assert forall|k: int| 0 <= k < b.len() implies s[p + a.len() + k] == #[trigger] b[k] by {
        assert((a + b)[a.len() + k] == b[k]);
    }
}

/// Whether a character can start a symbol.
pub open spec fn starts_symbol(c: char) -> bool {
    !(ends_symbol(c) || c == '\'' || c == '`' || c == '~' || c == '"' || is_digit(c))
}

/// Whether a name reads as a symbol: it is not empty, its first character
/// starts a symbol, and none of the others ends one.
pub open spec fn readable_name(name: Seq<char>) -> bool {
    &&& name.len() > 0
    &&& starts_symbol(name[0])
    &&& forall|k: int| 1 <= k < name.len() ==> !ends_symbol(#[trigger] name[k])
}

/// Whether a text reads back from between double quotes: it holds no double
/// quote, no backslash, no tab and no carriage return.
pub open spec fn readable_text(t: Seq<char>) -> bool {
    forall|k: int|
        0 <= k < t.len() ==> {
            let c = #[trigger] t[k];
            c != '"' && c != '\\' && c != '\t' && c != '\r'
        }
}

/// Whether the reader can write a value down: an integer that is not
/// negative, a string or a symbol of characters that need no care, or a
/// list of such values.
pub open spec fn readable(v: Val) -> bool
    decreases v,
{
    match v {
        Val::Int(i) => i >= 0,
        Val::Str(t) => readable_text(t),
        Val::Symbol(name) => readable_name(name),
        Val::List(items) => forall|k: int| 0 <= k < items.len() ==> readable(#[trigger] items[k]),
        _ => false,
    }
}

proof fn lemma_sym_end(s: Seq<char>, i: int, end: int)
    requires
        0 <= i <= end <= s.len(),
        forall|j: int| i <= j < end ==> !ends_symbol(#[trigger] s[j]),
        token_ends(s, end),
    ensures
        sym_end(s, i) == end,
    decreases end - i,
{
    if i < end {
        lemma_sym_end(s, i + 1, end);
    }
}

/// A readable name reads as the symbol of that name.
proof fn lemma_token_symbol(s: Seq<char>, pos: int, levels: Seq<LevelV>, name: Seq<char>)
    requires
        readable_name(name),
        has_at(s, pos, name),
        token_ends(s, pos + name.len()),
    ensures
        token_spec(s, pos, levels) == Ok::<Scan, Seq<char>>(
            Scan { next: pos + name.len(), levels, value: Some(Val::Symbol(name)) },
        ),
{
    let end = pos + name.len();
    assert(s[pos] == name[0]);
    assert forall|j: int| pos + 1 <= j < end implies !ends_symbol(#[trigger] s[j]) by {
        assert(s[pos + (j - pos)] == name[j - pos]);
    }
    lemma_sym_end(s, pos + 1, end);
    assert(s.subrange(pos, end) =~= name);
}

/// The number that a sequence of digits stands for.
pub open spec fn digits_value(d: Seq<char>) -> nat
    decreases d.len(),
{
    if d.len() == 0 {
        0
    } else {
        (digits_value(d.drop_last()) * 10 + digit_value(d.last())) as nat
    }
}

/// Whether every character is a decimal digit.
pub open spec fn all_digits(d: Seq<char>) -> bool {
    forall|k: int| 0 <= k < d.len() ==> is_digit(#[trigger] d[k])
}

proof fn lemma_digit(d: int)
    requires
        0 <= d < 10,
    ensures
        is_digit(digit(d)),
        digit_value(digit(d)) == d,
{
    assert(('0' as int) == 48);
    assert((48 + d) as char as int == 48 + d);
}

/// The decimal digits of a number are digits, and stand for the number.
proof fn lemma_decimal_value(n: nat)
    ensures
        decimal_nat(n).len() >= 1,
        all_digits(decimal_nat(n)),
        digits_value(decimal_nat(n)) == n,
    decreases n,
{
    if n < 10 {
        lemma_digit(n as int);
        let d = seq![digit(n as int)];
        assert(d.drop_last() =~= seq![]);
        assert(digits_value(d.drop_last()) == 0);
    } else {
        lemma_decimal_value(n / 10);
        lemma_digit((n % 10) as int);
        let d = decimal_nat(n);
        assert(d.drop_last() =~= decimal_nat(n / 10));
        assert(d.last() == digit((n % 10) as int));
    }
}

/// The digits read so far stand for no more than all the digits do.
proof fn lemma_prefix_value(d: Seq<char>, k: int)
    requires
        all_digits(d),
        0 <= k <= d.len(),
    ensures
        digits_value(d.take(k)) <= digits_value(d),
    decreases d.len() - k,
{
    if k < d.len() {
        lemma_prefix_value(d, k + 1);
        assert(d.take(k + 1).drop_last() =~= d.take(k));
        assert(d.take(k + 1).last() == d[k]);
    } else {
        assert(d.take(k) =~= d);
    }
}

proof fn lemma_scan_digits(s: Seq<char>, pos: int, d: Seq<char>, k: int)
    requires
        all_digits(d),
        has_at(s, pos, d),
        token_ends(s, pos + d.len()),
        1 <= k <= d.len(),
        digits_value(d) <= u32::MAX,
    ensures
        scan_int(s, pos + k, digits_value(d.take(k)) as u32) == Ok::<(u32, int), int>(
            (digits_value(d) as u32, pos + d.len()),
        ),
    decreases d.len() - k,
{
    if k < d.len() {
        let c = s[pos + k];
        assert(c == d[k]);
        assert(is_digit(c));
        lemma_prefix_value(d, k);
        lemma_prefix_value(d, k + 1);
        assert(d.take(k + 1).drop_last() =~= d.take(k));
        assert(d.take(k + 1).last() == d[k]);
        let acc = digits_value(d.take(k)) as u32;
        let next = digits_value(d.take(k + 1));
        assert(next == acc * 10 + digit_value(c));
        assert(acc.wrapping_mul(10) == acc * 10) by {
            assert((acc as nat * 10) % 0x1_0000_0000 == acc * 10) by (nonlinear_arith)
                requires
                    acc * 10 <= 0xffff_ffff,
            ;
        }
        assert(acc.wrapping_mul(10).wrapping_add(digit_value(c) as u32) == next as u32);
        lemma_scan_digits(s, pos, d, k + 1);
    } else {
        assert(d.take(k) =~= d);
    }
}

/// The decimal digits of an integer that is not negative read as that
/// integer.
proof fn lemma_token_int(s: Seq<char>, pos: int, levels: Seq<LevelV>, i: i32)
    requires
        i >= 0,
        has_at(s, pos, decimal(i as int)),
        token_ends(s, pos + decimal(i as int).len()),
    ensures
        token_spec(s, pos, levels) == Ok::<Scan, Seq<char>>(
            Scan { next: pos + decimal(i as int).len(), levels, value: Some(Val::Int(i)) },
        ),
{
    let d = decimal_nat(i as nat);
    lemma_decimal_value(i as nat);
    assert(s[pos] == d[0]);
    assert(is_digit(d[0]));
    assert(d.take(1).drop_last() =~= seq![]);
    assert(d.take(1).last() == d[0]);
    assert(digits_value(d.take(1).drop_last()) == 0);
    assert(digits_value(d.take(1)) == digit_value(d[0]));
    lemma_scan_digits(s, pos, d, 1);
}

/// Escaping goes character by character from the front, too.
proof fn lemma_escape_front(c: char, rest: Seq<char>)
    ensures
        escape(seq![c] + rest) == escape_char(c) + escape(rest),
    decreases rest.len(),
{
    let all = seq![c] + rest;
    if rest.len() == 0 {
        assert(all.drop_last() =~= seq![]);
        assert(all.last() == c);
        assert(escape(all.drop_last()) =~= seq![]);
        assert(escape(rest) =~= seq![]);
        assert(escape(all) =~= escape_char(c) + escape(rest));
    } else {
        lemma_escape_front(c, rest.drop_last());
        assert(all.drop_last() =~= seq![c] + rest.drop_last());
        assert(all.last() == rest.last());
        assert(escape(all) =~= escape_char(c) + escape(rest));
    }
}

/// What stands for a character of a readable text.
proof fn lemma_escape_readable(c: char)
    requires
        c != '"' && c != '\\' && c != '\t' && c != '\r',
    ensures
        escape_char(c) == (if c == '\n' {
            seq!['\\', 'n']
        } else {
            seq![c]
        }),
{
}

/// A text is its first character and the rest.
proof fn lemma_front(t: Seq<char>)
    requires
        t.len() > 0,
    ensures
        t == seq![t[0]] + t.drop_first(),
        readable_text(t) ==> readable_text(t.drop_first()),
{
    assert(t =~= seq![t[0]] + t.drop_first());
    if readable_text(t) {
        assert forall|k: int| 0 <= k < t.drop_first().len() implies {
            let c = #[trigger] t.drop_first()[k];
            c != '"' && c != '\\' && c != '\t' && c != '\r'
        } by {
            assert(t.drop_first()[k] == t[k + 1]);
        }
    }
}

/// The escaped form of a readable text ends at the double quote behind it.
proof fn lemma_string_end(s: Seq<char>, i: int, t: Seq<char>)
    requires
        readable_text(t),
        has_at(s, i, escape(t)),
        i + escape(t).len() < s.len(),
        s[i + escape(t).len()] == '"',
    ensures
        string_end(s, i) == Some(i + escape(t).len()),
    decreases t.len(),
{
    if t.len() == 0 {
        assert(escape(t) =~= seq![]);
    } else {
        let c = t[0];
        let rest = t.drop_first();
        lemma_front(t);
        lemma_escape_front(c, rest);
        lemma_escape_readable(c);
        lemma_has_at_split(s, i, escape_char(c), escape(rest));
        assert(s[i + 0] == escape_char(c)[0]);
        if c == '\n' {
            assert(s[i + 1] == escape_char(c)[1]);
        }
        lemma_string_end(s, i + escape_char(c).len(), rest);
    }
}

/// Resolving `\n` in the escaped form of a readable text gives the text.
proof fn lemma_unescape_breaks(raw: Seq<char>, i: int, acc: Seq<char>, t: Seq<char>)
    requires
        readable_text(t),
        has_at(raw, i, escape(t)),
        i + escape(t).len() == raw.len(),
    ensures
        replace_pair(raw, i, '\\', 'n', '\n', acc) == acc + t,
    decreases t.len(),
{
    if t.len() == 0 {
        assert(escape(t) =~= seq![]);
        assert(acc + t =~= acc);
    } else {
        let c = t[0];
        let rest = t.drop_first();
        lemma_front(t);
        lemma_escape_front(c, rest);
        lemma_escape_readable(c);
        lemma_has_at_split(raw, i, escape_char(c), escape(rest));
        assert(raw[i + 0] == escape_char(c)[0]);
        if c == '\n' {
            assert(raw[i + 1] == escape_char(c)[1]);
            lemma_unescape_breaks(raw, i + 2, acc.push('\n'), rest);
        } else {
            lemma_unescape_breaks(raw, i + 1, acc.push(c), rest);
        }
        assert(acc.push(c) + rest =~= acc + t);
    }
}

/// Replacing a pair that starts with a character that a text does not hold
/// leaves the text as it is.
proof fn lemma_replace_absent(s: Seq<char>, i: int, a: char, b: char, to: char, acc: Seq<char>)
    requires
        0 <= i <= s.len(),
        forall|j: int| i <= j < s.len() ==> #[trigger] s[j] != a,
    ensures
        replace_pair(s, i, a, b, to, acc) == acc + s.subrange(i, s.len() as int),
    decreases s.len() - i,
{
    if i < s.len() {
        lemma_replace_absent(s, i + 1, a, b, to, acc.push(s[i]));
        assert(acc.push(s[i]) + s.subrange(i + 1, s.len() as int) =~= acc + s.subrange(
            i,
            s.len() as int,
        ));
    } else {
        assert(acc + s.subrange(i, s.len() as int) =~= acc);
    }
}

/// A readable text is what its escaped form stands for.
proof fn lemma_unescape_escape(t: Seq<char>)
    requires
        readable_text(t),
    ensures
        unescape(escape(t)) == t,
{
    let raw = escape(t);
    lemma_unescape_breaks(raw, 0, seq![], t);
    assert(seq![] + t =~= t);
    lemma_replace_absent(t, 0, '\\', '\\', '\\', seq![]);
    assert(seq![] + t.subrange(0, t.len() as int) =~= t);
}

/// A readable text between double quotes reads as the string of that text.
proof fn lemma_token_string(s: Seq<char>, pos: int, levels: Seq<LevelV>, t: Seq<char>)
    requires
        readable_text(t),
        has_at(s, pos, quoted(t)),
    ensures
        token_spec(s, pos, levels) == Ok::<Scan, Seq<char>>(
            Scan { next: pos + quoted(t).len(), levels, value: Some(Val::Str(t)) },
        ),
{
    let e = escape(t);
    assert(quoted(t) =~= seq!['"'] + (e + seq!['"']));
    lemma_has_at_split(s, pos, seq!['"'], e + seq!['"']);
    lemma_has_at_split(s, pos + 1, e, seq!['"']);
    assert(s[pos + 0] == seq!['"'][0]);
    assert(s[pos + 1 + e.len() + 0] == seq!['"'][0]);
    lemma_string_end(s, pos + 1, t);
    let end = pos + 1 + e.len();
    assert(s.subrange(pos + 1, end) =~= e);
    lemma_unescape_escape(t);
}

/// Reading goes token by token: behind a token the reading goes on from
/// the stack that the token leaves, with the value that it completed put in.
pub proof fn lemma_read_all_token(s: Seq<char>, pos: int, levels: Seq<LevelV>)
    requires
        0 <= pos < s.len(),
    ensures
        read_all(s, pos, levels) == (match token_spec(s, pos, levels) {
            Ok(sc) => read_all(
                s,
                sc.next,
                match sc.value {
                    Some(v) => emit_spec(sc.levels, v),
                    None => sc.levels,
                },
            ),
            Err(msg) => Err(msg),
        }),
{
    lemma_token_advances(s, pos, levels);
    match token_spec(s, pos, levels) {
        Ok(sc) => {
            if sc.value is None {
                assert(read_value_spec(s, pos, levels) == read_value_spec(s, sc.next, sc.levels));
            }
        },
        Err(_) => {},
    }
}

/// The stack inside a list that was opened at `pos`, with the first `k`
/// items read.
pub open spec fn inside(levels: Seq<LevelV>, items: Seq<Val>, k: int, pos: int) -> Seq<LevelV> {
    levels.push(
        LevelV { items: items.take(k), wraps: seq![], opener: Some(Opener::Paren), at: pos },
    )
}

/// The items printed so far are the front of all the items printed.
proof fn lemma_items_front(items: Seq<Val>, k: int, s: Seq<char>, p: int)
    requires
        has_at(s, p, show_items(items, true)),
        0 <= k <= items.len(),
    ensures
        has_at(s, p, show_items(items.take(k), true)),
        k < items.len() ==> has_at(
            s,
            p + show_items(items.take(k), true).len() + (if k > 0 {
                1int
            } else {
                0int
            }),
            show(items[k], true),
        ),
        0 < k < items.len() ==> s[p + show_items(items.take(k), true).len()] == ' ',
        k < items.len() ==> show_items(items.take(k + 1), true).len() == show_items(
            items.take(k),
            true,
        ).len() + (if k > 0 {
            1int
        } else {
            0int
        }) + show(items[k], true).len(),
    decreases items.len() - k,
{
    if k < items.len() {
        lemma_items_front(items, k + 1, s, p);
        let more = items.take(k + 1);
        let less = items.take(k);
        assert(more.drop_last() =~= less);
        assert(more.last() == items[k]);
        assert(more[0] == items[0]);
        if k > 0 {
            let text = show_items(less, true) + seq![' '] + show(items[k], true);
            assert(show_items(more, true) == text);
            assert(text =~= show_items(less, true) + (seq![' '] + show(items[k], true)));
            lemma_has_at_split(s, p, show_items(less, true), seq![' '] + show(items[k], true));
            lemma_has_at_split(
                s,
                p + show_items(less, true).len(),
                seq![' '],
                show(items[k], true),
            );
            assert(s[p + show_items(less, true).len() + 0] == seq![' '][0]);
        } else {
            assert(show_items(less, true) =~= seq![]);
            assert(show_items(more, true) == show(items[0], true));
        }
    } else {
        assert(items.take(k) =~= items);
    }
}

/// Reading the items of a list from the item `k` on, and the parenthesis
/// that closes the list, puts the list in.
proof fn lemma_read_items(items: Seq<Val>, k: int, s: Seq<char>, pos: int, levels: Seq<LevelV>)
    requires
        forall|j: int| 0 <= j < items.len() ==> readable(#[trigger] items[j]),
        has_at(s, pos + 1, show_items(items, true)),
        pos + 1 + show_items(items, true).len() < s.len(),
        s[pos + 1 + show_items(items, true).len()] == ')',
        levels.len() >= 1,
        0 <= k <= items.len(),
        0 <= pos,
    ensures
        read_all(
            s,
            pos + 1 + show_items(items.take(k), true).len(),
            inside(levels, items, k, pos),
        ) == read_all(
            s,
            pos + 2 + show_items(items, true).len(),
            emit_spec(levels, Val::List(items)),
        ),
    decreases Val::List(items), items.len() - k,
{
    let whole = show_items(items, true);
    let done = show_items(items.take(k), true);
    let here = pos + 1 + done.len();
    let stack = inside(levels, items, k, pos);
    lemma_items_front(items, k, s, pos + 1);
    if k == items.len() {
        assert(items.take(k) =~= items);
        lemma_read_all_token(s, here, stack);
        assert(stack.last().opener == Some(Opener::Paren));
        assert(stack.drop_last() =~= levels);
        assert(close_spec(s, here, stack, Opener::Paren) == Ok::<Scan, Seq<char>>(
            Scan { next: here + 1, levels, value: Some(Val::List(items)) },
        ));
    } else {
        let item = items[k];
        let text = show(item, true);
        let start = if k > 0 {
            here + 1
        } else {
            here
        };
        if k > 0 {
            lemma_read_all_token(s, here, stack);
            assert(s[here] == ' ');
            assert(read_all(s, here, stack) == read_all(s, start, stack));
        }
        // what stands behind the item ends a token
        lemma_items_front(items, k + 1, s, pos + 1);
        let after = start + text.len();
        assert(after == pos + 1 + show_items(items.take(k + 1), true).len());
        if k + 1 < items.len() {
            assert(s[after] == ' ');
        } else {
            assert(items.take(k + 1) =~= items);
            assert(s[after] == ')');
        }
        assert(token_ends(s, after));
        let x = Val::List(items);
        assert(decreases_to!(x => x->List_0));
        assert(decreases_to!(x->List_0 => x->List_0[k]));
        lemma_read_back(item, s, start, stack);
        assert(wrapped(seq![], item) == item);
        assert(items.take(k).push(item) =~= items.take(k + 1));
        assert(emit_spec(stack, item) =~= inside(levels, items, k + 1, pos));
        lemma_read_items(items, k + 1, s, pos, levels);
    }
}

/// Reading the debug form of a readable value puts the value in.
pub proof fn lemma_read_back(v: Val, s: Seq<char>, pos: int, levels: Seq<LevelV>)
    requires
        readable(v),
        has_at(s, pos, show(v, true)),
        token_ends(s, pos + show(v, true).len()),
        levels.len() >= 1,
    ensures
        read_all(s, pos, levels) == read_all(s, pos + show(v, true).len(), emit_spec(levels, v)),
    decreases v, (if v is List {
        v->List_0.len() + 1
    } else {
        0
    }),
{
    match v {
        Val::Int(i) => {
            lemma_token_int(s, pos, levels, i);
            lemma_decimal_value(i as nat);
            lemma_read_all_token(s, pos, levels);
        },
        Val::Str(t) => {
            lemma_token_string(s, pos, levels, t);
            lemma_read_all_token(s, pos, levels);
        },
        Val::Symbol(name) => {
            lemma_token_symbol(s, pos, levels, name);
            lemma_read_all_token(s, pos, levels);
        },
        Val::List(items) => {
            let inner = show_items(items, true);
            let text = seq!['('] + inner + seq![')'];
            assert(show(v, true) == text);
            assert(text =~= seq!['('] + (inner + seq![')']));
            lemma_has_at_split(s, pos, seq!['('], inner + seq![')']);
            lemma_has_at_split(s, pos + 1, inner, seq![')']);
            assert(s[pos + 0] == seq!['('][0]);
            assert(s[pos + 1 + inner.len() + 0] == seq![')'][0]);
            lemma_read_all_token(s, pos, levels);
            assert(items.take(0) =~= seq![]);
            assert(show_items(items.take(0), true) =~= seq![]);
            assert(open_level(levels, Opener::Paren, pos) =~= inside(levels, items, 0, pos));
            lemma_read_items(items, 0, s, pos, levels);
        },
        _ => {},
    }
}

/// Quotation round-trip, the reading: a quote mark and the debug form of a
/// readable value read as the program that quotes the value.
pub proof fn law_reads_back(v: Val)
    requires
        readable(v),
    ensures
        parse_spec(seq!['\''] + show(v, true)) == Ok::<Val, Seq<char>>(
            Val::List(
                seq![Val::Symbol("do"@), Val::List(seq![Val::Symbol("quote"@), v])],
            ),
        ),
{
    let text = show(v, true);
    let s = seq!['\''] + text;
    let marked = add_wrap(top_level(), Wrap::Quote);
    lemma_has_at_split(s, 0, seq!['\''], text);
    assert(has_at(s, 0, s));
    lemma_read_all_token(s, 0, top_level());
    assert(s[0] == '\'');
    assert(read_all(s, 0, top_level()) == read_all(s, 1, marked));
    lemma_read_back(v, s, 1, marked);
    let end = emit_spec(marked, v);
    assert(s.len() == 1 + text.len());
    assert(read_value_spec(s, s.len() as int, end) == Ok::<Scan, Seq<char>>(
        Scan { next: s.len() as int, levels: end, value: None },
    ));
    assert(read_all(s, s.len() as int, end) == finish_spec(s, end));
    let quote = seq![Wrap::Quote];
    assert(marked.last().wraps =~= quote);
    assert(quote.drop_last() =~= seq![]);
    assert(wrapped(quote.drop_last(), Val::List(seq![Val::Symbol("quote"@), v])) == Val::List(
        seq![Val::Symbol("quote"@), v],
    ));
    assert(wrapped(quote, v) == Val::List(seq![Val::Symbol("quote"@), v]));
    assert(end[0].items =~= seq![Val::List(seq![Val::Symbol("quote"@), v])]);
    assert(seq![Val::Symbol("do"@)] + end[0].items =~= seq![
        Val::Symbol("do"@),
        Val::List(seq![Val::Symbol("quote"@), v]),
    ]);
}

/// `(quote x)` is `x`.
proof fn lemma_quote(x: Val, env: nat, w: World, fuel: nat)
    requires
        fuel > 0,
    ensures
        eval_spec(Val::List(seq![Val::Symbol("quote"@), x]), env, w, fuel) == (Outcome {
            result: Ok(x),
            world: w,
        }),
{
    reveal_strlit("quote");
    reveal_strlit("if");
    reveal_strlit("\\");
    let f = (fuel - 1) as nat;
    let form = seq![Val::Symbol("quote"@), x];
    assert("quote"@.len() == 5);
    assert("if"@.len() == 2);
    assert("\\"@.len() == 1);
    assert(step_list(form, env, w, f) == step_quote(form, w));
    assert(step_spec(Val::List(form), env, w, f) == step_list(form, env, w, f));
}

/// `(do E)` is `E`, one step later.
proof fn lemma_do_one(form: Val, env: nat, w: World, fuel: nat)
    requires
        fuel > 0,
    ensures
        eval_spec(Val::List(seq![Val::Symbol("do"@), form]), env, w, fuel) == eval_spec(
            form,
            env,
            w,
            (fuel - 1) as nat,
        ),
{
    reveal_strlit("do");
    reveal_strlit("quote");
    reveal_strlit("quasiquote");
    reveal_strlit("if");
    reveal_strlit("\\");
    reveal_strlit("err");
    reveal_strlit("cons");
    reveal_strlit("let*");
    reveal_strlit("def!");
    let f = (fuel - 1) as nat;
    let items = seq![Val::Symbol("do"@), form];
    assert("do"@.len() == 2);
    assert("do"@[0] == 'd');
    assert("if"@[0] == 'i');
    assert("\\"@.len() == 1);
    assert("quote"@.len() == 5);
    assert("quasiquote"@.len() == 10);
    assert("err"@.len() == 3);
    assert("cons"@.len() == 4);
    assert("let*"@.len() == 4);
    assert("def!"@.len() == 4);
    assert(items.subrange(1, 1) =~= seq![]);
    assert(eval_seq(seq![], 0, seq![], env, w, f) == (Many {
        result: Ok(seq![]),
        world: w,
    }));
    assert(items.last() == form);
    assert(step_do(items, env, w, f).world == w);
    assert(step_list(items, env, w, f) == step_do(items, env, w, f));
    assert(step_spec(Val::List(items), env, w, f) == step_list(items, env, w, f));
}

/// Quotation round-trip: the program that a quote mark and the debug form
/// of a readable value read as evaluates to the value, and leaves the state
/// as it is.
pub proof fn law_quotation_round_trip(v: Val, env: nat, w: World, fuel: nat)
    requires
        readable(v),
        fuel >= 2,
    ensures
        parse_spec(seq!['\''] + show(v, true)) matches Ok(program) && eval_spec(
            program,
            env,
            w,
            fuel,
        ) == (Outcome { result: Ok(v), world: w }),
{
    law_reads_back(v);
    lemma_do_one(Val::List(seq![Val::Symbol("quote"@), v]), env, w, fuel);
    lemma_quote(v, env, w, (fuel - 1) as nat);
}

} // verus!
