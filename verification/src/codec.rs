//! The persisted form of a task store: one JSON document holding every
//! task and the next-identifier counter. The writer emits a canonical
//! text; the reader accepts exactly that text, and reading back what was
//! written yields the original store.

use vstd::prelude::*;
use vstd::string::StrSliceExecFns;

use crate::task::{Task, TaskList, TaskListV, TaskV};

verus! {

/// The decimal digit `d` as a character; meaningful for `d < 10`.
pub open spec fn digit_char(d: nat) -> char {
    if d == 0 {
        '0'
    } else if d == 1 {
        '1'
    } else if d == 2 {
        '2'
    } else if d == 3 {
        '3'
    } else if d == 4 {
        '4'
    } else if d == 5 {
        '5'
    } else if d == 6 {
        '6'
    } else if d == 7 {
        '7'
    } else if d == 8 {
        '8'
    } else {
        '9'
    }
}

/// The hexadecimal digit `d` as a lower-case character; meaningful for `d < 16`.
pub open spec fn hex_char(d: nat) -> char {
    if d < 10 {
        digit_char(d)
    } else if d == 10 {
        'a'
    } else if d == 11 {
        'b'
    } else if d == 12 {
        'c'
    } else if d == 13 {
        'd'
    } else if d == 14 {
        'e'
    } else {
        'f'
    }
}

/// Decimal rendering of `n`, most significant digit first, no leading zero.
pub open spec fn ser_nat(n: nat) -> Seq<char>
    decreases n,
{
    if n < 10 {
        seq![digit_char(n)]
    } else {
        ser_nat(n / 10).push(digit_char(n % 10))
    }
}

/// How one character of a description is written inside a JSON string:
/// quote, backslash and control characters are escaped, everything else
/// stands for itself.
pub open spec fn esc_char(c: char) -> Seq<char> {
    if c == '"' {
        seq!['\\', '"']
    } else if c == '\\' {
        seq!['\\', '\\']
    } else if c == '\n' {
        seq!['\\', 'n']
    } else if c == '\r' {
        seq!['\\', 'r']
    } else if c == '\t' {
        seq!['\\', 't']
    } else if 0 <= (c as int) < 0x20 {
        seq![
            '\\',
            'u',
            '0',
            '0',
            hex_char((c as int / 16) as nat),
            hex_char((c as int % 16) as nat),
        ]
    } else {
        seq![c]
    }
}

/// A description with every character escaped as `esc_char` says.
pub open spec fn ser_chars(d: Seq<char>) -> Seq<char>
    decreases d.len(),
{
    if d.len() == 0 {
        Seq::empty()
    } else {
        esc_char(d[0]) + ser_chars(d.drop_first())
    }
}

/// A JSON string: the escaped description between double quotes.
pub open spec fn ser_string(d: Seq<char>) -> Seq<char> {
    seq!['"'] + ser_chars(d) + seq!['"']
}

/// A JSON boolean.
pub open spec fn ser_bool(b: bool) -> Seq<char> {
    if b {
        seq!['t', 'r', 'u', 'e']
    } else {
        seq!['f', 'a', 'l', 's', 'e']
    }
}

/// The opening of a task object, up to its identifier.
pub open spec fn lit_task_open() -> Seq<char> {
    seq!['{', '"', 'i', 'd', '"', ':']
}

/// The text between a task's identifier and its description.
pub open spec fn lit_desc() -> Seq<char> {
    seq![',', '"', 'd', 'e', 's', 'c', 'r', 'i', 'p', 't', 'i', 'o', 'n', '"', ':']
}

/// The text between a task's description and its completion flag.
pub open spec fn lit_comp() -> Seq<char> {
    seq![',', '"', 'c', 'o', 'm', 'p', 'l', 'e', 't', 'e', 'd', '"', ':']
}

/// The opening of the store document, up to the task array.
pub open spec fn lit_store_open() -> Seq<char> {
    seq!['{', '"', 't', 'a', 's', 'k', 's', '"', ':', '[']
}

/// The text between the task array and the counter.
pub open spec fn lit_next_id() -> Seq<char> {
    seq![',', '"', 'n', 'e', 'x', 't', '_', 'i', 'd', '"', ':']
}

/// One task as a JSON object.
pub open spec fn ser_task(t: TaskV) -> Seq<char> {
    lit_task_open() + ser_nat(t.id) + lit_desc() + ser_string(t.description) + lit_comp()
        + ser_bool(t.completed) + seq!['}']
}

/// The task array's contents: task objects separated by commas.
pub open spec fn ser_tasks(ts: Seq<TaskV>) -> Seq<char>
    decreases ts.len(),
{
    if ts.len() == 0 {
        Seq::empty()
    } else if ts.len() == 1 {
        ser_task(ts[0])
    } else {
        ser_task(ts[0]) + seq![','] + ser_tasks(ts.drop_first())
    }
}

/// The whole store as one JSON document.
pub open spec fn ser_store(s: TaskListV) -> Seq<char> {
    lit_store_open() + ser_tasks(s.tasks) + seq![']'] + lit_next_id() + ser_nat(s.next_id)
        + seq!['}']
}

/// Whether `c` is a decimal digit.
pub open spec fn is_digit(c: char) -> bool {
    48 <= c as int <= 57
}

/// The value of the decimal digit `c`.
pub open spec fn digit_val(c: char) -> nat {
    (c as int - 48) as nat
}

/// Whether `c` is a lower-case hexadecimal digit.
pub open spec fn is_lower_hex(c: char) -> bool {
    is_digit(c) || 97 <= c as int <= 102
}

/// The value of the lower-case hexadecimal digit `c`.
pub open spec fn hex_val(c: char) -> nat {
    if is_digit(c) {
        digit_val(c)
    } else {
        (c as int - 87) as nat
    }
}

/// The first position at or after `i` that does not hold a digit.
pub open spec fn digits_end(s: Seq<char>, i: int) -> int
    decreases s.len() - i,
{
    if i < 0 || i >= s.len() {
        i
    } else if is_digit(s[i]) {
        digits_end(s, i + 1)
    } else {
        i
    }
}

/// The value of the digit run `s[i..j]`, most significant digit first.
pub open spec fn digits_val(s: Seq<char>, i: int, j: int) -> nat
    decreases j - i,
{
    if j <= i {
        0
    } else {
        digits_val(s, i, j - 1) * 10 + digit_val(s[j - 1])
    }
}

/// Reads a canonical decimal number at `i`: at least one digit, no
/// leading zero, value no larger than the store can hold.
pub open spec fn sp_nat(s: Seq<char>, i: int) -> Option<(nat, int)> {
    let j = digits_end(s, i);
    if j == i {
        None
    } else if s[i] == '0' && j > i + 1 {
        None
    } else if digits_val(s, i, j) > usize::MAX {
        None
    } else {
        Some((digits_val(s, i, j), j))
    }
}

/// Reads the body of a JSON string at `i`, escape by escape, through the
/// closing quote. Only the escapes the writer emits are accepted.
pub open spec fn sp_chars(s: Seq<char>, i: int) -> Option<(Seq<char>, int)>
    decreases s.len() - i,
{
    if i < 0 || i >= s.len() {
        None
    } else if s[i] == '"' {
        Some((Seq::empty(), i + 1))
    } else if s[i] == '\\' {
        if i + 1 >= s.len() {
            None
        } else {
            let e = s[i + 1];
            if e == '"' || e == '\\' || e == 'n' || e == 'r' || e == 't' {
                let d = if e == '"' {
                    '"'
                } else if e == '\\' {
                    '\\'
                } else if e == 'n' {
                    '\n'
                } else if e == 'r' {
                    '\r'
                } else {
                    '\t'
                };
                match sp_chars(s, i + 2) {
                    Some((rest, j)) => Some((seq![d] + rest, j)),
                    None => None,
                }
            } else if e == 'u' {
                if i + 5 >= s.len() {
                    None
                } else if s[i + 2] == '0' && s[i + 3] == '0' && is_lower_hex(s[i + 4])
                    && is_lower_hex(s[i + 5]) {
                    let v = hex_val(s[i + 4]) * 16 + hex_val(s[i + 5]);
                    if v < 0x20 && v != 0x0a && v != 0x0d && v != 0x09 {
                        match sp_chars(s, i + 6) {
                            Some((rest, j)) => Some((seq![(v as u8) as char] + rest, j)),
                            None => None,
                        }
                    } else {
                        None
                    }
                } else {
                    None
                }
            } else {
                None
            }
        }
    } else if 0 <= (s[i] as int) < 0x20 {
        None
    } else {
        match sp_chars(s, i + 1) {
            Some((rest, j)) => Some((seq![s[i]] + rest, j)),
            None => None,
        }
    }
}

/// Reads a JSON string at `i`: an opening quote, then its body.
pub open spec fn sp_string(s: Seq<char>, i: int) -> Option<(Seq<char>, int)> {
    if 0 <= i < s.len() && s[i] == '"' {
        sp_chars(s, i + 1)
    } else {
        None
    }
}

/// Reads the fixed text `lit` at `i`.
pub open spec fn sp_lit(s: Seq<char>, i: int, lit: Seq<char>) -> Option<int> {
    if 0 <= i && i + lit.len() <= s.len() && s.subrange(i, i + lit.len()) == lit {
        Some(i + lit.len())
    } else {
        None
    }
}

/// Reads a JSON boolean at `i`.
pub open spec fn sp_bool(s: Seq<char>, i: int) -> Option<(bool, int)> {
    if sp_lit(s, i, ser_bool(true)) is Some {
        Some((true, i + 4))
    } else if sp_lit(s, i, ser_bool(false)) is Some {
        Some((false, i + 5))
    } else {
        None
    }
}

/// Reads one task object at `i`.
pub open spec fn sp_task(s: Seq<char>, i: int) -> Option<(TaskV, int)> {
    match sp_lit(s, i, lit_task_open()) {
        Some(i1) => match sp_nat(s, i1) {
            Some((id, i2)) => match sp_lit(s, i2, lit_desc()) {
                Some(i3) => match sp_string(s, i3) {
                    Some((d, i4)) => match sp_lit(s, i4, lit_comp()) {
                        Some(i5) => match sp_bool(s, i5) {
                            Some((b, i6)) => match sp_lit(s, i6, seq!['}']) {
                                Some(i7) => Some(
                                    (TaskV { id, description: d, completed: b }, i7),
                                ),
                                None => None,
                            },
                            None => None,
                        },
                        None => None,
                    },
                    None => None,
                },
                None => None,
            },
            None => None,
        },
        None => None,
    }
}

/// A successful read always lands within the text and past its start.
pub proof fn lemma_sp_chars_range(s: Seq<char>, i: int)
    ensures
        sp_chars(s, i) matches Some((d, j)) ==> i < j <= s.len(),
    decreases s.len() - i,
{
    if 0 <= i < s.len() {
        lemma_sp_chars_range(s, i + 1);
        if i + 2 <= s.len() {
            lemma_sp_chars_range(s, i + 2);
        }
        if i + 6 <= s.len() {
            lemma_sp_chars_range(s, i + 6);
        }
    }
}

/// A successful read of a number always lands within the text, past its
/// start.
pub proof fn lemma_digits_end_range(s: Seq<char>, i: int)
    ensures
        0 <= i <= s.len() ==> i <= digits_end(s, i) <= s.len(),
    decreases s.len() - i,
{
    if 0 <= i < s.len() {
        lemma_digits_end_range(s, i + 1);
    }
}

/// A successful read of a task advances the position and stays in bounds.
pub proof fn lemma_sp_task_range(s: Seq<char>, i: int)
    ensures
        sp_task(s, i) matches Some((t, j)) ==> i < j <= s.len(),
{
    if let Some(i1) = sp_lit(s, i, lit_task_open()) {
        lemma_digits_end_range(s, i1);
        if let Some((id, i2)) = sp_nat(s, i1) {
            if let Some(i3) = sp_lit(s, i2, lit_desc()) {
                lemma_sp_chars_range(s, i3 + 1);
            }
        }
    }
}

/// Reads the comma-separated tasks at `i`, through the closing bracket.
pub open spec fn sp_task_list(s: Seq<char>, i: int) -> Option<(Seq<TaskV>, int)>
    decreases s.len() - i,
    via sp_task_list_decreases
{
    match sp_task(s, i) {
        Some((t, j)) => {
            if 0 <= j < s.len() && s[j] == ',' {
                match sp_task_list(s, j + 1) {
                    Some((ts, k)) => Some((seq![t] + ts, k)),
                    None => None,
                }
            } else if 0 <= j < s.len() && s[j] == ']' {
                Some((seq![t], j + 1))
            } else {
                None
            }
        },
        None => None,
    }
}

#[via_fn]
proof fn sp_task_list_decreases(s: Seq<char>, i: int) {
    lemma_sp_task_range(s, i);
}

/// Reads the task array's contents at `i`, through the closing bracket:
/// either an immediate bracket or one task after another.
pub open spec fn sp_tasks(s: Seq<char>, i: int) -> Option<(Seq<TaskV>, int)> {
    if 0 <= i < s.len() && s[i] == ']' {
        Some((Seq::empty(), i + 1))
    } else {
        sp_task_list(s, i)
    }
}

/// Reads a whole store document: exactly the text the writer emits.
pub open spec fn sp_store(s: Seq<char>) -> Option<TaskListV> {
    match sp_lit(s, 0, lit_store_open()) {
        Some(i1) => match sp_tasks(s, i1) {
            Some((ts, i2)) => match sp_lit(s, i2, lit_next_id()) {
                Some(i3) => match sp_nat(s, i3) {
                    Some((n, i4)) => match sp_lit(s, i4, seq!['}']) {
                        Some(i5) => if i5 == s.len() {
                            Some(TaskListV { tasks: ts, next_id: n })
                        } else {
                            None
                        },
                        None => None,
                    },
                    None => None,
                },
                None => None,
            },
            None => None,
        },
        None => None,
    }
}

/// Whether the text `t` stands in `s` at position `i`.
pub open spec fn text_at(s: Seq<char>, i: int, t: Seq<char>) -> bool {
    &&& 0 <= i
    &&& i + t.len() <= s.len()
    &&& s.subrange(i, i + t.len()) == t
}

/// A text standing at `i` splits into its two halves, in place.
proof fn lemma_text_at_split(s: Seq<char>, i: int, a: Seq<char>, b: Seq<char>)
    requires
        text_at(s, i, a + b),
    ensures
        text_at(s, i, a),
        text_at(s, i + a.len(), b),
{
    let t = a + b;
    assert forall|k: int| 0 <= k < a.len() implies s.subrange(i, i + a.len() as int)[k] == a[k] by {
        assert(t[k] == s.subrange(i, i + t.len() as int)[k]);
    }
    assert(s.subrange(i, i + a.len() as int) =~= a);
    assert forall|k: int|
        0 <= k < b.len() implies s.subrange(
        i + a.len() as int,
        i + a.len() + b.len() as int,
    )[k] == b[k] by {
        assert(t[a.len() + k] == s.subrange(i, i + t.len() as int)[a.len() + k]);
    }
    assert(s.subrange(i + a.len() as int, i + a.len() + b.len() as int) =~= b);
}

/// A text standing at `i` pins down the characters of `s` it covers.
proof fn lemma_text_at_index(s: Seq<char>, i: int, t: Seq<char>, k: int)
    requires
        text_at(s, i, t),
        0 <= k < t.len(),
    ensures
        s[i + k] == t[k],
{
    assert(s.subrange(i, i + t.len() as int)[k] == s[i + k]);
}

/// Decimal digits decode to the value they were made from.
proof fn lemma_digit_char(x: nat)
    requires
        x < 10,
    ensures
        is_digit(digit_char(x)),
        digit_val(digit_char(x)) == x,
{
}

/// Hexadecimal digits decode to the value they were made from.
proof fn lemma_hex_char(x: nat)
    requires
        x < 16,
    ensures
        is_lower_hex(hex_char(x)),
        hex_val(hex_char(x)) == x,
{
}

/// A rendered number is all digits, nonempty, and starts with a zero only
/// when it is zero itself.
proof fn lemma_ser_nat_shape(n: nat)
    ensures
        ser_nat(n).len() >= 1,
        forall|k: int| 0 <= k < ser_nat(n).len() ==> is_digit(#[trigger] ser_nat(n)[k]),
        n >= 1 ==> ser_nat(n)[0] != '0',
        n == 0 ==> ser_nat(n) == seq!['0'],
    decreases n,
{
    if n < 10 {
        lemma_digit_char(n);
    } else {
        lemma_ser_nat_shape(n / 10);
        lemma_digit_char(n % 10);
        assert(ser_nat(n) == ser_nat(n / 10).push(digit_char(n % 10)));
        assert(forall|k: int|
            0 <= k < ser_nat(n / 10).len() ==> ser_nat(n)[k] == ser_nat(n / 10)[k]);
    }
}

/// Scanning stops exactly at the end of a digit run.
proof fn lemma_digits_end_at(s: Seq<char>, i: int, d: Seq<char>)
    requires
        text_at(s, i, d),
        forall|k: int| 0 <= k < d.len() ==> is_digit(#[trigger] d[k]),
        i + d.len() == s.len() || !is_digit(s[i + d.len()]),
    ensures
        digits_end(s, i) == i + d.len(),
    decreases d.len(),
{
    if d.len() == 0 {
    } else {
        lemma_text_at_index(s, i, d, 0);
        assert(seq![d[0]] + d.drop_first() =~= d);
        lemma_text_at_split(s, i, seq![d[0]], d.drop_first());
        lemma_digits_end_at(s, i + 1, d.drop_first());
    }
}

/// A rendered number standing in a text evaluates back to its value.
proof fn lemma_digits_val_ser(s: Seq<char>, i: int, n: nat)
    requires
        text_at(s, i, ser_nat(n)),
    ensures
        digits_val(s, i, i + ser_nat(n).len()) == n,
    decreases n,
{
    let d = ser_nat(n);
    if n < 10 {
        lemma_text_at_index(s, i, d, 0);
        lemma_digit_char(n);
        assert(digits_val(s, i, i) == 0);
    } else {
        assert(d == ser_nat(n / 10).push(digit_char(n % 10)));
        assert(ser_nat(n / 10) + seq![digit_char(n % 10)] =~= d);
        lemma_text_at_split(s, i, ser_nat(n / 10), seq![digit_char(n % 10)]);
        lemma_digits_val_ser(s, i, n / 10);
        lemma_text_at_index(s, i + ser_nat(n / 10).len(), seq![digit_char(n % 10)], 0);
        assert(s[i + d.len() - 1] == digit_char(n % 10));
        lemma_digit_char(n % 10);
    }
}

/// A rendered number whose run ends (at the text's end or before a
/// non-digit) is read back as exactly its value.
proof fn lemma_sp_nat_complete(s: Seq<char>, i: int, n: nat)
    requires
        text_at(s, i, ser_nat(n)),
        n <= usize::MAX,
        i + ser_nat(n).len() == s.len() || !is_digit(s[i + ser_nat(n).len()]),
    ensures
        sp_nat(s, i) == Some((n, i + ser_nat(n).len() as int)),
{
    lemma_ser_nat_shape(n);
    lemma_digits_end_at(s, i, ser_nat(n));
    lemma_digits_val_ser(s, i, n);
    lemma_text_at_index(s, i, ser_nat(n), 0);
}

/// A digit decodes and re-encodes to itself.
proof fn lemma_digit_char_inverse(c: char)
    requires
        is_digit(c),
    ensures
        digit_val(c) < 10,
        digit_char(digit_val(c)) == c,
{
    assert('0' as int == 48 && '1' as int == 49 && '2' as int == 50 && '3' as int == 51 && '4'
        as int == 52 && '5' as int == 53 && '6' as int == 54 && '7' as int == 55 && '8' as int == 56
        && '9' as int == 57);
    assert(c as int == (c as int - 48) + 48);
}

/// A lower-case hexadecimal digit decodes and re-encodes to itself.
proof fn lemma_hex_char_inverse(c: char)
    requires
        is_lower_hex(c),
    ensures
        hex_val(c) < 16,
        hex_char(hex_val(c)) == c,
{
    if is_digit(c) {
        lemma_digit_char_inverse(c);
    } else {
        assert('a' as int == 97 && 'b' as int == 98 && 'c' as int == 99 && 'd' as int == 100 && 'e'
            as int == 101 && 'f' as int == 102);
    }
}

/// A digit run that does not start with a zero has a positive value.
proof fn lemma_digits_val_pos(s: Seq<char>, i: int, j: int)
    requires
        i < j <= s.len(),
        forall|m: int| i <= m < j ==> is_digit(#[trigger] s[m]),
        s[i] != '0',
    ensures
        digits_val(s, i, j) >= 1,
    decreases j - i,
{
    if j == i + 1 {
        lemma_digit_char_inverse(s[i]);
        assert('0' as int == 48);
    } else {
        lemma_digits_val_pos(s, i, j - 1);
    }
}

/// A digit run with no leading zero is exactly the rendering of its
/// value.
proof fn lemma_digits_canonical(s: Seq<char>, i: int, j: int)
    requires
        0 <= i < j <= s.len(),
        forall|m: int| i <= m < j ==> is_digit(#[trigger] s[m]),
        j - i > 1 ==> s[i] != '0',
    ensures
        ser_nat(digits_val(s, i, j)) =~= s.subrange(i, j),
    decreases j - i,
{
    let v = digits_val(s, i, j);
    if j == i + 1 {
        lemma_digit_char_inverse(s[i]);
        assert(digits_val(s, i, i) == 0);
        assert(v == digit_val(s[i]));
        assert(ser_nat(v) == seq![digit_char(v)]);
        assert(s.subrange(i, j) =~= seq![s[i]]);
    } else {
        let vp = digits_val(s, i, j - 1);
        lemma_digit_char_inverse(s[j - 1]);
        lemma_digits_val_pos(s, i, j - 1);
        assert(v == vp * 10 + digit_val(s[j - 1]));
        assert(v >= 10);
        assert(v / 10 == vp && v % 10 == digit_val(s[j - 1])) by {
            assert(vp * 10 + digit_val(s[j - 1]) == 10 * vp + digit_val(s[j - 1]));
        }
        assert(ser_nat(v) == ser_nat(vp).push(digit_char(v % 10)));
        lemma_digits_canonical(s, i, j - 1);
        assert(ser_nat(v) =~= s.subrange(i, j));
    }
}

/// A number read at `i` covers exactly the rendering of its value.
proof fn lemma_sp_nat_sound(s: Seq<char>, i: int)
    ensures
        sp_nat(s, i) matches Some((n, j)) ==> {
            &&& text_at(s, i, ser_nat(n))
            &&& j == i + ser_nat(n).len()
        },
{
    let o = sp_nat(s, i);
    if o is Some {
        let (n, j) = o->0;
        assert(j == digits_end(s, i));
        assert(0 <= i) by {
            if i < 0 {
                assert(digits_end(s, i) == i);
            }
        }
        lemma_digits_end_range(s, i);
        lemma_digits_end_digits(s, i);
        lemma_digits_canonical(s, i, j);
    }
}

/// A rendered string body followed by its closing quote is read back as
/// exactly the description it came from.
proof fn lemma_sp_chars_complete(s: Seq<char>, i: int, d: Seq<char>)
    requires
        text_at(s, i, ser_chars(d) + seq!['"']),
    ensures
        sp_chars(s, i) == Some((d, i + ser_chars(d).len() + 1)),
    decreases d.len(),
{
    if d.len() == 0 {
        assert(ser_chars(d) + seq!['"'] =~= seq!['"']);
        lemma_text_at_index(s, i, seq!['"'], 0);
        assert(d =~= Seq::<char>::empty());
    } else {
        let c = d[0];
        let e = esc_char(c);
        let d1 = d.drop_first();
        assert(ser_chars(d) == e + ser_chars(d1));
        assert(ser_chars(d) + seq!['"'] =~= e + (ser_chars(d1) + seq!['"']));
        lemma_text_at_split(s, i, e, ser_chars(d1) + seq!['"']);
        let i2 = i + e.len();
        lemma_sp_chars_complete(s, i2, d1);
        assert(seq![c] + d1 =~= d);
        if c == '"' || c == '\\' || c == '\n' || c == '\r' || c == '\t' {
            lemma_text_at_index(s, i, e, 0);
            lemma_text_at_index(s, i, e, 1);
            assert(s[i] == '\\');
        } else if 0 <= (c as int) < 0x20 {
            let cv = c as int;
            lemma_text_at_index(s, i, e, 0);
            lemma_text_at_index(s, i, e, 1);
            lemma_text_at_index(s, i, e, 2);
            lemma_text_at_index(s, i, e, 3);
            lemma_text_at_index(s, i, e, 4);
            lemma_text_at_index(s, i, e, 5);
            assert(s[i] == '\\' && s[i + 1] == 'u' && s[i + 2] == '0' && s[i + 3] == '0');
            assert(s[i + 4] == hex_char((cv / 16) as nat));
            assert(s[i + 5] == hex_char((cv % 16) as nat));
            lemma_hex_char((cv / 16) as nat);
            lemma_hex_char((cv % 16) as nat);
            let v = hex_val(s[i + 4]) * 16 + hex_val(s[i + 5]);
            assert(v == cv);
            assert(cv != 0x0a && cv != 0x0d && cv != 0x09) by {
                assert(c != '\n' && c != '\r' && c != '\t');
                assert('\n' as int == 0x0a && '\r' as int == 0x0d && '\t' as int == 0x09);
            }
            assert(((v as u8) as char) == c);
        } else {
            lemma_text_at_index(s, i, e, 0);
            assert(s[i] == c);
        }
    }
}

/// A string body read at `i` covers exactly the escaped rendering of the
/// description it decodes to, with the closing quote after it.
proof fn lemma_sp_chars_sound(s: Seq<char>, i: int)
    ensures
        sp_chars(s, i) matches Some((d, j)) ==> {
            &&& text_at(s, i, ser_chars(d) + seq!['"'])
            &&& j == i + ser_chars(d).len() + 1
        },
    decreases s.len() - i,
{
    let o = sp_chars(s, i);
    if o is Some {
        let (d, j) = o->0;
        let c = s[i];
        if c == '"' {
            assert(d =~= Seq::<char>::empty());
            assert(ser_chars(d) + seq!['"'] =~= seq!['"']);
            assert(s.subrange(i, i + 1) =~= seq!['"']);
        } else if c == '\\' {
            let e = s[i + 1];
            if e == '"' || e == '\\' || e == 'n' || e == 'r' || e == 't' {
                let dec = if e == '"' {
                    '"'
                } else if e == '\\' {
                    '\\'
                } else if e == 'n' {
                    '\n'
                } else if e == 'r' {
                    '\r'
                } else {
                    '\t'
                };
                lemma_sp_chars_range(s, i + 2);
                lemma_sp_chars_sound(s, i + 2);
                let (rest, j2) = sp_chars(s, i + 2)->0;
                assert(d == seq![dec] + rest && j == j2);
                assert(d[0] == dec && d.drop_first() =~= rest);
                assert(esc_char(dec) =~= seq!['\\', e]) by {
                    assert('"' as int == 34 && '\\' as int == 92);
                }
                assert(ser_chars(d) + seq!['"'] =~= esc_char(dec) + (ser_chars(rest)
                    + seq!['"']));
                assert(s.subrange(i, i + 2) =~= seq!['\\', e]);
                lemma_text_at_join(s, i, esc_char(dec), ser_chars(rest) + seq!['"']);
            } else {
                let h1 = s[i + 4];
                let h2 = s[i + 5];
                let v = hex_val(h1) * 16 + hex_val(h2);
                let dec = (v as u8) as char;
                lemma_sp_chars_range(s, i + 6);
                lemma_sp_chars_sound(s, i + 6);
                let (rest, j2) = sp_chars(s, i + 6)->0;
                assert(d == seq![dec] + rest && j == j2);
                assert(d[0] == dec && d.drop_first() =~= rest);
                lemma_hex_char_inverse(h1);
                lemma_hex_char_inverse(h2);
                assert(dec as int == v);
                assert(v / 16 == hex_val(h1) && v % 16 == hex_val(h2)) by {
                    assert(hex_val(h1) * 16 + hex_val(h2) == 16 * hex_val(h1) + hex_val(h2));
                }
                assert(esc_char(dec) =~= seq!['\\', 'u', '0', '0', h1, h2]) by {
                    assert('"' as int == 34 && '\\' as int == 92 && '\n' as int == 10 && '\r'
                        as int == 13 && '\t' as int == 9);
                }
                assert(ser_chars(d) + seq!['"'] =~= esc_char(dec) + (ser_chars(rest)
                    + seq!['"']));
                assert(s.subrange(i, i + 6) =~= seq!['\\', 'u', '0', '0', h1, h2]);
                lemma_text_at_join(s, i, esc_char(dec), ser_chars(rest) + seq!['"']);
            }
        } else {
            lemma_sp_chars_range(s, i + 1);
            lemma_sp_chars_sound(s, i + 1);
            let (rest, j2) = sp_chars(s, i + 1)->0;
            assert(d == seq![c] + rest && j == j2);
            assert(d[0] == c && d.drop_first() =~= rest);
            assert(esc_char(c) =~= seq![c]) by {
                assert('"' as int == 34 && '\\' as int == 92 && '\n' as int == 10 && '\r' as int
                    == 13 && '\t' as int == 9);
            }
            assert(ser_chars(d) + seq!['"'] =~= esc_char(c) + (ser_chars(rest) + seq!['"']));
            assert(s.subrange(i, i + 1) =~= seq![c]);
            lemma_text_at_join(s, i, esc_char(c), ser_chars(rest) + seq!['"']);
        }
    }
}

/// Two texts standing at `i` and right after it stand joined at `i`.
proof fn lemma_text_at_join(s: Seq<char>, i: int, a: Seq<char>, b: Seq<char>)
    requires
        0 <= i,
        i + a.len() <= s.len(),
        s.subrange(i, i + a.len() as int) == a,
        text_at(s, i + a.len(), b),
    ensures
        text_at(s, i, a + b),
{
    assert forall|k: int|
        0 <= k < (a + b).len() implies s.subrange(i, i + (a + b).len() as int)[k] == (a + b)[k] by {
        if k < a.len() {
            assert(a[k] == s.subrange(i, i + a.len() as int)[k]);
        } else {
            assert(b[k - a.len()] == s.subrange(
                i + a.len() as int,
                i + a.len() + b.len() as int,
            )[k - a.len()]);
        }
    }
    assert(s.subrange(i, i + (a + b).len() as int) =~= a + b);
}

/// A rendered task is read back as exactly the task it came from, as long
/// as the character after it is not a digit (in a store document a comma,
/// a bracket or a brace always follows).
proof fn lemma_sp_task_complete(s: Seq<char>, i: int, t: TaskV)
    requires
        text_at(s, i, ser_task(t)),
        t.id <= usize::MAX,
    ensures
        sp_task(s, i) == Some((t, i + ser_task(t).len() as int)),
{
    let p1 = lit_task_open();
    let p2 = ser_nat(t.id);
    let p3 = lit_desc();
    let p4 = ser_string(t.description);
    let p5 = lit_comp();
    let p6 = ser_bool(t.completed);
    let p7 = seq!['}'];
    assert(ser_task(t) =~= p1 + (p2 + (p3 + (p4 + (p5 + (p6 + p7))))));
    lemma_text_at_split(s, i, p1, p2 + (p3 + (p4 + (p5 + (p6 + p7)))));
    let i1 = i + p1.len();
    lemma_text_at_split(s, i1, p2, p3 + (p4 + (p5 + (p6 + p7))));
    let i2 = i1 + p2.len();
    lemma_text_at_split(s, i2, p3, p4 + (p5 + (p6 + p7)));
    let i3 = i2 + p3.len();
    lemma_text_at_split(s, i3, p4, p5 + (p6 + p7));
    let i4 = i3 + p4.len();
    lemma_text_at_split(s, i4, p5, p6 + p7);
    let i5 = i4 + p5.len();
    lemma_text_at_split(s, i5, p6, p7);
    let i6 = i5 + p6.len();

    assert(sp_lit(s, i, p1) == Some(i1));
    lemma_text_at_index(s, i2, p3, 0);
    assert(s[i2] == ',' && !is_digit(','));
    lemma_sp_nat_complete(s, i1, t.id);
    assert(sp_lit(s, i2, p3) == Some(i3));
    lemma_text_at_index(s, i3, p4, 0);
    assert(p4[0] == '"');
    assert(p4 =~= seq!['"'] + (ser_chars(t.description) + seq!['"']));
    lemma_text_at_split(s, i3, seq!['"'], ser_chars(t.description) + seq!['"']);
    lemma_sp_chars_complete(s, i3 + 1, t.description);
    assert(sp_string(s, i3) == Some((t.description, i4)));
    assert(sp_lit(s, i4, p5) == Some(i5));
    if t.completed {
        assert(sp_lit(s, i5, ser_bool(true)) == Some(i5 + 4));
        assert(sp_bool(s, i5) == Some((true, i6)));
    } else {
        lemma_text_at_index(s, i5, p6, 0);
        assert(s[i5] == 'f');
        if sp_lit(s, i5, ser_bool(true)) is Some {
            assert(s.subrange(i5, i5 + 4)[0] == s[i5]);
            assert(false);
        }
        assert(sp_lit(s, i5, ser_bool(false)) == Some(i5 + 5));
        assert(sp_bool(s, i5) == Some((false, i6)));
    }
    assert(sp_lit(s, i6, p7) == Some(i6 + 1));
    assert(TaskV { id: t.id, description: t.description, completed: t.completed } =~= t);
}

/// A rendered task array followed by its closing bracket is read back as
/// exactly the tasks it came from.
#[verifier::rlimit(40)]
proof fn lemma_sp_tasks_complete(s: Seq<char>, i: int, ts: Seq<TaskV>)
    requires
        text_at(s, i, ser_tasks(ts) + seq![']']),
        forall|k: int| 0 <= k < ts.len() ==> (#[trigger] ts[k].id) <= usize::MAX,
    ensures
        sp_tasks(s, i) == Some((ts, i + ser_tasks(ts).len() + 1)),
    decreases ts.len(),
{
    if ts.len() == 0 {
        assert(ser_tasks(ts) + seq![']'] =~= seq![']']);
        lemma_text_at_index(s, i, seq![']'], 0);
        assert(ts =~= Seq::<TaskV>::empty());
    } else if ts.len() == 1 {
        let t0 = ts[0];
        assert(ser_tasks(ts) == ser_task(t0));
        lemma_text_at_split(s, i, ser_task(t0), seq![']']);
        lemma_sp_task_complete(s, i, t0);
        let j = i + ser_task(t0).len();
        lemma_text_at_index(s, j, seq![']'], 0);
        assert(s[j] == ']');
        lemma_text_at_index(s, i, ser_task(t0), 0);
        assert(ser_task(t0)[0] == lit_task_open()[0]);
        assert(s[i] == '{');
        assert(seq![t0] =~= ts);
    } else {
        let t0 = ts[0];
        let rest = ts.drop_first();
        assert(ser_tasks(ts) == ser_task(t0) + seq![','] + ser_tasks(rest));
        assert(ser_tasks(ts) + seq![']'] =~= ser_task(t0) + (seq![','] + (ser_tasks(rest)
            + seq![']'])));
        lemma_text_at_split(s, i, ser_task(t0), seq![','] + (ser_tasks(rest) + seq![']']));
        let j = i + ser_task(t0).len();
        lemma_text_at_split(s, j, seq![','], ser_tasks(rest) + seq![']']);
        lemma_sp_task_complete(s, i, t0);
        lemma_text_at_index(s, j, seq![','], 0);
        assert(s[j] == ',');
        lemma_sp_tasks_complete(s, j + 1, rest);
        assert(ser_tasks(rest)[0] == ser_task(rest[0])[0]);
        assert(ser_task(rest[0])[0] == lit_task_open()[0]);
        lemma_text_at_index(s, j + 1, ser_tasks(rest) + seq![']'], 0);
        assert(s[j + 1] == '{');
        assert(sp_task_list(s, j + 1) == sp_tasks(s, j + 1));
        lemma_text_at_index(s, i, ser_task(t0), 0);
        assert(ser_task(t0)[0] == lit_task_open()[0]);
        assert(s[i] == '{');
        assert(seq![t0] + rest =~= ts);
    }
}

/// A task read at `i` covers exactly the rendering of the task returned.
#[verifier::rlimit(60)]
proof fn lemma_sp_task_sound(s: Seq<char>, i: int)
    ensures
        sp_task(s, i) matches Some((t, j)) ==> {
            &&& text_at(s, i, ser_task(t))
            &&& j == i + ser_task(t).len()
        },
{
    let o = sp_task(s, i);
    if o is Some {
        let (t, j) = o->0;
        let i1 = sp_lit(s, i, lit_task_open())->0;
        let (id, i2) = sp_nat(s, i1)->0;
        let i3 = sp_lit(s, i2, lit_desc())->0;
        let (dsc, i4) = sp_string(s, i3)->0;
        let i5 = sp_lit(s, i4, lit_comp())->0;
        let (b, i6) = sp_bool(s, i5)->0;
        let i7 = sp_lit(s, i6, seq!['}'])->0;
        assert(t == (TaskV { id, description: dsc, completed: b }) && j == i7);

        lemma_sp_nat_sound(s, i1);
        lemma_sp_chars_sound(s, i3 + 1);
        assert(s.subrange(i3, i3 + 1) =~= seq!['"']);
        lemma_text_at_join(s, i3, seq!['"'], ser_chars(dsc) + seq!['"']);
        assert(seq!['"'] + (ser_chars(dsc) + seq!['"']) =~= ser_string(dsc));
        assert(text_at(s, i3, ser_string(dsc)));
        assert(i4 == i3 + ser_string(dsc).len());

        if b {
            assert(text_at(s, i5, ser_bool(true)));
            assert(i6 == i5 + 4);
        } else {
            assert(sp_lit(s, i5, ser_bool(true)) is None);
            assert(text_at(s, i5, ser_bool(false)));
            assert(i6 == i5 + 5);
        }

        assert(text_at(s, i6, seq!['}']));
        lemma_text_at_join(s, i5, ser_bool(b), seq!['}']);
        lemma_text_at_join(s, i4, lit_comp(), ser_bool(b) + seq!['}']);
        lemma_text_at_join(s, i3, ser_string(dsc), lit_comp() + (ser_bool(b) + seq!['}']));
        lemma_text_at_join(
            s,
            i2,
            lit_desc(),
            ser_string(dsc) + (lit_comp() + (ser_bool(b) + seq!['}'])),
        );
        lemma_text_at_join(
            s,
            i1,
            ser_nat(id),
            lit_desc() + (ser_string(dsc) + (lit_comp() + (ser_bool(b) + seq!['}']))),
        );
        lemma_text_at_join(
            s,
            i,
            lit_task_open(),
            ser_nat(id) + (lit_desc() + (ser_string(dsc) + (lit_comp() + (ser_bool(b)
                + seq!['}'])))),
        );
        assert(ser_task(t) =~= lit_task_open() + (ser_nat(id) + (lit_desc() + (ser_string(dsc) + (
        lit_comp() + (ser_bool(b) + seq!['}']))))));
    }
}

/// A task list read at `i` covers exactly the rendering of the tasks
/// returned, with the closing bracket after them.
proof fn lemma_sp_task_list_sound(s: Seq<char>, i: int)
    ensures
        sp_task_list(s, i) matches Some((ts, k)) ==> {
            &&& ts.len() >= 1
            &&& text_at(s, i, ser_tasks(ts) + seq![']'])
            &&& k == i + ser_tasks(ts).len() + 1
        },
    decreases s.len() - i,
{
    let o = sp_task_list(s, i);
    if o is Some {
        let (ts, k) = o->0;
        let (t0, j) = sp_task(s, i)->0;
        lemma_sp_task_range(s, i);
        lemma_sp_task_sound(s, i);
        if s[j] == ',' {
            lemma_sp_task_list_sound(s, j + 1);
            let (rest, k2) = sp_task_list(s, j + 1)->0;
            assert(ts == seq![t0] + rest && k == k2);
            assert(ts[0] == t0 && ts.drop_first() =~= rest);
            assert(ts.len() >= 2);
            assert(ser_tasks(ts) == ser_task(t0) + seq![','] + ser_tasks(rest));
            assert(s.subrange(j, j + 1) =~= seq![',']);
            lemma_text_at_join(s, j, seq![','], ser_tasks(rest) + seq![']']);
            lemma_text_at_join(s, i, ser_task(t0), seq![','] + (ser_tasks(rest) + seq![']']));
            assert(ser_tasks(ts) + seq![']'] =~= ser_task(t0) + (seq![','] + (ser_tasks(rest)
                + seq![']'])));
        } else {
            assert(s[j] == ']');
            assert(ts == seq![t0] && k == j + 1);
            assert(ts.len() == 1 && ts[0] == t0);
            assert(ser_tasks(ts) == ser_task(t0));
            assert(s.subrange(j, j + 1) =~= seq![']']);
            assert(text_at(s, j, seq![']']));
            lemma_text_at_join(s, i, ser_task(t0), seq![']']);
        }
    }
}

/// Reading succeeds only on the canonical document: whatever text the
/// reader accepts is exactly what the writer emits for the store it
/// returns.
pub proof fn lemma_store_parse_sound(s: Seq<char>)
    ensures
        sp_store(s) matches Some(tl) ==> s == ser_store(tl),
{
    let o = sp_store(s);
    if o is Some {
        let tl = o->0;
        let i1 = sp_lit(s, 0, lit_store_open())->0;
        let (ts, i2) = sp_tasks(s, i1)->0;
        let i3 = sp_lit(s, i2, lit_next_id())->0;
        let (n, i4) = sp_nat(s, i3)->0;
        let i5 = sp_lit(s, i4, seq!['}'])->0;
        assert(tl == (TaskListV { tasks: ts, next_id: n }) && i5 == s.len());

        if 0 <= i1 < s.len() && s[i1] == ']' {
            assert(ts =~= Seq::<TaskV>::empty());
            assert(s.subrange(i1, i1 + 1) =~= seq![']']);
            assert(ser_tasks(ts) + seq![']'] =~= seq![']']);
            assert(text_at(s, i1, ser_tasks(ts) + seq![']']));
            assert(i2 == i1 + ser_tasks(ts).len() + 1);
        } else {
            lemma_sp_task_list_sound(s, i1);
        }
        lemma_sp_nat_sound(s, i3);
        assert(text_at(s, i4, seq!['}']));
        lemma_text_at_join(s, i3, ser_nat(n), seq!['}']);
        lemma_text_at_join(s, i2, lit_next_id(), ser_nat(n) + seq!['}']);
        lemma_text_at_join(
            s,
            i1,
            ser_tasks(ts) + seq![']'],
            lit_next_id() + (ser_nat(n) + seq!['}']),
        );
        lemma_text_at_join(
            s,
            0,
            lit_store_open(),
            (ser_tasks(ts) + seq![']']) + (lit_next_id() + (ser_nat(n) + seq!['}'])),
        );
        assert(ser_store(tl) =~= lit_store_open() + ((ser_tasks(ts) + seq![']']) + (lit_next_id()
            + (ser_nat(n) + seq!['}']))));
        assert(s.subrange(0, s.len() as int) =~= s);
        assert(s =~= ser_store(tl));
    }
}

/// Whether every number in the store fits the machine's word, as every
/// store held in memory does.
pub open spec fn bounded(s: TaskListV) -> bool {
    &&& s.next_id <= usize::MAX
    &&& forall|i: int| 0 <= i < s.tasks.len() ==> (#[trigger] s.tasks[i].id) <= usize::MAX
}

/// The view of any store held in memory is bounded.
pub proof fn lemma_view_bounded(list: &TaskList)
    ensures
        bounded(list@),
{
}

/// Round trip: reading back the document written for a store yields
/// exactly that store.
#[verifier::rlimit(100)]
pub proof fn lemma_store_round_trip(tl: TaskListV)
    requires
        bounded(tl),
    ensures
        sp_store(ser_store(tl)) == Some(tl),
{
    let s = ser_store(tl);
    let p1 = lit_store_open();
    let p2 = ser_tasks(tl.tasks) + seq![']'];
    let p3 = lit_next_id();
    let p4 = ser_nat(tl.next_id);
    let p5 = seq!['}'];
    assert(s =~= p1 + (p2 + (p3 + (p4 + p5))));
    assert(s.subrange(0, s.len() as int) =~= s);
    lemma_text_at_split(s, 0, p1, p2 + (p3 + (p4 + p5)));
    let i1 = p1.len() as int;
    lemma_text_at_split(s, i1, p2, p3 + (p4 + p5));
    let i2 = i1 + p2.len();
    lemma_text_at_split(s, i2, p3, p4 + p5);
    let i3 = i2 + p3.len();
    lemma_text_at_split(s, i3, p4, p5);
    let i4 = i3 + p4.len();

    assert(sp_lit(s, 0, p1) == Some(i1));
    lemma_sp_tasks_complete(s, i1, tl.tasks);
    assert(sp_lit(s, i2, p3) == Some(i3));
    lemma_text_at_index(s, i4, p5, 0);
    assert(s[i4] == '}' && !is_digit('}'));
    lemma_sp_nat_complete(s, i3, tl.next_id);
    assert(sp_lit(s, i4, p5) == Some(i4 + 1));
    assert(i4 + 1 == s.len());
    assert(TaskListV { tasks: tl.tasks, next_id: tl.next_id } =~= tl);
}

/// The characters of `s`, one by one.
pub fn str_to_chars(s: &str) -> (r: Vec<char>)
    ensures
        r@ == s@,
{
    let n = s.unicode_len();
    let mut r: Vec<char> = Vec::new();
    let mut k: usize = 0;
    while k < n
        invariant
            0 <= k <= n,
            n == s@.len(),
            r@ == s@.take(k as int),
        decreases n - k,
    {
        let c = s.get_char(k);
        r.push(c);
        proof {
            assert(r@ =~= s@.take(k + 1 as int));
        }
        k = k + 1;
    }
    proof {
        assert(s@.take(n as int) =~= s@);
    }
    r
}

/// Relies on `core::iter::Iterator::collect`: collecting the characters
/// of a vector into a `String` yields the string of exactly those
/// characters, in order.
#[verifier::external_body]
pub(crate) fn chars_to_string(v: &Vec<char>) -> (r: String)
    ensures
        r@ == v@,
{
    v.iter().collect()
}

/// The decimal digit `d` as a character.
fn digit_to_char(d: usize) -> (c: char)
    requires
        d < 10,
    ensures
        c == digit_char(d as nat),
{
    match d {
        0 => '0',
        1 => '1',
        2 => '2',
        3 => '3',
        4 => '4',
        5 => '5',
        6 => '6',
        7 => '7',
        8 => '8',
        _ => '9',
    }
}

/// The hexadecimal digit `d` as a lower-case character.
fn hex_to_char(d: usize) -> (c: char)
    requires
        d < 16,
    ensures
        c == hex_char(d as nat),
{
    if d < 10 {
        digit_to_char(d)
    } else {
        match d {
            10 => 'a',
            11 => 'b',
            12 => 'c',
            13 => 'd',
            14 => 'e',
            _ => 'f',
        }
    }
}

/// Appends the decimal rendering of `n`.
fn push_nat(out: &mut Vec<char>, n: usize)
    ensures
        final(out)@ == old(out)@ + ser_nat(n as nat),
    decreases n,
{
    if n < 10 {
        out.push(digit_to_char(n));
        proof {
            assert(out@ =~= old(out)@ + ser_nat(n as nat));
        }
    } else {
        push_nat(out, n / 10);
        out.push(digit_to_char(n % 10));
        proof {
            assert(out@ =~= old(out)@ + ser_nat(n as nat));
        }
    }
}

/// Appends one description character, escaped as the format requires.
fn push_esc_char(out: &mut Vec<char>, c: char)
    ensures
        final(out)@ == old(out)@ + esc_char(c),
{
    if c == '"' {
        out.push('\\');
        out.push('"');
    } else if c == '\\' {
        out.push('\\');
        out.push('\\');
    } else if c == '\n' {
        out.push('\\');
        out.push('n');
    } else if c == '\r' {
        out.push('\\');
        out.push('r');
    } else if c == '\t' {
        out.push('\\');
        out.push('t');
    } else if (c as u32) < 0x20 {
        let v = c as u32;
        out.push('\\');
        out.push('u');
        out.push('0');
        out.push('0');
        out.push(hex_to_char((v / 16) as usize));
        out.push(hex_to_char((v % 16) as usize));
    } else {
        out.push(c);
    }
    proof {
        assert(out@ =~= old(out)@ + esc_char(c));
    }
}

/// Splitting a description splits its escaped rendering.
pub proof fn lemma_ser_chars_concat(a: Seq<char>, b: Seq<char>)
    ensures
        ser_chars(a + b) == ser_chars(a) + ser_chars(b),
    decreases a.len(),
{
    if a.len() == 0 {
        assert(a + b =~= b);
        assert(ser_chars(a) + ser_chars(b) =~= ser_chars(b));
    } else {
        lemma_ser_chars_concat(a.drop_first(), b);
        assert((a + b).drop_first() =~= a.drop_first() + b);
        assert(ser_chars(a) + ser_chars(b) =~= esc_char(a[0]) + (ser_chars(a.drop_first())
            + ser_chars(b)));
    }
}

/// Appends the escaped rendering of every character of `d`.
fn push_ser_chars(out: &mut Vec<char>, d: &Vec<char>)
    ensures
        final(out)@ == old(out)@ + ser_chars(d@),
{
    let n = d.len();
    let mut k: usize = 0;
    while k < n
        invariant
            0 <= k <= n,
            n == d@.len(),
            out@ == old(out)@ + ser_chars(d@.take(k as int)),
        decreases n - k,
    {
        push_esc_char(out, d[k]);
        proof {
            let pre = d@.take(k as int);
            let s1 = seq![d@[k as int]];
            assert(d@.take(k + 1 as int) =~= pre + s1);
            lemma_ser_chars_concat(pre, s1);
            assert(s1.drop_first() =~= Seq::<char>::empty());
            assert(ser_chars(s1.drop_first()) =~= Seq::<char>::empty());
            assert(ser_chars(s1) =~= esc_char(d@[k as int]));
            assert(out@ =~= old(out)@ + ser_chars(d@.take(k + 1 as int)));
        }
        k = k + 1;
    }
    proof {
        assert(d@.take(n as int) =~= d@);
    }
}

/// Appends the JSON string form of a description.
fn push_ser_string(out: &mut Vec<char>, d: &str)
    ensures
        final(out)@ == old(out)@ + ser_string(d@),
{
    let chars = str_to_chars(d);
    out.push('"');
    push_ser_chars(out, &chars);
    out.push('"');
    proof {
        assert(out@ =~= old(out)@ + ser_string(d@));
    }
}

/// Appends a JSON boolean.
fn push_bool(out: &mut Vec<char>, b: bool)
    ensures
        final(out)@ == old(out)@ + ser_bool(b),
{
    if b {
        out.push('t');
        out.push('r');
        out.push('u');
        out.push('e');
    } else {
        out.push('f');
        out.push('a');
        out.push('l');
        out.push('s');
        out.push('e');
    }
    proof {
        assert(out@ =~= old(out)@ + ser_bool(b));
    }
}

/// Appends one task object.
fn push_task(out: &mut Vec<char>, t: &Task)
    ensures
        final(out)@ == old(out)@ + ser_task(t@),
{
    out.push('{');
    out.push('"');
    out.push('i');
    out.push('d');
    out.push('"');
    out.push(':');
    push_nat(out, t.id);
    out.push(',');
    out.push('"');
    out.push('d');
    out.push('e');
    out.push('s');
    out.push('c');
    out.push('r');
    out.push('i');
    out.push('p');
    out.push('t');
    out.push('i');
    out.push('o');
    out.push('n');
    out.push('"');
    out.push(':');
    push_ser_string(out, description_str(t));
    out.push(',');
    out.push('"');
    out.push('c');
    out.push('o');
    out.push('m');
    out.push('p');
    out.push('l');
    out.push('e');
    out.push('t');
    out.push('e');
    out.push('d');
    out.push('"');
    out.push(':');
    push_bool(out, t.completed);
    out.push('}');
    proof {
        assert(out@ =~= old(out)@ + ser_task(t@));
    }
}

/// The description field of a task, as a borrowed string.
fn description_str(t: &Task) -> (r: &str)
    ensures
        r@ == t@.description,
{
    t.description.as_str()
}

/// Extending a task sequence by one extends its rendering by a comma and
/// one task object (the comma only when the sequence was not empty).
pub proof fn lemma_ser_tasks_push(ts: Seq<TaskV>, k: int)
    requires
        0 <= k < ts.len(),
    ensures
        k == 0 ==> ser_tasks(ts.take(1)) == ser_task(ts[0]),
        k > 0 ==> ser_tasks(ts.take(k + 1)) == ser_tasks(ts.take(k)) + seq![','] + ser_task(
            ts[k],
        ),
    decreases k,
{
    if k == 0 {
        assert(ts.take(1).len() == 1);
        assert(ts.take(1)[0] == ts[0]);
    } else {
        let a = ts.take(k + 1);
        let b = ts.take(k);
        assert(a[0] == ts[0]);
        assert(b[0] == ts[0]);
        if k == 1 {
            assert(a.drop_first() =~= ts.subrange(1, 2).take(1));
            assert(a.drop_first().len() == 1);
            assert(a.drop_first()[0] == ts[1]);
            assert(ser_tasks(a.drop_first()) == ser_task(ts[1]));
            assert(b.len() == 1);
            assert(ser_tasks(b) == ser_task(ts[0]));
            assert(ser_tasks(a) == ser_task(ts[0]) + seq![','] + ser_task(ts[1]));
        } else {
            let ts1 = ts.drop_first();
            lemma_ser_tasks_push(ts1, k - 1);
            assert(a.drop_first() =~= ts1.take(k));
            assert(b.drop_first() =~= ts1.take(k - 1));
            assert(ts1.take(k - 1 + 1) =~= ts1.take(k));
            assert(ts1[k - 1] == ts[k]);
            assert(ser_tasks(ts1.take(k)) == ser_tasks(ts1.take(k - 1)) + seq![','] + ser_task(
                ts[k],
            ));
            assert(ser_tasks(a) == ser_task(ts[0]) + seq![','] + ser_tasks(ts1.take(k)));
            assert(ser_tasks(b) == ser_task(ts[0]) + seq![','] + ser_tasks(ts1.take(k - 1)));
            assert(ser_tasks(a) =~= ser_tasks(b) + seq![','] + ser_task(ts[k]));
        }
    }
}

/// Appends the comma-separated task array contents.
fn push_tasks(out: &mut Vec<char>, ts: &Vec<Task>)
    ensures
        final(out)@ == old(out)@ + ser_tasks(ts@.map_values(|t: Task| t@)),
{
    let ghost model = ts@.map_values(|t: Task| t@);
    let n = ts.len();
    let mut k: usize = 0;
    while k < n
        invariant
            0 <= k <= n,
            n == ts@.len(),
            model == ts@.map_values(|t: Task| t@),
            out@ == old(out)@ + ser_tasks(model.take(k as int)),
        decreases n - k,
    {
        if k > 0 {
            out.push(',');
        }
        push_task(out, &ts[k]);
        proof {
            lemma_ser_tasks_push(model, k as int);
            assert(model[k as int] == ts@[k as int]@);
            assert(out@ =~= old(out)@ + ser_tasks(model.take(k + 1 as int)));
        }
        k = k + 1;
    }
    proof {
        assert(model.take(n as int) =~= model);
    }
}

/// Every character of a digit run is a digit.
proof fn lemma_digits_end_digits(s: Seq<char>, i: int)
    ensures
        forall|m: int| i <= m < digits_end(s, i) ==> is_digit(#[trigger] s[m]),
    decreases s.len() - i,
{
    if 0 <= i < s.len() && is_digit(s[i]) {
        lemma_digits_end_digits(s, i + 1);
    }
}

/// A digit run's value only grows as the run extends.
pub(crate) proof fn lemma_digits_val_mono(s: Seq<char>, i: int, k: int, j: int)
    requires
        k <= j,
    ensures
        digits_val(s, i, k) <= digits_val(s, i, j),
    decreases j - k,
{
    if k < j {
        lemma_digits_val_mono(s, i, k, j - 1);
    }
}

/// Whether `c` is a decimal digit.
pub(crate) fn is_digit_exec(c: char) -> (r: bool)
    ensures
        r == is_digit(c),
{
    let v = c as u32;
    48 <= v && v <= 57
}

/// The value of the decimal digit `c`.
pub(crate) fn digit_val_exec(c: char) -> (r: u32)
    requires
        is_digit(c),
    ensures
        r == digit_val(c),
{
    (c as u32) - 48
}

/// Whether `c` is a control character, which a JSON string never holds
/// in the raw.
fn is_control_exec(c: char) -> (r: bool)
    ensures
        r == (0 <= (c as int) < 0x20),
{
    (c as u32) < 0x20
}

/// Whether `c` is a lower-case hexadecimal digit.
fn is_lower_hex_exec(c: char) -> (r: bool)
    ensures
        r == is_lower_hex(c),
{
    let v = c as u32;
    (48 <= v && v <= 57) || (97 <= v && v <= 102)
}

/// The value of the lower-case hexadecimal digit `c`.
fn hex_val_exec(c: char) -> (r: u32)
    requires
        is_lower_hex(c),
    ensures
        r == hex_val(c),
{
    let v = c as u32;
    if v <= 57 {
        v - 48
    } else {
        v - 87
    }
}

/// Reads the fixed text `lit` at `i`.
fn parse_lit(s: &Vec<char>, i: usize, lit: &str) -> (r: Option<usize>)
    ensures
        r matches Some(j) ==> sp_lit(s@, i as int, lit@) == Some(j as int),
        r is None ==> sp_lit(s@, i as int, lit@) is None,
{
    let n = lit.unicode_len();
    if i > s.len() || n > s.len() - i {
        return None;
    }
    let mut k: usize = 0;
    while k < n
        invariant
            0 <= k <= n,
            n == lit@.len(),
            i + n <= s@.len(),
            s@.len() <= usize::MAX,
            forall|m: int| 0 <= m < k ==> s@[i + m] == lit@[m],
        decreases n - k,
    {
        if s[i + k] != lit.get_char(k) {
            proof {
                if sp_lit(s@, i as int, lit@) is Some {
                    assert(s@.subrange(i as int, i + lit@.len() as int)[k as int] == s@[i + k]);
                }
            }
            return None;
        }
        k = k + 1;
    }
    proof {
        assert(s@.subrange(i as int, i + lit@.len() as int) =~= lit@);
    }
    Some(i + n)
}

/// Reads a canonical decimal number at `i`.
fn parse_nat(s: &Vec<char>, i: usize) -> (r: Option<(usize, usize)>)
    ensures
        sp_nat(s@, i as int) matches Some((n, j)) ==> (r matches Some(p) && p.0 == n && p.1
            == j),
        sp_nat(s@, i as int) is None ==> r is None,
{
    let len = s.len();
    let mut j: usize = if i > len {
        len
    } else {
        i
    };
    proof {
        if i > len {
            assert(digits_end(s@, i as int) == i);
        }
    }
    if i > len {
        return None;
    }
    while j < len && is_digit_exec(s[j])
        invariant
            i <= j <= len,
            len == s@.len(),
            digits_end(s@, i as int) == digits_end(s@, j as int),
        decreases len - j,
    {
        j = j + 1;
    }
    proof {
        assert(digits_end(s@, j as int) == j);
    }
    if j == i {
        return None;
    }
    if s[i] == '0' && j > i + 1 {
        return None;
    }
    proof {
        lemma_digits_end_digits(s@, i as int);
    }
    let mut val: u128 = 0;
    let mut k: usize = i;
    while k < j
        invariant
            i <= k <= j <= len,
            len == s@.len(),
            digits_end(s@, i as int) == j,
            forall|m: int| i <= m < j ==> is_digit(#[trigger] s@[m]),
            val == digits_val(s@, i as int, k as int),
            val <= usize::MAX as u128,
        decreases j - k,
    {
        let c = s[k];
        let d = digit_val_exec(c);
        let big = val * 10 + (d as u128);
        if big > (usize::MAX as u128) {
            proof {
                assert(digits_val(s@, i as int, k + 1 as int) == val * 10 + d);
                lemma_digits_val_mono(s@, i as int, k + 1 as int, j as int);
            }
            return None;
        }
        val = big;
        k = k + 1;
    }
    Some((val as usize, j))
}

/// Reads a JSON boolean at `i`.
fn parse_bool(s: &Vec<char>, i: usize) -> (r: Option<(bool, usize)>)
    ensures
        sp_bool(s@, i as int) matches Some((b, j)) ==> (r matches Some(p) && p.0 == b && p.1
            == j),
        sp_bool(s@, i as int) is None ==> r is None,
{
    proof {
        reveal_strlit("true");
        reveal_strlit("false");
        assert("true"@ =~= ser_bool(true));
        assert("false"@ =~= ser_bool(false));
    }
    match parse_lit(s, i, "true") {
        Some(j) => Some((true, j)),
        None => match parse_lit(s, i, "false") {
            Some(j) => Some((false, j)),
            None => None,
        },
    }
}

/// Reads a JSON string at `i`, decoding the escapes the writer emits.
fn parse_string(s: &Vec<char>, i: usize) -> (r: Option<(String, usize)>)
    ensures
        sp_string(s@, i as int) matches Some((d, j)) ==> (r matches Some(p) && p.0@ == d && p.1
            == j),
        sp_string(s@, i as int) is None ==> r is None,
{
    let len = s.len();
    if i >= len || s[i] != '"' {
        return None;
    }
    let ghost i0: int = i + 1;
    let mut cur: usize = i + 1;
    let mut acc: Vec<char> = Vec::new();
    loop
        invariant
            i + 1 <= cur <= len,
            len == s@.len(),
            i < len && s@[i as int] == '"',
            sp_string(s@, i as int) == sp_chars(s@, i0),
            sp_chars(s@, i0) == match sp_chars(s@, cur as int) {
                Some((rest, j)) => Some((acc@ + rest, j)),
                None => None::<(Seq<char>, int)>,
            },
        decreases len - cur,
    {
        if cur >= len {
            return None;
        }
        let c = s[cur];
        if c == '"' {
            proof {
                assert(acc@ + Seq::<char>::empty() =~= acc@);
            }
            let out = chars_to_string(&acc);
            return Some((out, cur + 1));
        } else if c == '\\' {
            if len - cur <= 1 {
                return None;
            }
            let e = s[cur + 1];
            if e == '"' || e == '\\' || e == 'n' || e == 'r' || e == 't' {
                let dec = if e == '"' {
                    '"'
                } else if e == '\\' {
                    '\\'
                } else if e == 'n' {
                    '\n'
                } else if e == 'r' {
                    '\r'
                } else {
                    '\t'
                };
                proof {
                    let o = sp_chars(s@, cur + 2 as int);
                    if o is Some {
                        let (rest, jj) = o->0;
                        assert(acc@.push(dec) + rest =~= acc@ + (seq![dec] + rest));
                    }
                }
                acc.push(dec);
                cur = cur + 2;
            } else if e == 'u' {
                if len - cur <= 5 {
                    return None;
                }
                if s[cur + 2] != '0' || s[cur + 3] != '0' {
                    return None;
                }
                let h1 = s[cur + 4];
                let h2 = s[cur + 5];
                if !is_lower_hex_exec(h1) || !is_lower_hex_exec(h2) {
                    return None;
                }
                let v = hex_val_exec(h1) * 16 + hex_val_exec(h2);
                if v < 0x20 && v != 0x0a && v != 0x0d && v != 0x09 {
                    let dec = (v as u8) as char;
                    proof {
                        let o = sp_chars(s@, cur + 6 as int);
                        if o is Some {
                            let (rest, jj) = o->0;
                            assert(acc@.push(dec) + rest =~= acc@ + (seq![dec] + rest));
                        }
                    }
                    acc.push(dec);
                    cur = cur + 6;
                } else {
                    return None;
                }
            } else {
                return None;
            }
        } else if is_control_exec(c) {
            return None;
        } else {
            proof {
                let o = sp_chars(s@, cur + 1 as int);
                if o is Some {
                    let (rest, jj) = o->0;
                    assert(acc@.push(c) + rest =~= acc@ + (seq![c] + rest));
                }
            }
            acc.push(c);
            cur = cur + 1;
        }
    }
}

/// Reads one task object at `i`.
fn parse_task(s: &Vec<char>, i: usize) -> (r: Option<(Task, usize)>)
    ensures
        sp_task(s@, i as int) matches Some((t, j)) ==> (r matches Some(p) && p.0@ == t && p.1
            == j),
        sp_task(s@, i as int) is None ==> r is None,
{
    proof {
        reveal_strlit("{\"id\":");
        reveal_strlit(",\"description\":");
        reveal_strlit(",\"completed\":");
        reveal_strlit("}");
        assert("{\"id\":"@ =~= lit_task_open());
        assert(",\"description\":"@ =~= lit_desc());
        assert(",\"completed\":"@ =~= lit_comp());
        assert("}"@ =~= seq!['}']);
    }
    let i1 = match parse_lit(s, i, "{\"id\":") {
        Some(x) => x,
        None => {
            return None;
        },
    };
    let (id, i2) = match parse_nat(s, i1) {
        Some(p) => p,
        None => {
            return None;
        },
    };
    let i3 = match parse_lit(s, i2, ",\"description\":") {
        Some(x) => x,
        None => {
            return None;
        },
    };
    let (descr, i4) = match parse_string(s, i3) {
        Some(p) => p,
        None => {
            return None;
        },
    };
    let i5 = match parse_lit(s, i4, ",\"completed\":") {
        Some(x) => x,
        None => {
            return None;
        },
    };
    let (comp, i6) = match parse_bool(s, i5) {
        Some(p) => p,
        None => {
            return None;
        },
    };
    let i7 = match parse_lit(s, i6, "}") {
        Some(x) => x,
        None => {
            return None;
        },
    };
    let task = Task { id, description: descr, completed: comp };
    proof {
        let o = sp_task(s@, i as int);
        if o is Some {
            let (t, j) = o->0;
            assert(task@ =~= t);
        }
    }
    Some((task, i7))
}

/// Reads the task array's contents at `i`, through the closing bracket.
fn parse_tasks(s: &Vec<char>, i: usize) -> (r: Option<(Vec<Task>, usize)>)
    ensures
        sp_tasks(s@, i as int) matches Some((ts, j)) ==> (r matches Some(p) && p.0@.map_values(
            |t: Task| t@,
        ) == ts && p.1 == j),
        sp_tasks(s@, i as int) is None ==> r is None,
{
    let len = s.len();
    if i < len && s[i] == ']' {
        let out: Vec<Task> = Vec::new();
        proof {
            assert(out@.map_values(|t: Task| t@) =~= Seq::<TaskV>::empty());
        }
        return Some((out, i + 1));
    }
    let mut acc: Vec<Task> = Vec::new();
    let mut cur: usize = i;
    loop
        invariant
            i <= cur,
            cur <= len || cur == i,
            len == s@.len(),
            sp_tasks(s@, i as int) == sp_task_list(s@, i as int),
            sp_task_list(s@, i as int) == match sp_task_list(s@, cur as int) {
                Some((ts, k)) => Some((acc@.map_values(|t: Task| t@) + ts, k)),
                None => None::<(Seq<TaskV>, int)>,
            },
        decreases len - cur,
    {
        let (t, j) = match parse_task(s, cur) {
            Some(p) => p,
            None => {
                return None;
            },
        };
        proof {
            lemma_sp_task_range(s@, cur as int);
        }
        let ghost tv = t@;
        let ghost accv = acc@.map_values(|x: Task| x@);
        if j < len && s[j] == ',' {
            proof {
                let o = sp_task_list(s@, j + 1 as int);
                if o is Some {
                    let (ts2, k2) = o->0;
                    assert(acc@.push(t).map_values(|x: Task| x@) =~= accv.push(tv));
                    assert(accv.push(tv) + ts2 =~= accv + (seq![tv] + ts2));
                }
            }
            acc.push(t);
            cur = j + 1;
        } else if j < len && s[j] == ']' {
            proof {
                assert(sp_task_list(s@, cur as int) == Some((seq![tv], j + 1 as int)));
                assert(acc@.push(t).map_values(|x: Task| x@) =~= accv.push(tv));
                assert(accv.push(tv) =~= accv + seq![tv]);
            }
            acc.push(t);
            return Some((acc, j + 1));
        } else {
            return None;
        }
    }
}

/// Reads a whole store document: exactly the text `store_to_json` writes.
pub fn store_from_json(s: &str) -> (r: Option<TaskList>)
    ensures
        sp_store(s@) matches Some(tl) ==> (r matches Some(list) && list@ == tl),
        sp_store(s@) is None ==> r is None,
{
    proof {
        reveal_strlit("{\"tasks\":[");
        reveal_strlit(",\"next_id\":");
        reveal_strlit("}");
        assert("{\"tasks\":["@ =~= lit_store_open());
        assert(",\"next_id\":"@ =~= lit_next_id());
        assert("}"@ =~= seq!['}']);
    }
    let chars = str_to_chars(s);
    let i1 = match parse_lit(&chars, 0, "{\"tasks\":[") {
        Some(x) => x,
        None => {
            return None;
        },
    };
    let (tasks, i2) = match parse_tasks(&chars, i1) {
        Some(p) => p,
        None => {
            return None;
        },
    };
    let i3 = match parse_lit(&chars, i2, ",\"next_id\":") {
        Some(x) => x,
        None => {
            return None;
        },
    };
    let (nid, i4) = match parse_nat(&chars, i3) {
        Some(p) => p,
        None => {
            return None;
        },
    };
    let i5 = match parse_lit(&chars, i4, "}") {
        Some(x) => x,
        None => {
            return None;
        },
    };
    if i5 != chars.len() {
        return None;
    }
    let list = TaskList { tasks, next_id: nid };
    proof {
        let o = sp_store(s@);
        if o is Some {
            assert(list@ =~= o->0);
        }
    }
    Some(list)
}

/// The store held in a data file's content: the parsed store when the
/// file was there and holds a well-formed document, the empty store
/// otherwise. Well-formed means exactly the canonical text
/// `store_to_json` writes; any other rendering of the data counts as
/// unparseable and yields the empty store, as an unparseable file does.
pub fn store_from_content(content: Option<&str>) -> (r: TaskList)
    ensures
        match content {
            Some(text) => match sp_store(text@) {
                Some(tl) => r@ == tl,
                None => r@.tasks.len() == 0 && r@.next_id == 0,
            },
            None => r@.tasks.len() == 0 && r@.next_id == 0,
        },
{
    match content {
        Some(text) => match store_from_json(text) {
            Some(list) => list,
            None => TaskList::new(),
        },
        None => TaskList::new(),
    }
}

/// Reads a whole single-task document: one task object and nothing else.
pub open spec fn sp_task_doc(s: Seq<char>) -> Option<TaskV> {
    match sp_task(s, 0) {
        Some((t, j)) => if j == s.len() {
            Some(t)
        } else {
            None
        },
        None => None,
    }
}

/// The canonical JSON document for one task, as the one-file-per-task
/// layout stores it.
pub fn task_to_json(t: &Task) -> (r: String)
    ensures
        r@ == ser_task(t@),
{
    let mut out: Vec<char> = Vec::new();
    push_task(&mut out, t);
    proof {
        assert(out@ =~= ser_task(t@));
    }
    chars_to_string(&out)
}

/// Reads one task's document: exactly the text `task_to_json` writes.
pub fn task_from_json(s: &str) -> (r: Option<Task>)
    ensures
        sp_task_doc(s@) matches Some(t) ==> (r matches Some(task) && task@ == t),
        sp_task_doc(s@) is None ==> r is None,
{
    let chars = str_to_chars(s);
    match parse_task(&chars, 0) {
        Some((task, j)) => {
            if j == chars.len() {
                Some(task)
            } else {
                None
            }
        },
        None => None,
    }
}

/// Round trip for one task: reading back the document written for it
/// yields exactly that task.
pub proof fn lemma_task_round_trip(t: TaskV)
    requires
        t.id <= usize::MAX,
    ensures
        sp_task_doc(ser_task(t)) == Some(t),
{
    let s = ser_task(t);
    assert(s.subrange(0, s.len() as int) =~= s);
    lemma_sp_task_complete(s, 0, t);
}

/// The decimal rendering of `n`, as the listings and messages print it.
pub fn usize_to_string(n: usize) -> (r: String)
    ensures
        r@ == ser_nat(n as nat),
{
    let mut out: Vec<char> = Vec::new();
    push_nat(&mut out, n);
    proof {
        assert(out@ =~= ser_nat(n as nat));
    }
    chars_to_string(&out)
}

/// The canonical JSON document for a store.
pub fn store_to_json(list: &TaskList) -> (r: String)
    ensures
        r@ == ser_store(list@),
{
    let mut out: Vec<char> = Vec::new();
    out.push('{');
    out.push('"');
    out.push('t');
    out.push('a');
    out.push('s');
    out.push('k');
    out.push('s');
    out.push('"');
    out.push(':');
    out.push('[');
    push_tasks(&mut out, &list.tasks);
    out.push(']');
    out.push(',');
    out.push('"');
    out.push('n');
    out.push('e');
    out.push('x');
    out.push('t');
    out.push('_');
    out.push('i');
    out.push('d');
    out.push('"');
    out.push(':');
    push_nat(&mut out, list.next_id);
    out.push('}');
    proof {
        assert(out@ =~= ser_store(list@));
    }
    chars_to_string(&out)
}

} // verus!
