use vstd::prelude::*;
use vstd::string::*;

use crate::text::{find_char, first_index, lemma_first_index_bounds};

verus! {

/// An ASCII decimal digit.
pub open spec fn is_digit(c: char) -> bool {
    '0' <= c && c <= '9'
}

/// A nonempty run of decimal digits.
pub open spec fn all_digits(s: Seq<char>) -> bool {
    s.len() > 0 && forall|i: int| 0 <= i < s.len() ==> is_digit(#[trigger] s[i])
}

/// The number that a run of decimal digits writes.
pub open spec fn digits_value(s: Seq<char>) -> int
    decreases s.len(),
{
    if s.len() == 0 {
        0
    } else {
        digits_value(s.drop_last()) * 10 + (s.last() as int - '0' as int)
    }
}

/// `s` without a leading `+` or `-`, and whether that sign was a minus.
pub open spec fn unsigned_part(s: Seq<char>) -> (bool, Seq<char>) {
    if s.len() > 0 && s[0] == '-' {
        (true, s.drop_first())
    } else if s.len() > 0 && s[0] == '+' {
        (false, s.drop_first())
    } else {
        (false, s)
    }
}

/// The texts that `str::parse::<i64>` accepts: an optional sign, then
/// decimal digits, for a value that fits an `i64`.
pub open spec fn i64_syntax(s: Seq<char>) -> bool {
    let (neg, d) = unsigned_part(s);
    all_digits(d) && if neg {
        -digits_value(d) >= i64::MIN
    } else {
        digits_value(d) <= i64::MAX
    }
}

/// The texts that `str::parse::<u64>` accepts: an optional `+`, then decimal
/// digits, for a value that fits a `u64`.
pub open spec fn u64_syntax(s: Seq<char>) -> bool {
    let d = if s.len() > 0 && s[0] == '+' {
        s.drop_first()
    } else {
        s
    };
    all_digits(d) && digits_value(d) <= u64::MAX
}

/// `s` spells `lower` with each letter in either case (`upper` gives the
/// capitals).
pub open spec fn spells(s: Seq<char>, lower: Seq<char>, upper: Seq<char>) -> bool {
    &&& s.len() == lower.len()
    &&& lower.len() == upper.len()
    &&& forall|i: int| 0 <= i < s.len() ==> #[trigger] s[i] == lower[i] || s[i] == upper[i]
}

/// Digits with at most one decimal point among them, and at least one digit.
pub open spec fn mantissa_syntax(m: Seq<char>) -> bool {
    &&& forall|i: int| 0 <= i < m.len() ==> is_digit(#[trigger] m[i]) || m[i] == '.'
    &&& forall|i: int, j: int| 0 <= i < m.len() && 0 <= j < m.len() && #[trigger] m[i] == '.' && #[trigger] m[j] == '.' ==> i == j
    &&& exists|i: int| 0 <= i < m.len() && is_digit(#[trigger] m[i])
}

/// Position of the first `e` or `E` in `s`, if any.
pub open spec fn first_exp_mark(s: Seq<char>) -> Option<int>
    decreases s.len(),
{
    if s.len() == 0 {
        None
    } else if s[0] == 'e' || s[0] == 'E' {
        Some(0)
    } else {
        match first_exp_mark(s.drop_first()) {
            Some(i) => Some(i + 1),
            None => None,
        }
    }
}

/// A decimal number: a mantissa, then optionally `e` or `E`, an optional sign
/// and digits.
pub open spec fn number_syntax(t: Seq<char>) -> bool {
    match first_exp_mark(t) {
        None => mantissa_syntax(t),
        Some(p) => mantissa_syntax(t.subrange(0, p)) && all_digits(
            unsigned_part(t.subrange(p + 1, t.len() as int)).1,
        ),
    }
}

/// The texts that `str::parse::<f64>` accepts, by the grammar its
/// documentation gives: an optional sign, then `inf`, `infinity` or `nan` in
/// any case, or a decimal number.
pub open spec fn float_syntax(s: Seq<char>) -> bool {
    let t = unsigned_part(s).1;
    ||| spells(t, "inf"@, "INF"@)
    ||| spells(t, "infinity"@, "INFINITY"@)
    ||| spells(t, "nan"@, "NAN"@)
    ||| number_syntax(t)
}

/// A decimal integer as TOML writes it: an optional sign, then digits, with
/// single underscores allowed between digits (as in `10_080`).
pub open spec fn underscored_int_syntax(s: Seq<char>) -> bool {
    let d = unsigned_part(s).1;
    &&& d.len() > 0
    &&& is_digit(d[0])
    &&& is_digit(d.last())
    &&& forall|i: int| 0 <= i < d.len() ==> is_digit(#[trigger] d[i]) || d[i] == '_'
    &&& forall|i: int| 0 <= i < d.len() - 1 && #[trigger] d[i] == '_' ==> d[i + 1] != '_'
}

/// A TOML string already in double or single quotes.
pub open spec fn is_quoted(s: Seq<char>) -> bool {
    s.len() > 0 && ((s[0] == '"' && s.last() == '"') || (s[0] == '\'' && s.last() == '\''))
}

/// A TOML boolean or special float keyword.
pub open spec fn is_keyword(s: Seq<char>) -> bool {
    s == "true"@ || s == "false"@ || s == "inf"@ || s == "nan"@
}

/// Starts like a hexadecimal, octal or binary integer.
pub open spec fn has_radix_prefix(s: Seq<char>) -> bool {
    s.len() >= 2 && s[0] == '0' && (s[1] == 'x' || s[1] == 'o' || s[1] == 'b')
}

/// Text that goes into a TOML value as it is.
pub open spec fn is_bare_value(s: Seq<char>) -> bool {
    ||| is_quoted(s)
    ||| is_keyword(s)
    ||| i64_syntax(s)
    ||| u64_syntax(s)
    ||| float_syntax(s)
    ||| underscored_int_syntax(s)
    ||| has_radix_prefix(s)
}

/// One character as it stands inside a TOML basic string.
pub open spec fn escape_char(c: char) -> Seq<char> {
    if c == '\\' {
        seq!['\\', '\\']
    } else if c == '"' {
        seq!['\\', '"']
    } else {
        seq![c]
    }
}

/// `s` with its backslashes doubled and its double quotes escaped.
pub open spec fn escape_toml(s: Seq<char>) -> Seq<char>
    decreases s.len(),
{
    if s.len() == 0 {
        Seq::empty()
    } else {
        escape_toml(s.drop_last()) + escape_char(s.last())
    }
}

/// The TOML value written for the text `s` of a command-line override:
/// `s` itself where it already reads as a TOML value, else `s` as a quoted
/// string.
pub open spec fn toml_value_for(s: Seq<char>) -> Seq<char> {
    if is_bare_value(s) {
        s
    } else {
        seq!['"'] + escape_toml(s) + seq!['"']
    }
}

/// Escaping two texts one after the other.
pub proof fn lemma_escape_concat(a: Seq<char>, b: Seq<char>)
    ensures
        escape_toml(a + b) == escape_toml(a) + escape_toml(b),
    decreases b.len(),
{
    if b.len() == 0 {
        assert(a + b =~= a);
        assert(escape_toml(b) =~= Seq::<char>::empty());
        assert(escape_toml(a) + escape_toml(b) =~= escape_toml(a));
    } else {
        lemma_escape_concat(a, b.drop_last());
        assert((a + b).drop_last() =~= a + b.drop_last());
        assert((a + b).last() == b.last());
        assert(escape_toml(a) + escape_toml(b) =~= escape_toml(a) + escape_toml(b.drop_last()) + escape_char(b.last()));
    }
}

/// Text without backslashes or double quotes needs no escaping.
pub proof fn lemma_escape_plain(s: Seq<char>)
    requires
        forall|i: int| 0 <= i < s.len() ==> #[trigger] s[i] != '\\' && s[i] != '"',
    ensures
        escape_toml(s) == s,
    decreases s.len(),
{
    if s.len() > 0 {
        let t = s.drop_last();
        assert forall|i: int| 0 <= i < t.len() implies #[trigger] t[i] != '\\' && t[i] != '"' by {
            assert(t[i] == s[i]);
        }
        lemma_escape_plain(t);
        assert(s.last() == s[s.len() - 1]);
        assert(escape_toml(s) =~= t.push(s.last()));
        assert(t.push(s.last()) =~= s);
    }
}

/// Escaping a prefix of `v` whose tail from `start` needs no escaping.
pub proof fn lemma_escape_extend(v: Seq<char>, start: int, i: int)
    requires
        0 <= start <= i <= v.len(),
        forall|j: int| start <= j < i ==> #[trigger] v[j] != '\\' && v[j] != '"',
    ensures
        escape_toml(v.subrange(0, i)) == escape_toml(v.subrange(0, start)) + v.subrange(start, i),
{
    let a = v.subrange(0, start);
    let b = v.subrange(start, i);
    assert forall|j: int| 0 <= j < b.len() implies #[trigger] b[j] != '\\' && b[j] != '"' by {
        assert(b[j] == v[start + j]);
    }
    lemma_escape_plain(b);
    lemma_escape_concat(a, b);
    assert(a + b =~= v.subrange(0, i));
}

/// Escaping one more character of `v`.
pub proof fn lemma_escape_step(v: Seq<char>, i: int)
    requires
        0 <= i < v.len(),
    ensures
        escape_toml(v.subrange(0, i + 1)) == escape_toml(v.subrange(0, i)) + escape_char(v[i]),
{
    assert(v.subrange(0, i + 1).drop_last() =~= v.subrange(0, i));
}

/// How a TOML reader reads the inside of a basic string made of escaped
/// backslashes, escaped double quotes and plain characters: a backslash
/// stands for the character after it.
pub open spec fn unescape_toml(s: Seq<char>) -> Seq<char>
    decreases s.len(),
{
    if s.len() == 0 {
        Seq::empty()
    } else if s[0] == '\\' && s.len() >= 2 {
        seq![s[1]] + unescape_toml(s.subrange(2, s.len() as int))
    } else {
        seq![s[0]] + unescape_toml(s.drop_first())
    }
}

/// Quoting is reversible: reading back the escaped text of a value gives
/// the value, so an override reaches its setting exactly as typed.
pub proof fn lemma_unescape_escape(s: Seq<char>)
    ensures
        unescape_toml(escape_toml(s)) == s,
    decreases s.len(),
{
    if s.len() > 0 {
        let c = s[0];
        let rest = s.drop_first();
        assert(s =~= seq![c] + rest);
        lemma_escape_concat(seq![c], rest);
        assert(seq![c].drop_last() =~= Seq::<char>::empty());
        assert(seq![c].last() == c);
        assert(escape_toml(Seq::<char>::empty()) =~= Seq::<char>::empty());
        assert(escape_toml(seq![c]) =~= Seq::<char>::empty() + escape_char(c));
        assert(escape_toml(seq![c]) =~= escape_char(c));
        let e = escape_toml(rest);
        let whole = escape_char(c) + e;
        if c == '\\' || c == '"' {
            assert(whole.subrange(2, whole.len() as int) =~= e);
        } else {
            assert(whole.drop_first() =~= e);
        }
        lemma_unescape_escape(rest);
    }
}

/// Whether `s` parses as an `i64`, by `str::parse`.
#[verifier::external_body]
fn parses_as_i64(s: &str) -> (b: bool)
    ensures
        b == i64_syntax(s@),
{
    s.parse::<i64>().is_ok()
}

/// Whether `s` parses as a `u64`, by `str::parse`.
#[verifier::external_body]
fn parses_as_u64(s: &str) -> (b: bool)
    ensures
        b == u64_syntax(s@),
{
    s.parse::<u64>().is_ok()
}

/// Whether `c` is `lower` or `upper`.
fn either(c: char, lower: char, upper: char) -> (b: bool)
    ensures
        b == (c == lower || c == upper),
{
    c == lower || c == upper
}

/// Whether `t` spells the word of `lower` with each letter in either case.
fn spells_word(t: &str, lower: &str, upper: &str) -> (b: bool)
    requires
        lower@.len() == upper@.len(),
    ensures
        b == spells(t@, lower@, upper@),
{
    let n = t.unicode_len();
    let m = lower.unicode_len();
    if n != m {
        return false;
    }
    let mut i: usize = 0;
    while i < n
        invariant
            n == t@.len(),
            n == lower@.len(),
            n == upper@.len(),
            0 <= i <= n,
            forall|j: int| 0 <= j < i ==> #[trigger] t@[j] == lower@[j] || t@[j] == upper@[j],
        decreases n - i,
    {
        if !either(t.get_char(i), lower.get_char(i), upper.get_char(i)) {
            return false;
        }
        i = i + 1;
    }
    true
}

/// Whether `m` is a run of digits with at most one decimal point and at
/// least one digit.
fn is_mantissa(m: &str) -> (b: bool)
    ensures
        b == mantissa_syntax(m@),
{
    let n = m.unicode_len();
    let mut dot: Option<usize> = None;
    let mut digit: Option<usize> = None;
    let mut i: usize = 0;
    while i < n
        invariant
            n == m@.len(),
            0 <= i <= n,
            forall|j: int| 0 <= j < i ==> is_digit(#[trigger] m@[j]) || m@[j] == '.',
            match dot {
                Some(d) => d < i && m@[d as int] == '.' && forall|j: int| 0 <= j < i && #[trigger] m@[j] == '.' ==> j == d,
                None => forall|j: int| 0 <= j < i ==> #[trigger] m@[j] != '.',
            },
            match digit {
                Some(d) => d < i && is_digit(m@[d as int]),
                None => forall|j: int| 0 <= j < i ==> !is_digit(#[trigger] m@[j]),
            },
        decreases n - i,
    {
        let c = m.get_char(i);
        if c == '.' {
            if dot.is_some() {
                proof {
                    let d = dot.unwrap();
                    assert(m@[d as int] == '.' && m@[i as int] == '.' && d != i);
                }
                return false;
            }
            dot = Some(i);
        } else if '0' <= c && c <= '9' {
            digit = Some(i);
        } else {
            return false;
        }
        i = i + 1;
    }
    match digit {
        Some(d) => {
            assert(is_digit(m@[d as int]));
            true
        },
        None => false,
    }
}

/// Whether `d` is a nonempty run of digits.
fn is_digits(d: &str) -> (b: bool)
    ensures
        b == all_digits(d@),
{
    let n = d.unicode_len();
    if n == 0 {
        return false;
    }
    let mut i: usize = 0;
    while i < n
        invariant
            n == d@.len(),
            0 <= i <= n,
            forall|j: int| 0 <= j < i ==> is_digit(#[trigger] d@[j]),
        decreases n - i,
    {
        let c = d.get_char(i);
        if !('0' <= c && c <= '9') {
            return false;
        }
        i = i + 1;
    }
    true
}

/// `s` without a leading `+` or `-`.
fn drop_sign<'a>(s: &'a str) -> (r: &'a str)
    ensures
        r@ == unsigned_part(s@).1,
{
    let n = s.unicode_len();
    if n > 0 {
        let c = s.get_char(0);
        if c == '-' || c == '+' {
            let r = s.substring_char(1, n);
            assert(r@ =~= s@.drop_first());
            return r;
        }
    }
    s
}

/// The position of the first `e` or `E` in `t`, if any.
fn find_exp_mark(t: &str) -> (r: Option<usize>)
    ensures
        match r {
            Some(i) => first_exp_mark(t@) == Some(i as int) && i < t@.len(),
            None => first_exp_mark(t@) is None,
        },
{
    let a = find_char(t, 'e');
    let b = find_char(t, 'E');
    proof {
        lemma_exp_mark(t@);
    }
    match (a, b) {
        (Some(i), Some(j)) => if i < j {
            Some(i)
        } else {
            Some(j)
        },
        (Some(i), None) => Some(i),
        (None, Some(j)) => Some(j),
        (None, None) => None,
    }
}

/// The first `e` or `E` is whichever of the first `e` and the first `E`
/// comes first.
proof fn lemma_exp_mark(s: Seq<char>)
    ensures
        first_exp_mark(s) == match (first_index(s, 'e'), first_index(s, 'E')) {
            (Some(i), Some(j)) => if i < j {
                Some(i)
            } else {
                Some(j)
            },
            (Some(i), None) => Some(i),
            (None, Some(j)) => Some(j),
            (None, None) => None,
        },
        first_exp_mark(s) matches Some(i) ==> 0 <= i < s.len(),
    decreases s.len(),
{
    lemma_first_index_bounds(s, 'e');
    lemma_first_index_bounds(s, 'E');
    if s.len() > 0 && s[0] != 'e' && s[0] != 'E' {
        lemma_exp_mark(s.drop_first());
    }
}

/// Whether `s` parses as a floating-point number, by the grammar of
/// `float_syntax`.
pub fn is_float_text(s: &str) -> (b: bool)
    ensures
        b == float_syntax(s@),
{
    let t = drop_sign(s);
    proof {
        reveal_strlit("inf");
        reveal_strlit("INF");
        reveal_strlit("infinity");
        reveal_strlit("INFINITY");
        reveal_strlit("nan");
        reveal_strlit("NAN");
    }
    if spells_word(t, "inf", "INF") || spells_word(t, "infinity", "INFINITY") || spells_word(t, "nan", "NAN") {
        return true;
    }
    let n = t.unicode_len();
    match find_exp_mark(t) {
        None => is_mantissa(t),
        Some(p) => is_mantissa(t.substring_char(0, p)) && is_digits(drop_sign(t.substring_char(p + 1, n))),
    }
}

/// Whether `s` is a decimal integer with single underscores between digits.
pub fn is_underscored_int(s: &str) -> (b: bool)
    ensures
        b == underscored_int_syntax(s@),
{
    let d = drop_sign(s);
    let n = d.unicode_len();
    if n == 0 {
        return false;
    }
    let first = d.get_char(0);
    let last = d.get_char(n - 1);
    assert(d@.last() == d@[n - 1]);
    if !('0' <= first && first <= '9') || !('0' <= last && last <= '9') {
        return false;
    }
    let mut i: usize = 0;
    while i < n
        invariant
            n == d@.len(),
            d@ == unsigned_part(s@).1,
            0 <= i <= n,
            forall|j: int| 0 <= j < i ==> is_digit(#[trigger] d@[j]) || d@[j] == '_',
            forall|j: int| 0 <= j < i && j < n - 1 && #[trigger] d@[j] == '_' ==> d@[j + 1] != '_',
        decreases n - i,
    {
        let c = d.get_char(i);
        if !(('0' <= c && c <= '9') || c == '_') {
            assert(!(is_digit(d@[i as int]) || d@[i as int] == '_'));
            return false;
        }
        if c == '_' && i + 1 < n && d.get_char(i + 1) == '_' {
            assert(d@[i as int] == '_' && d@[i + 1] == '_');
            return false;
        }
        i = i + 1;
    }
    true
}

/// Whether `s` is `lit`.
fn is_text(s: &str, lit: &str) -> (b: bool)
    ensures
        b == (s@ == lit@),
{
    crate::text::str_eq(s, lit)
}

/// The TOML value written for the text `value` of a command-line override:
/// a quoted string, boolean, number (integers with underscores included) or
/// special float keyword stays as it is;
/// anything else becomes a quoted string with its backslashes and double
/// quotes escaped.
pub fn auto_quote_toml_value(value: &str) -> (r: String)
    ensures
        r@ == toml_value_for(value@),
{
    let n = value.unicode_len();
    let quoted = n > 0 && {
        let first = value.get_char(0);
        let last = value.get_char(n - 1);
        (first == '"' && last == '"') || (first == '\'' && last == '\'')
    };
    let keyword = is_text(value, "true") || is_text(value, "false") || is_text(value, "inf") || is_text(value, "nan");
    let number = parses_as_i64(value) || parses_as_u64(value) || is_float_text(value) || is_underscored_int(value);
    let radix = n >= 2 && value.get_char(0) == '0' && {
        let c = value.get_char(1);
        c == 'x' || c == 'o' || c == 'b'
    };
    if quoted || keyword || number || radix {
        return String::from_str(value);
    }
    let mut out = String::from_str("\"");
    proof {
        reveal_strlit("\"");
        assert(value@.subrange(0, 0) =~= Seq::<char>::empty());
        assert(out@ =~= seq!['"'] + escape_toml(value@.subrange(0, 0)));
    }
    let mut start: usize = 0;
    let mut i: usize = 0;
    while i < n
        invariant
            n == value@.len(),
            0 <= start <= i <= n,
            out@ == seq!['"'] + escape_toml(value@.subrange(0, start as int)),
            forall|j: int| start <= j < i ==> #[trigger] value@[j] != '\\' && value@[j] != '"',
        decreases n - i,
    {
        let c = value.get_char(i);
        if c == '\\' || c == '"' {
            let plain = value.substring_char(start, i);
            out.append(plain);
            if c == '\\' {
                out.append("\\\\");
            } else {
                out.append("\\\"");
            }
            proof {
                reveal_strlit("\\\\");
                reveal_strlit("\\\"");
                lemma_escape_extend(value@, start as int, i as int);
                lemma_escape_step(value@, i as int);
                assert(out@ =~= seq!['"'] + escape_toml(value@.subrange(0, i + 1)));
            }
            start = i + 1;
        }
        i = i + 1;
    }
    let rest = value.substring_char(start, n);
    out.append(rest);
    out.append("\"");
    proof {
        reveal_strlit("\"");
        lemma_escape_extend(value@, start as int, n as int);
        assert(value@.subrange(0, n as int) =~= value@);
        assert(!is_bare_value(value@));
        assert(out@ =~= seq!['"'] + escape_toml(value@) + seq!['"']);
    }
    out
}

} // verus!
