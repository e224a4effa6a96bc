//! Character-level string helpers and exact decimal rendering and parsing.
use vstd::prelude::*;

verus! {

broadcast use vstd::string::group_string_axioms;

/// Appends one character to a string (std `String::push`).
#[verifier::external_body]
pub(crate) fn push_char(s: &mut String, c: char)
    ensures
        final(s)@ == old(s)@.push(c),
{
    s.push(c);
}

/// The UTF-8 length of a string, in bytes.
pub open spec fn byte_len(s: Seq<char>) -> nat {
    vstd::utf8::encode_utf8(s).len()
}

/// The UTF-8 length of a string slice, in bytes (`str::len`).
pub fn byte_len_of(s: &str) -> (n: usize)
    ensures
        n == byte_len(s@),
{
    s.as_bytes().len()
}

/// The characters of a string slice, in order.
pub fn chars_of(s: &str) -> (v: Vec<char>)
    ensures
        v@ == s@,
{
    let n = s.unicode_len();
    let mut v: Vec<char> = Vec::new();
    let mut i: usize = 0;
    while i < n
        invariant
            n == s@.len(),
            i <= n,
            v@ == s@.take(i as int),
        decreases n - i,
    {
        let c = s.get_char(i);
        v.push(c);
        i = i + 1;
        assert(v@ =~= s@.take(i as int));
    }
    assert(v@ =~= s@);
    v
}

/// A string holding exactly the given characters.
pub fn string_of(v: &[char]) -> (s: String)
    ensures
        s@ == v@,
{
    let mut s = String::new();
    let mut i: usize = 0;
    while i < v.len()
        invariant
            i <= v@.len(),
            s@ == v@.take(i as int),
        decreases v@.len() - i,
    {
        push_char(&mut s, v[i]);
        i = i + 1;
        assert(s@ =~= v@.take(i as int));
    }
    assert(s@ =~= v@);
    s
}

/// Character equality of two string slices.
pub fn str_eq(a: &str, b: &str) -> (r: bool)
    ensures
        r == (a@ == b@),
{
    let x = chars_of(a);
    let y = chars_of(b);
    chars_eq(&x, &y)
}

/// Equality of two character sequences.
pub fn chars_eq(x: &[char], y: &[char]) -> (r: bool)
    ensures
        r == (x@ == y@),
{
    if x.len() != y.len() {
        return false;
    }
    let mut i: usize = 0;
    while i < x.len()
        invariant
            x@.len() == y@.len(),
            i <= x@.len(),
            forall|j: int| 0 <= j < i ==> x@[j] == y@[j],
        decreases x@.len() - i,
    {
        if x[i] != y[i] {
            return false;
        }
        i = i + 1;
    }
    assert(x@ =~= y@);
    true
}

// ---------------------------------------------------------------------------
// Decimal numerals
// ---------------------------------------------------------------------------

pub open spec fn is_digit(c: char) -> bool {
    '0' <= c && c <= '9'
}

pub open spec fn digit_value(c: char) -> nat {
    (c as int - '0' as int) as nat
}

pub open spec fn digit_char(d: nat) -> char {
    ('0' as int + d) as char
}

pub open spec fn all_digits(s: Seq<char>) -> bool {
    forall|i: int| 0 <= i < s.len() ==> is_digit(#[trigger] s[i])
}

/// The value of a run of decimal digits.
pub open spec fn digits_value(s: Seq<char>) -> nat
    decreases s.len(),
{
    if s.len() == 0 {
        0
    } else {
        digits_value(s.drop_last()) * 10 + digit_value(s.last())
    }
}

/// The shortest decimal numeral of a natural number.
pub open spec fn decimal(n: nat) -> Seq<char>
    decreases n,
{
    if n < 10 {
        seq![digit_char(n)]
    } else {
        decimal(n / 10).push(digit_char(n % 10))
    }
}

/// What `usize::from_str` accepts: an optional `+`, then one or more digits,
/// whose value fits a `usize`.
pub open spec fn parse_usize(s: Seq<char>) -> Option<nat> {
    let body = if s.len() > 0 && s[0] == '+' { s.skip(1) } else { s };
    if body.len() == 0 || !all_digits(body) {
        None
    } else if digits_value(body) > usize::MAX {
        None
    } else {
        Some(digits_value(body))
    }
}

/// What `i64::from_str` accepts: an optional sign, then one or more digits,
/// whose signed value fits an `i64`.
pub open spec fn parse_i64(s: Seq<char>) -> Option<int> {
    let negative = s.len() > 0 && s[0] == '-';
    let body = if s.len() > 0 && (s[0] == '+' || s[0] == '-') { s.skip(1) } else { s };
    if body.len() == 0 || !all_digits(body) {
        None
    } else {
        let v: int = if negative { -(digits_value(body) as int) } else { digits_value(body) as int };
        if i64::MIN <= v && v <= i64::MAX {
            Some(v)
        } else {
            None
        }
    }
}

/// Decimal rendering of a signed number.
pub open spec fn signed_decimal(v: int) -> Seq<char> {
    if v < 0 {
        seq!['-'] + decimal((-v) as nat)
    } else {
        decimal(v as nat)
    }
}

pub proof fn lemma_digits_value_push(s: Seq<char>, c: char)
    ensures
        digits_value(s.push(c)) == digits_value(s) * 10 + digit_value(c),
{
    assert(s.push(c).drop_last() =~= s);
}

pub proof fn lemma_digits_value_prefix_monotone(s: Seq<char>, i: int, j: int)
    requires
        0 <= i <= j <= s.len(),
    ensures
        digits_value(s.take(i)) <= digits_value(s.take(j)),
    decreases j - i,
{
    if i < j {
        lemma_digits_value_prefix_monotone(s, i, j - 1);
        assert(s.take(j).drop_last() =~= s.take(j - 1));
        assert(digits_value(s.take(j)) == digits_value(s.take(j - 1)) * 10 + digit_value(
            s.take(j).last(),
        ));
    }
}

pub proof fn lemma_decimal_shape(n: nat)
    ensures
        decimal(n).len() >= 1,
        all_digits(decimal(n)),
        digits_value(decimal(n)) == n,
        decimal(n)[0] != '+',
        decimal(n)[0] != '-',
        decimal(n)[0] != ':',
        forall|i: int| 0 <= i < decimal(n).len() ==> decimal(n)[i] != ':' && decimal(n)[i] != ','
            && decimal(n)[i] != '&' && decimal(n)[i] != '/' && decimal(n)[i] != '?',
    decreases n,
{
    if n < 10 {
        assert(digit_value(digit_char(n)) == n);
        assert(decimal(n).drop_last() =~= Seq::<char>::empty());
        assert(digits_value(decimal(n)) == digits_value(Seq::<char>::empty()) * 10 + digit_value(digit_char(n)));
    } else {
        lemma_decimal_shape(n / 10);
        let p = decimal(n / 10);
        let d = digit_char(n % 10);
        lemma_digits_value_push(p, d);
        assert(digit_value(d) == n % 10);
        assert(decimal(n) == p.push(d));
        assert((n / 10) * 10 + n % 10 == n) by (nonlinear_arith);
        assert forall|i: int| 0 <= i < decimal(n).len() implies is_digit(#[trigger] decimal(n)[i]) by {
            if i < p.len() {
                assert(decimal(n)[i] == p[i]);
            }
        }
    }
}

/// Decimal numerals round-trip through `usize` parsing.
pub proof fn lemma_parse_usize_decimal(n: usize)
    ensures
        parse_usize(decimal(n as nat)) == Some(n as nat),
{
    lemma_decimal_shape(n as nat);
}

/// Signed decimal numerals round-trip through `i64` parsing.
pub proof fn lemma_parse_i64_signed_decimal(v: i64)
    ensures
        parse_i64(signed_decimal(v as int)) == Some(v as int),
{
    if v < 0 {
        let m = (-(v as int)) as nat;
        lemma_decimal_shape(m);
        let s = signed_decimal(v as int);
        assert(s.skip(1) =~= decimal(m));
    } else {
        lemma_decimal_shape(v as nat);
    }
}


/// Parses a decimal `usize` as `usize::from_str` does.
pub fn parse_usize_chars(s: &[char]) -> (r: Option<usize>)
    ensures
        match r {
            Some(v) => parse_usize(s@) == Some(v as nat),
            None => parse_usize(s@).is_none(),
        },
{
    let start: usize = if s.len() > 0 && s[0] == '+' { 1 } else { 0 };
    let ghost body = if s@.len() > 0 && s@[0] == '+' { s@.skip(1) } else { s@ };
    assert(body =~= s@.skip(start as int));
    if start >= s.len() {
        return None;
    }
    let mut acc: usize = 0;
    let mut i: usize = start;
    while i < s.len()
        invariant
            start <= i <= s@.len(),
            body =~= s@.skip(start as int),
            body == (if s@.len() > 0 && s@[0] == '+' { s@.skip(1) } else { s@ }),
            forall|j: int| 0 <= j < i - start ==> is_digit(#[trigger] body[j]),
            acc as nat == digits_value(body.take(i - start)),
        decreases s@.len() - i,
    {
        let c = s[i];
        if !('0' <= c && c <= '9') {
            assert(!is_digit(body[i - start]));
            assert(!all_digits(body));
            return None;
        }
        let d: usize = (c as u32 - '0' as u32) as usize;
        assert(body.take(i - start + 1) =~= body.take(i - start).push(c));
        proof {
            lemma_digits_value_push(body.take(i - start), c);
        }
        if acc > (usize::MAX - d) / 10 {
            proof {
                assert(acc * 10 + d > usize::MAX) by (nonlinear_arith)
                    requires acc > (usize::MAX - d) / 10, d <= 9;
                assert(digits_value(body.take(i - start + 1)) == acc * 10 + d);
                lemma_digits_value_prefix_monotone(body, i - start + 1, body.len() as int);
                assert(body.take(body.len() as int) =~= body);
                assert(digits_value(body) > usize::MAX);
            }
            return None;
        }
        proof {
            assert(acc * 10 + d <= usize::MAX) by (nonlinear_arith)
                requires acc <= (usize::MAX - d) / 10, d <= 9;
        }
        acc = acc * 10 + d;
        i = i + 1;
    }
    assert(body.take(body.len() as int) =~= body);
    Some(acc)
}

/// Parses a decimal `i64` as `i64::from_str` does.
pub fn parse_i64_chars(s: &[char]) -> (r: Option<i64>)
    ensures
        match r {
            Some(v) => parse_i64(s@) == Some(v as int),
            None => parse_i64(s@).is_none(),
        },
{
    let negative = s.len() > 0 && s[0] == '-';
    let start: usize = if s.len() > 0 && (s[0] == '+' || s[0] == '-') { 1 } else { 0 };
    let ghost body = if s@.len() > 0 && (s@[0] == '+' || s@[0] == '-') { s@.skip(1) } else { s@ };
    assert(body =~= s@.skip(start as int));
    if start >= s.len() {
        return None;
    }
    // magnitude limit: i64::MAX, or i64::MAX + 1 when negative
    let limit: u64 = if negative { 9223372036854775808u64 } else { 9223372036854775807u64 };
    let mut acc: u64 = 0;
    let mut i: usize = start;
    while i < s.len()
        invariant
            start <= i <= s@.len(),
            body =~= s@.skip(start as int),
            body == (if s@.len() > 0 && (s@[0] == '+' || s@[0] == '-') { s@.skip(1) } else { s@ }),
            negative == (s@.len() > 0 && s@[0] == '-'),
            limit == (if negative { 9223372036854775808u64 } else { 9223372036854775807u64 }),
            forall|j: int| 0 <= j < i - start ==> is_digit(#[trigger] body[j]),
            acc as nat == digits_value(body.take(i - start)),
            acc <= limit,
        decreases s@.len() - i,
    {
        let c = s[i];
        if !('0' <= c && c <= '9') {
            assert(!is_digit(body[i - start]));
            assert(!all_digits(body));
            return None;
        }
        let d: u64 = (c as u32 - '0' as u32) as u64;
        assert(body.take(i - start + 1) =~= body.take(i - start).push(c));
        proof {
            lemma_digits_value_push(body.take(i - start), c);
        }
        if acc > (limit - d) / 10 {
            proof {
                assert(acc * 10 + d > limit) by (nonlinear_arith)
                    requires acc > (limit - d) / 10, d <= 9;
                assert(digits_value(body.take(i - start + 1)) == acc * 10 + d);
                lemma_digits_value_prefix_monotone(body, i - start + 1, body.len() as int);
                assert(body.take(body.len() as int) =~= body);
                assert(digits_value(body) > limit);
            }
            return None;
        }
        proof {
            assert(acc * 10 + d <= limit) by (nonlinear_arith)
                requires acc <= (limit - d) / 10, d <= 9;
        }
        acc = acc * 10 + d;
        i = i + 1;
    }
    assert(body.take(body.len() as int) =~= body);
    if negative {
        if acc == 9223372036854775808u64 {
            Some(i64::MIN)
        } else {
            Some(-(acc as i64))
        }
    } else {
        Some(acc as i64)
    }
}

/// Renders a signed number as a decimal numeral.
pub fn render_i64(v: i64) -> (s: String)
    ensures
        s@ == signed_decimal(v as int),
{
    if v < 0 {
        let m: u64 = if v == i64::MIN { 9223372036854775808u64 } else { (-v) as u64 };
        let mut out = String::new();
        push_char(&mut out, '-');
        render_rec(m, &mut out);
        assert(out@ =~= seq!['-'] + decimal(m as nat));
        out
    } else {
        render_u64(v as u64)
    }
}

/// Renders a natural number as its shortest decimal numeral.
pub fn render_u64(n: u64) -> (s: String)
    ensures
        s@ == decimal(n as nat),
{
    let mut result = String::new();
    render_rec(n, &mut result);
    result
}

fn render_rec(n: u64, out: &mut String)
    ensures
        final(out)@ == old(out)@ + decimal(n as nat),
    decreases n,
{
    if n < 10 {
        let c = digit_char_exec(n);
        push_char(out, c);
    } else {
        render_rec(n / 10, out);
        let c = digit_char_exec(n % 10);
        push_char(out, c);
        assert(decimal(n as nat) == decimal((n / 10) as nat).push(digit_char((n % 10) as nat)));
    }
}

fn digit_char_exec(d: u64) -> (c: char)
    requires
        d < 10,
    ensures
        c == digit_char(d as nat),
{
    let b: u8 = d as u8;
    let c = (b + 48u8) as char;
    c
}

} // verus!

verus! {

// ---------------------------------------------------------------------------
// Splitting at a separator character
// ---------------------------------------------------------------------------

/// Index of the last occurrence of `c` in `s`.
pub open spec fn last_index_of(s: Seq<char>, c: char) -> Option<int>
    decreases s.len(),
{
    if s.len() == 0 {
        None
    } else if s.last() == c {
        Some(s.len() - 1)
    } else {
        last_index_of(s.drop_last(), c)
    }
}

/// Index of the first occurrence of `c` in `s`.
pub open spec fn first_index_of(s: Seq<char>, c: char) -> Option<int>
    decreases s.len(),
{
    if s.len() == 0 {
        None
    } else if s[0] == c {
        Some(0)
    } else {
        match first_index_of(s.drop_first(), c) {
            Some(i) => Some(i + 1),
            None => None,
        }
    }
}

/// `str::rsplit_once`: the parts before and after the last separator.
pub open spec fn rsplit_once(s: Seq<char>, c: char) -> Option<(Seq<char>, Seq<char>)> {
    match last_index_of(s, c) {
        Some(i) => Some((s.take(i), s.skip(i + 1))),
        None => None,
    }
}

/// `str::split_once`: the parts before and after the first separator.
pub open spec fn split_once(s: Seq<char>, c: char) -> Option<(Seq<char>, Seq<char>)> {
    match first_index_of(s, c) {
        Some(i) => Some((s.take(i), s.skip(i + 1))),
        None => None,
    }
}

pub open spec fn lacks(s: Seq<char>, c: char) -> bool {
    forall|i: int| 0 <= i < s.len() ==> s[i] != c
}

pub proof fn lemma_last_index_of_bounds(s: Seq<char>, c: char)
    ensures
        match last_index_of(s, c) {
            Some(i) => 0 <= i < s.len() && s[i] == c && lacks(s.skip(i + 1), c),
            None => lacks(s, c),
        },
    decreases s.len(),
{
    if s.len() > 0 && s.last() != c {
        lemma_last_index_of_bounds(s.drop_last(), c);
        match last_index_of(s.drop_last(), c) {
            Some(i) => {
                assert forall|k: int| 0 <= k < s.skip(i + 1).len() implies #[trigger] s.skip(i + 1)[k] != c by {
                    if k < s.drop_last().skip(i + 1).len() {
                        assert(s.skip(i + 1)[k] == s.drop_last().skip(i + 1)[k]);
                    }
                }
            },
            None => {
                assert forall|k: int| 0 <= k < s.len() implies s[k] != c by {
                    if k < s.len() - 1 {
                        assert(s[k] == s.drop_last()[k]);
                    }
                }
            },
        }
    } else if s.len() > 0 {
        assert(s.skip(s.len() as int) =~= Seq::<char>::empty());
    }
}

pub proof fn lemma_first_index_of_bounds(s: Seq<char>, c: char)
    ensures
        match first_index_of(s, c) {
            Some(i) => 0 <= i < s.len() && s[i] == c && lacks(s.take(i), c),
            None => lacks(s, c),
        },
    decreases s.len(),
{
    if s.len() > 0 && s[0] != c {
        lemma_first_index_of_bounds(s.drop_first(), c);
        match first_index_of(s.drop_first(), c) {
            Some(i) => {
                assert forall|k: int| 0 <= k < i + 1 implies #[trigger] s.take(i + 1)[k] != c by {
                    assert(s.take(i + 1)[k] == s[k]);
                    if k > 0 {
                        assert(s[k] == s.drop_first()[k - 1]);
                        assert(s.drop_first().take(i)[k - 1] == s.drop_first()[k - 1]);
                    }
                }
            },
            None => {
                assert forall|k: int| 0 <= k < s.len() implies s[k] != c by {
                    if k > 0 {
                        assert(s[k] == s.drop_first()[k - 1]);
                    }
                }
            },
        }
    }
}

/// The last separator of `p + [c] + t` is the one after `p` when `t` lacks `c`.
pub proof fn lemma_rsplit_once_join(p: Seq<char>, c: char, t: Seq<char>)
    requires
        lacks(t, c),
    ensures
        rsplit_once(p + seq![c] + t, c) == Some((p, t)),
    decreases t.len(),
{
    let s = p + seq![c] + t;
    lemma_last_index_at(p, c, t);
    assert(s.take(p.len() as int) =~= p);
    assert(s.skip(p.len() as int + 1) =~= t);
}

proof fn lemma_last_index_at(p: Seq<char>, c: char, t: Seq<char>)
    requires
        lacks(t, c),
    ensures
        last_index_of(p + seq![c] + t, c) == Some(p.len() as int),
    decreases t.len(),
{
    let s = p + seq![c] + t;
    if t.len() == 0 {
        assert(s.last() == c);
    } else {
        assert(s.last() == t.last());
        assert(s.drop_last() =~= p + seq![c] + t.drop_last());
        lemma_last_index_at(p, c, t.drop_last());
    }
}

/// The first separator of `p + [c] + t` is the one after `p` when `p` lacks `c`.
pub proof fn lemma_split_once_join(p: Seq<char>, c: char, t: Seq<char>)
    requires
        lacks(p, c),
    ensures
        split_once(p + seq![c] + t, c) == Some((p, t)),
    decreases p.len(),
{
    let s = p + seq![c] + t;
    lemma_first_index_at(p, c, t);
    assert(s.take(p.len() as int) =~= p);
    assert(s.skip(p.len() as int + 1) =~= t);
}

pub(crate) proof fn lemma_first_index_at(p: Seq<char>, c: char, t: Seq<char>)
    requires
        lacks(p, c),
    ensures
        first_index_of(p + seq![c] + t, c) == Some(p.len() as int),
    decreases p.len(),
{
    let s = p + seq![c] + t;
    if p.len() == 0 {
        assert(s[0] == c);
    } else {
        assert(s[0] == p[0]);
        assert(s.drop_first() =~= p.drop_first() + seq![c] + t);
        lemma_first_index_at(p.drop_first(), c, t);
    }
}

proof fn lemma_first_index_prefix(x: Seq<char>, c: char, t: Seq<char>)
    requires
        first_index_of(x, c) is Some,
    ensures
        first_index_of(x + t, c) == first_index_of(x, c),
    decreases x.len(),
{
    if x[0] != c {
        assert((x + t).drop_first() =~= x.drop_first() + t);
        lemma_first_index_prefix(x.drop_first(), c, t);
    }
}

/// Splitting `x`, a separator and a piece without separators gives the
/// pieces of `x` and then that piece.
pub proof fn lemma_split_all_append(x: Seq<char>, e: Seq<char>, sep: char)
    requires
        lacks(e, sep),
    ensures
        split_all(x + seq![sep] + e, sep) == split_all(x, sep).push(e),
    decreases x.len(),
{
    let s = x + seq![sep] + e;
    lemma_first_index_of_bounds(x, sep);
    lemma_first_index_of_bounds(e, sep);
    match first_index_of(x, sep) {
        Some(i) => {
            lemma_first_index_prefix(x, sep, seq![sep] + e);
            assert(s =~= x + (seq![sep] + e));
            assert(s.take(i) =~= x.take(i));
            assert(s.skip(i + 1) =~= x.skip(i + 1) + seq![sep] + e);
            lemma_split_all_append(x.skip(i + 1), e, sep);
            assert(split_all(s, sep) =~= split_all(x, sep).push(e));
        },
        None => {
            lemma_first_index_at(x, sep, e);
            assert(s.take(x.len() as int) =~= x);
            assert(s.skip(x.len() as int + 1) =~= e);
            if first_index_of(e, sep) is Some {
                let j = first_index_of(e, sep)->Some_0;
                assert(e[j] == sep);
            }
            assert(split_all(e, sep) == seq![e]);
            assert(split_all(s, sep) =~= split_all(x, sep).push(e));
        },
    }
}

/// Finds the last occurrence of `c`.
pub fn last_index_exec(v: &[char], c: char) -> (r: Option<usize>)
    ensures
        match r {
            Some(i) => last_index_of(v@, c) == Some(i as int) && i < v@.len() && v@[i as int] == c,
            None => last_index_of(v@, c).is_none(),
        },
{
    proof {
        lemma_last_index_of_bounds(v@, c);
    }
    let mut i: usize = v.len();
    assert(v@.take(i as int) =~= v@);
    while i > 0
        invariant
            i <= v@.len(),
            last_index_of(v@, c) == last_index_of(v@.take(i as int), c),
        decreases i,
    {
        assert(v@.take(i as int).last() == v@[i - 1]);
        if v[i - 1] == c {
            return Some(i - 1);
        }
        assert(v@.take(i as int).drop_last() =~= v@.take(i - 1));
        i = i - 1;
    }
    None
}

/// Finds the first occurrence of `c`.
pub fn first_index_exec(v: &[char], c: char) -> (r: Option<usize>)
    ensures
        match r {
            Some(i) => first_index_of(v@, c) == Some(i as int) && i < v@.len() && v@[i as int] == c,
            None => first_index_of(v@, c).is_none(),
        },
{
    let mut i: usize = 0;
    while i < v.len()
        invariant
            i <= v@.len(),
            forall|k: int| 0 <= k < i ==> v@[k] != c,
        decreases v@.len() - i,
    {
        if v[i] == c {
            proof {
                lemma_first_index_of_bounds(v@, c);
                lemma_first_index_agrees(v@, c, i as int);
            }
            return Some(i);
        }
        i = i + 1;
    }
    proof {
        lemma_first_index_none(v@, c);
    }
    None
}

proof fn lemma_first_index_agrees(s: Seq<char>, c: char, i: int)
    requires
        0 <= i < s.len(),
        s[i] == c,
        forall|k: int| 0 <= k < i ==> s[k] != c,
    ensures
        first_index_of(s, c) == Some(i),
    decreases i,
{
    if i > 0 {
        lemma_first_index_agrees(s.drop_first(), c, i - 1);
    }
}

proof fn lemma_first_index_none(s: Seq<char>, c: char)
    requires
        forall|k: int| 0 <= k < s.len() ==> s[k] != c,
    ensures
        first_index_of(s, c).is_none(),
    decreases s.len(),
{
    if s.len() > 0 {
        lemma_first_index_none(s.drop_first(), c);
    }
}

/// The characters `v[from..to]` as a string.
pub fn string_of_range(v: &[char], from: usize, to: usize) -> (s: String)
    requires
        from <= to <= v@.len(),
    ensures
        s@ == v@.subrange(from as int, to as int),
{
    let mut s = String::new();
    let mut i: usize = from;
    while i < to
        invariant
            from <= i <= to <= v@.len(),
            s@ == v@.subrange(from as int, i as int),
        decreases to - i,
    {
        push_char(&mut s, v[i]);
        i = i + 1;
        assert(s@ =~= v@.subrange(from as int, i as int));
    }
    s
}

/// The characters `v[from..to]` as a vector.
pub fn chars_range(v: &[char], from: usize, to: usize) -> (r: Vec<char>)
    requires
        from <= to <= v@.len(),
    ensures
        r@ == v@.subrange(from as int, to as int),
{
    let mut r: Vec<char> = Vec::new();
    let mut i: usize = from;
    while i < to
        invariant
            from <= i <= to <= v@.len(),
            r@ == v@.subrange(from as int, i as int),
        decreases to - i,
    {
        r.push(v[i]);
        i = i + 1;
        assert(r@ =~= v@.subrange(from as int, i as int));
    }
    r
}

} // verus!

verus! {

// ---------------------------------------------------------------------------
// Joining, splitting and ordering lists of strings
// ---------------------------------------------------------------------------

/// Items joined by a separator character.
pub open spec fn join(items: Seq<Seq<char>>, sep: char) -> Seq<char>
    decreases items.len(),
{
    if items.len() == 0 {
        Seq::<char>::empty()
    } else if items.len() == 1 {
        items[0]
    } else {
        join(items.drop_last(), sep) + seq![sep] + items.last()
    }
}

/// `str::split`: every piece between separators, in order.
pub open spec fn split_all(s: Seq<char>, sep: char) -> Seq<Seq<char>>
    decreases s.len(),
{
    match first_index_of(s, sep) {
        None => seq![s],
        Some(i) => {
            if 0 <= i < s.len() {
                seq![s.take(i)] + split_all(s.skip(i + 1), sep)
            } else {
                seq![s]
            }
        },
    }
}

/// `s` begins with `p`.
pub open spec fn has_prefix(s: Seq<char>, p: Seq<char>) -> bool {
    p.len() <= s.len() && s.take(p.len() as int) == p
}

/// Strict lexicographic order of character sequences (the order of `String`).
pub open spec fn seq_lt(a: Seq<char>, b: Seq<char>) -> bool
    decreases a.len(),
{
    if a.len() == 0 {
        b.len() > 0
    } else if b.len() == 0 {
        false
    } else if a[0] != b[0] {
        a[0] < b[0]
    } else {
        seq_lt(a.drop_first(), b.drop_first())
    }
}

/// `seq_lt` is irreflexive.
pub proof fn lemma_seq_lt_irreflexive(a: Seq<char>)
    ensures
        !seq_lt(a, a),
    decreases a.len(),
{
    if a.len() > 0 {
        lemma_seq_lt_irreflexive(a.drop_first());
    }
}

/// `seq_lt` is transitive.
pub proof fn lemma_seq_lt_transitive(a: Seq<char>, b: Seq<char>, c: Seq<char>)
    requires
        seq_lt(a, b),
        seq_lt(b, c),
    ensures
        seq_lt(a, c),
    decreases a.len(),
{
    if a.len() > 0 && b.len() > 0 && c.len() > 0 && a[0] == b[0] && b[0] == c[0] {
        lemma_seq_lt_transitive(a.drop_first(), b.drop_first(), c.drop_first());
    }
}

/// Distinct sequences are ordered one way or the other.
pub proof fn lemma_seq_lt_total(a: Seq<char>, b: Seq<char>)
    requires
        a != b,
    ensures
        seq_lt(a, b) || seq_lt(b, a),
    decreases a.len(),
{
    if a.len() > 0 && b.len() > 0 && a[0] == b[0] {
        if a.drop_first() == b.drop_first() {
            assert(a =~= seq![a[0]] + a.drop_first());
            assert(b =~= seq![b[0]] + b.drop_first());
        }
        lemma_seq_lt_total(a.drop_first(), b.drop_first());
    } else if a.len() == 0 && b.len() == 0 {
        assert(a =~= b);
    }
}

/// At most one of `seq_lt(a, b)` and `seq_lt(b, a)` holds.
pub proof fn lemma_seq_lt_asymmetric(a: Seq<char>, b: Seq<char>)
    ensures
        !(seq_lt(a, b) && seq_lt(b, a)),
{
    if seq_lt(a, b) && seq_lt(b, a) {
        lemma_seq_lt_transitive(a, b, a);
        lemma_seq_lt_irreflexive(a);
    }
}

/// Inserts `x` before the first element that is greater than it.
pub open spec fn insert_sorted(x: Seq<char>, s: Seq<Seq<char>>) -> Seq<Seq<char>>
    decreases s.len(),
{
    if s.len() == 0 {
        seq![x]
    } else if seq_lt(x, s[0]) {
        seq![x] + s
    } else {
        seq![s[0]] + insert_sorted(x, s.drop_first())
    }
}

/// Stable insertion sort in `String` order.
pub open spec fn sort_strings(s: Seq<Seq<char>>) -> Seq<Seq<char>>
    decreases s.len(),
{
    if s.len() == 0 {
        Seq::<Seq<char>>::empty()
    } else {
        insert_sorted(s.last(), sort_strings(s.drop_last()))
    }
}

pub open spec fn sorted(s: Seq<Seq<char>>) -> bool {
    forall|i: int, j: int| 0 <= i < j < s.len() ==> !seq_lt(s[j], s[i])
}

pub proof fn lemma_split_all_join(items: Seq<Seq<char>>, sep: char)
    requires
        items.len() >= 1,
        forall|i: int| 0 <= i < items.len() ==> lacks(#[trigger] items[i], sep),
    ensures
        split_all(join(items, sep), sep) == items,
    decreases items.len(),
{
    if items.len() == 1 {
        lemma_first_index_of_bounds(items[0], sep);
        assert(join(items, sep) == items[0]);
        assert(seq![items[0]] =~= items);
    } else {
        // join(items) = items[0] + sep + join(rest)
        let rest = items.drop_first();
        lemma_join_front(items, sep);
        lemma_split_all_join(rest, sep);
        lemma_first_index_at(items[0], sep, join(rest, sep));
        let s = join(items, sep);
        assert(s.take(items[0].len() as int) =~= items[0]);
        assert(s.skip(items[0].len() as int + 1) =~= join(rest, sep));
        assert(seq![items[0]] + rest =~= items);
    }
}

/// Joining peels off the first item.
pub proof fn lemma_join_front(items: Seq<Seq<char>>, sep: char)
    requires
        items.len() >= 2,
    ensures
        join(items, sep) == items[0] + seq![sep] + join(items.drop_first(), sep),
    decreases items.len(),
{
    if items.len() == 2 {
        assert(items.drop_last() =~= seq![items[0]]);
        assert(items.drop_first() =~= seq![items[1]]);
        assert(join(items.drop_last(), sep) == items[0]);
        assert(join(items.drop_first(), sep) == items[1]);
        assert(items.last() == items[1]);
    } else {
        let dl = items.drop_last();
        let df = items.drop_first();
        lemma_join_front(dl, sep);
        assert(dl.drop_first() =~= df.drop_last());
        assert(df.last() == items.last());
        assert(dl[0] == items[0]);
        assert(join(items, sep) == join(dl, sep) + seq![sep] + items.last());
        assert(join(df, sep) == join(df.drop_last(), sep) + seq![sep] + df.last());
        assert(join(items, sep) =~= items[0] + seq![sep] + join(df, sep));
    }
}

pub proof fn lemma_join_lacks(items: Seq<Seq<char>>, sep: char, c: char)
    requires
        c != sep,
        forall|i: int| 0 <= i < items.len() ==> lacks(#[trigger] items[i], c),
    ensures
        lacks(join(items, sep), c),
    decreases items.len(),
{
    if items.len() > 1 {
        lemma_join_lacks(items.drop_last(), sep, c);
        let a = join(items.drop_last(), sep);
        let t = a + seq![sep] + items.last();
        assert forall|k: int| 0 <= k < t.len() implies t[k] != c by {
            if k < a.len() {
                assert(t[k] == a[k]);
            } else if k > a.len() {
                assert(t[k] == items.last()[k - a.len() - 1]);
            }
        }
    }
}

/// Lexicographic comparison.
pub fn chars_lt(a: &[char], b: &[char]) -> (r: bool)
    ensures
        r == seq_lt(a@, b@),
{
    let mut i: usize = 0;
    assert(a@.skip(0) =~= a@);
    assert(b@.skip(0) =~= b@);
    while i < a.len() && i < b.len()
        invariant
            i <= a@.len(),
            i <= b@.len(),
            seq_lt(a@, b@) == seq_lt(a@.skip(i as int), b@.skip(i as int)),
        decreases a@.len() - i,
    {
        if a[i] != b[i] {
            assert(a@.skip(i as int)[0] == a@[i as int]);
            assert(b@.skip(i as int)[0] == b@[i as int]);
            return a[i] < b[i];
        }
        assert(a@.skip(i as int).drop_first() =~= a@.skip(i + 1));
        assert(b@.skip(i as int).drop_first() =~= b@.skip(i + 1));
        i = i + 1;
    }
    i < b.len()
}

} // verus!

verus! {

pub open spec fn string_views(v: Seq<String>) -> Seq<Seq<char>> {
    v.map_values(|s: String| s@)
}

proof fn lemma_insert_sorted_at(x: Seq<char>, s: Seq<Seq<char>>, k: int)
    requires
        0 <= k <= s.len(),
        forall|j: int| 0 <= j < k ==> !seq_lt(x, #[trigger] s[j]),
        k < s.len() ==> seq_lt(x, s[k]),
    ensures
        insert_sorted(x, s) == s.take(k) + seq![x] + s.skip(k),
    decreases s.len(),
{
    if s.len() == 0 {
        assert(s.take(k) + seq![x] + s.skip(k) =~= seq![x]);
    } else if k == 0 {
        assert(s.take(0) + seq![x] + s.skip(0) =~= seq![x] + s);
    } else {
        assert(!seq_lt(x, s[0]));
        let t = s.drop_first();
        assert forall|j: int| 0 <= j < k - 1 implies !seq_lt(x, #[trigger] t[j]) by {
            assert(t[j] == s[j + 1]);
        }
        lemma_insert_sorted_at(x, t, k - 1);
        assert(seq![s[0]] + (t.take(k - 1) + seq![x] + t.skip(k - 1)) =~= s.take(k) + seq![x]
            + s.skip(k));
    }
}

/// Sorts strings in `String` order, keeping equal strings in their input order.
pub fn sort_strings_exec(ids: &Vec<String>) -> (r: Vec<String>)
    ensures
        string_views(r@) == sort_strings(string_views(ids@)),
{
    let mut r: Vec<String> = Vec::new();
    let mut i: usize = 0;
    assert(string_views(ids@).take(0) =~= Seq::<Seq<char>>::empty());
    assert(string_views(r@) =~= Seq::<Seq<char>>::empty());
    while i < ids.len()
        invariant
            i <= ids@.len(),
            string_views(r@) == sort_strings(string_views(ids@).take(i as int)),
        decreases ids@.len() - i,
    {
        let x = chars_of(ids[i].as_str());
        let mut k: usize = 0;
        while k < r.len()
            invariant
                k <= r@.len(),
                forall|j: int| 0 <= j < k ==> !seq_lt(x@, #[trigger] string_views(r@)[j]),
            ensures
                k <= r@.len(),
                forall|j: int| 0 <= j < k ==> !seq_lt(x@, #[trigger] string_views(r@)[j]),
                k < r@.len() ==> seq_lt(x@, string_views(r@)[k as int]),
            decreases r@.len() - k,
        {
            let y = chars_of(r[k].as_str());
            if chars_lt(&x, &y) {
                break;
            }
            k = k + 1;
        }
        let ghost before = string_views(r@);
        proof {
            lemma_insert_sorted_at(x@, before, k as int);
        }
        r.insert(k, ids[i].clone());
        assert(string_views(r@) =~= before.take(k as int) + seq![x@] + before.skip(k as int));
        let ghost pre = string_views(ids@).take(i as int);
        assert(string_views(ids@).take(i + 1).drop_last() =~= pre);
        assert(string_views(ids@).take(i + 1).last() == x@);
        i = i + 1;
    }
    assert(string_views(ids@).take(ids@.len() as int) =~= string_views(ids@));
    r
}

/// Joins strings with a separator character.
pub fn join_exec(items: &Vec<String>, sep: char) -> (r: String)
    ensures
        r@ == join(string_views(items@), sep),
{
    let mut r = String::new();
    let mut i: usize = 0;
    while i < items.len()
        invariant
            i <= items@.len(),
            r@ == join(string_views(items@).take(i as int), sep),
        decreases items@.len() - i,
    {
        let ghost pre = string_views(items@).take(i as int);
        assert(string_views(items@).take(i + 1).drop_last() =~= pre);
        if i > 0 {
            push_char(&mut r, sep);
        }
        r.append(items[i].as_str());
        i = i + 1;
        assert(string_views(items@).take(i as int).last() == items@[i - 1]@);
        if i == 1 {
            assert(r@ =~= join(string_views(items@).take(i as int), sep));
        } else {
            assert(r@ =~= join(string_views(items@).take(i as int), sep));
        }
    }
    assert(string_views(items@).take(items@.len() as int) =~= string_views(items@));
    r
}

/// Splits at every separator, as `str::split` does.
pub fn split_all_exec(v: &[char], sep: char) -> (r: Vec<Vec<char>>)
    ensures
        r@.map_values(|p: Vec<char>| p@) == split_all(v@, sep),
{
    let mut out: Vec<Vec<char>> = Vec::new();
    let mut rest: Vec<char> = chars_range(v, 0, v.len());
    assert(rest@ =~= v@);
    assert(out@.map_values(|p: Vec<char>| p@) =~= Seq::<Seq<char>>::empty());
    loop
        invariant
            split_all(v@, sep) == out@.map_values(|p: Vec<char>| p@) + split_all(rest@, sep),
        decreases rest@.len(),
    {
        match first_index_exec(&rest, sep) {
            None => {
                let ghost o = out@.map_values(|p: Vec<char>| p@);
                out.push(rest);
                assert(out@.map_values(|p: Vec<char>| p@) =~= o + seq![rest@]);
                return out;
            },
            Some(i) => {
                let head = chars_range(&rest, 0, i);
                let tail = chars_range(&rest, i + 1, rest.len());
                assert(head@ =~= rest@.take(i as int));
                assert(tail@ =~= rest@.skip(i + 1));
                let ghost o = out@.map_values(|p: Vec<char>| p@);
                assert(split_all(rest@, sep) == seq![head@] + split_all(tail@, sep));
                out.push(head);
                assert(out@.map_values(|p: Vec<char>| p@) =~= o + seq![head@]);
                assert(o + (seq![head@] + split_all(tail@, sep)) =~= (o + seq![head@]) + split_all(tail@, sep));
                rest = tail;
            },
        }
    }
}

/// The rest of `s` after the literal prefix `p`, if `s` starts with it.
pub fn strip_prefix_exec(s: &[char], p: &str) -> (r: Option<Vec<char>>)
    ensures
        match r {
            Some(rest) => has_prefix(s@, p@) && rest@ == s@.skip(p@.len() as int),
            None => !has_prefix(s@, p@),
        },
{
    let pc = chars_of(p);
    if pc.len() > s.len() {
        return None;
    }
    let head = chars_range(s, 0, pc.len());
    assert(head@ =~= s@.take(pc@.len() as int));
    if !chars_eq(&head, &pc) {
        return None;
    }
    let rest = chars_range(s, pc.len(), s.len());
    assert(rest@ =~= s@.skip(pc@.len() as int));
    Some(rest)
}

/// `str::replace` with a non-empty pattern: each occurrence of `from`, met
/// left to right and not overlapping the one before, becomes `to`.
pub open spec fn replace_all(s: Seq<char>, from: Seq<char>, to: Seq<char>) -> Seq<char>
    decreases s.len(),
{
    if s.len() == 0 {
        Seq::empty()
    } else if from.len() > 0 && has_prefix(s, from) {
        to + replace_all(s.skip(from.len() as int), from, to)
    } else {
        seq![s[0]] + replace_all(s.drop_first(), from, to)
    }
}

/// Whether `pat` occurs in `s` at position `i`.
fn occurs_at(s: &Vec<char>, i: usize, pat: &Vec<char>) -> (r: bool)
    requires
        i <= s@.len(),
    ensures
        r == has_prefix(s@.skip(i as int), pat@),
{
    if pat.len() > s.len() - i {
        return false;
    }
    let head = chars_range(s, i, i + pat.len());
    assert(head@ =~= s@.skip(i as int).take(pat@.len() as int));
    chars_eq(&head, pat)
}

/// Replaces each occurrence of a non-empty pattern, left to right.
pub fn replace_all_exec(s: &str, from: &str, to: &str) -> (r: String)
    requires
        from@.len() > 0,
    ensures
        r@ == replace_all(s@, from@, to@),
{
    let chars = chars_of(s);
    let pat = chars_of(from);
    let mut out = String::new();
    let mut i: usize = 0;
    assert(chars@.skip(0) =~= s@);
    assert(out@ + replace_all(s@, from@, to@) =~= replace_all(s@, from@, to@));
    while i < chars.len()
        invariant
            i <= chars@.len(),
            chars@ == s@,
            pat@ == from@,
            from@.len() > 0,
            out@ + replace_all(chars@.skip(i as int), from@, to@) == replace_all(s@, from@, to@),
        decreases chars@.len() - i,
    {
        let ghost rest = chars@.skip(i as int);
        let ghost before = out@;
        if occurs_at(&chars, i, &pat) {
            out.append(to);
            assert(rest.skip(from@.len() as int) =~= chars@.skip(i + pat@.len()));
            i = i + pat.len();
            assert(out@ + replace_all(chars@.skip(i as int), from@, to@) =~= before + replace_all(rest, from@, to@));
        } else {
            assert(rest[0] == chars@[i as int]);
            assert(rest.drop_first() =~= chars@.skip(i + 1));
            push_char(&mut out, chars[i]);
            i = i + 1;
            assert(out@ + replace_all(chars@.skip(i as int), from@, to@) =~= before + replace_all(rest, from@, to@));
        }
    }
    assert(chars@.skip(i as int) =~= Seq::<char>::empty());
    assert(out@ + Seq::<char>::empty() =~= out@);
    out
}

// ---------------------------------------------------------------------------
// Debug rendering
// ---------------------------------------------------------------------------

/// The `Debug` rendering of a string: quoted, with escapes.
pub uninterp spec fn debug_text(s: Seq<char>) -> Seq<char>;

/// Renders a string with std's `Debug` formatting; the contract only names the result.
#[verifier::external_body]
pub(crate) fn debug_quote(s: &str) -> (r: String)
    ensures
        r@ == debug_text(s@),
{
    format!("{s:?}")
}

/// The `Debug` rendering of a list of strings: `[` then the items, separated by `, `, then `]`.
pub open spec fn debug_list(items: Seq<Seq<char>>) -> Seq<char> {
    seq!['['] + debug_items(items) + seq![']']
}

pub open spec fn debug_items(items: Seq<Seq<char>>) -> Seq<char>
    decreases items.len(),
{
    if items.len() == 0 {
        Seq::<char>::empty()
    } else if items.len() == 1 {
        debug_text(items[0])
    } else {
        debug_items(items.drop_last()) + seq![',', ' '] + debug_text(items.last())
    }
}

/// Renders a list of strings as `Debug` does.
pub fn debug_string_list(items: &Vec<String>) -> (r: String)
    ensures
        r@ == debug_list(string_views(items@)),
{
    let mut r = String::new();
    push_char(&mut r, '[');
    let mut i: usize = 0;
    while i < items.len()
        invariant
            i <= items@.len(),
            r@ == seq!['['] + debug_items(string_views(items@).take(i as int)),
        decreases items@.len() - i,
    {
        let ghost pre = string_views(items@).take(i as int);
        assert(string_views(items@).take(i + 1).drop_last() =~= pre);
        assert(string_views(items@).take(i + 1).last() == items@[i as int]@);
        if i > 0 {
            push_char(&mut r, ',');
            push_char(&mut r, ' ');
        }
        let q = debug_quote(items[i].as_str());
        r.append(q.as_str());
        i = i + 1;
        assert(r@ =~= seq!['['] + debug_items(string_views(items@).take(i as int)));
    }
    assert(string_views(items@).take(items@.len() as int) =~= string_views(items@));
    push_char(&mut r, ']');
    r
}

/// The view of an optional string slice.
pub open spec fn opt_view(o: Option<&str>) -> Option<Seq<char>> {
    match o {
        Some(s) => Some(s@),
        None => None,
    }
}

/// The view of an optional string.
pub open spec fn opt_string(o: Option<String>) -> Option<Seq<char>> {
    match o {
        Some(s) => Some(s@),
        None => None,
    }
}

proof fn lemma_insert_sorted_members(x: Seq<char>, s: Seq<Seq<char>>)
    ensures
        insert_sorted(x, s).len() == s.len() + 1,
        forall|i: int| 0 <= i < insert_sorted(x, s).len() ==> #[trigger] insert_sorted(x, s)[i] == x || s.contains(
            insert_sorted(x, s)[i],
        ),
    decreases s.len(),
{
    if s.len() > 0 && !seq_lt(x, s[0]) {
        lemma_insert_sorted_members(x, s.drop_first());
        let r = insert_sorted(x, s);
        assert forall|i: int| 0 <= i < r.len() implies #[trigger] r[i] == x || s.contains(r[i]) by {
            if i == 0 {
                assert(s.contains(s[0]));
            } else {
                let t = insert_sorted(x, s.drop_first());
                assert(r[i] == t[i - 1]);
                if t[i - 1] != x {
                    let k = choose|k: int| 0 <= k < s.drop_first().len() && s.drop_first()[k] == t[i - 1];
                    assert(s[k + 1] == r[i]);
                }
            }
        }
    } else if s.len() > 0 {
        let r = insert_sorted(x, s);
        assert forall|i: int| 0 <= i < r.len() implies #[trigger] r[i] == x || s.contains(r[i]) by {
            if i > 0 {
                assert(r[i] == s[i - 1]);
            }
        }
    }
}

/// Sorting keeps the strings it was given: each sorted string is one of them.
pub proof fn lemma_sort_strings_members(s: Seq<Seq<char>>)
    ensures
        sort_strings(s).len() == s.len(),
        forall|i: int| 0 <= i < sort_strings(s).len() ==> s.contains(#[trigger] sort_strings(s)[i]),
    decreases s.len(),
{
    if s.len() > 0 {
        lemma_sort_strings_members(s.drop_last());
        let before = sort_strings(s.drop_last());
        lemma_insert_sorted_members(s.last(), before);
        assert forall|i: int| 0 <= i < sort_strings(s).len() implies s.contains(#[trigger] sort_strings(s)[i]) by {
            let v = sort_strings(s)[i];
            if v == s.last() {
                assert(s[s.len() - 1] == v);
            } else {
                assert(before.contains(v));
                let k = choose|k: int| 0 <= k < before.len() && before[k] == v;
                assert(s.drop_last().contains(v));
                let m = choose|m: int| 0 <= m < s.drop_last().len() && s.drop_last()[m] == v;
                assert(s[m] == v);
            }
        }
    }
}

} // verus!
