use vstd::prelude::*;

verus! {

/// `String::push` appends one character to the end of the string (std's
/// documentation: "Appends the given char to the end of this String").
pub assume_specification[ std::string::String::push ](string: &mut String, ch: char)
    ensures
        final(string)@ == old(string)@.push(ch),
;

/// The characters of `s`, in order.
pub fn chars_of(s: &str) -> (v: Vec<char>)
    ensures
        v@ == s@,
{
    let mut v: Vec<char> = Vec::new();
    for c in it: s.chars()
        invariant
            v@ == it.seq().take(it.index()),
    {
        v.push(c);
    }
    v
}

/// A `String` holding `s`.
pub fn owned(s: &str) -> (r: String)
    ensures
        r@ == s@,
{
    let mut r = String::new();
    r.append(s);
    r
}

/// A `String` holding exactly the characters of `cs`.
pub fn string_of(cs: &[char]) -> (s: String)
    ensures
        s@ == cs@,
{
    let mut s = String::new();
    let mut i: usize = 0;
    while i < cs.len()
        invariant
            i <= cs@.len(),
            s@ == cs@.take(i as int),
        decreases cs@.len() - i,
    {
        s.push(cs[i]);
        i = i + 1;
        assert(cs@.take(i as int) == cs@.take(i - 1).push(cs@[i - 1]));
    }
    assert(cs@.take(cs@.len() as int) == cs@);
    s
}


/// Unicode `White_Space`, the set std's `char::is_whitespace` tests.
pub open spec fn is_ws(c: char) -> bool {
    ||| c == ' '
    ||| ('\t' <= c && c <= '\r')
    ||| c == '\u{85}'
    ||| c == '\u{a0}'
    ||| c == '\u{1680}'
    ||| ('\u{2000}' <= c && c <= '\u{200a}')
    ||| c == '\u{2028}'
    ||| c == '\u{2029}'
    ||| c == '\u{202f}'
    ||| c == '\u{205f}'
    ||| c == '\u{3000}'
}

/// `s` without its leading whitespace.
pub open spec fn trim_start_spec(s: Seq<char>) -> Seq<char>
    decreases s.len(),
{
    if s.len() > 0 && is_ws(s[0]) {
        trim_start_spec(s.drop_first())
    } else {
        s
    }
}

/// `s` without its trailing whitespace.
pub open spec fn trim_end_spec(s: Seq<char>) -> Seq<char>
    decreases s.len(),
{
    if s.len() > 0 && is_ws(s.last()) {
        trim_end_spec(s.drop_last())
    } else {
        s
    }
}

/// `s` without leading and trailing whitespace (std's `str::trim`).
pub open spec fn trim_spec(s: Seq<char>) -> Seq<char> {
    trim_end_spec(trim_start_spec(s))
}

/// `s` without every trailing occurrence of `c` (std's `trim_end_matches`
/// with a single character).
pub open spec fn strip_trailing(s: Seq<char>, c: char) -> Seq<char>
    decreases s.len(),
{
    if s.len() > 0 && s.last() == c {
        strip_trailing(s.drop_last(), c)
    } else {
        s
    }
}

proof fn lemma_trim_start_append(s: Seq<char>, post: Seq<char>)
    ensures
        trim_start_spec(s + post) == if trim_start_spec(s).len() > 0 {
            trim_start_spec(s) + post
        } else {
            trim_start_spec(post)
        },
    decreases s.len(),
{
    if s.len() == 0 {
        assert(s + post =~= post);
    } else {
        assert((s + post)[0] == s[0]);
        if is_ws(s[0]) {
            assert((s + post).drop_first() =~= s.drop_first() + post);
            lemma_trim_start_append(s.drop_first(), post);
        }
    }
}

proof fn lemma_trim_start_ws(pre: Seq<char>, x: Seq<char>)
    requires
        forall|i: int| 0 <= i < pre.len() ==> is_ws(#[trigger] pre[i]),
    ensures
        trim_start_spec(pre + x) == trim_start_spec(x),
    decreases pre.len(),
{
    if pre.len() > 0 {
        assert((pre + x)[0] == pre[0]);
        assert((pre + x).drop_first() =~= pre.drop_first() + x);
        assert forall|i: int| 0 <= i < pre.drop_first().len() implies is_ws(#[trigger] pre.drop_first()[i]) by {
            assert(pre.drop_first()[i] == pre[i + 1]);
        }
        lemma_trim_start_ws(pre.drop_first(), x);
    } else {
        assert(pre + x =~= x);
    }
}

proof fn lemma_trim_end_ws(x: Seq<char>, post: Seq<char>)
    requires
        forall|i: int| 0 <= i < post.len() ==> is_ws(#[trigger] post[i]),
    ensures
        trim_end_spec(x + post) == trim_end_spec(x),
    decreases post.len(),
{
    if post.len() > 0 {
        assert((x + post).last() == post.last());
        assert((x + post).drop_last() =~= x + post.drop_last());
        assert forall|i: int| 0 <= i < post.drop_last().len() implies is_ws(#[trigger] post.drop_last()[i]) by {
            assert(post.drop_last()[i] == post[i]);
        }
        assert(is_ws(post[post.len() - 1]));
        lemma_trim_end_ws(x, post.drop_last());
    } else {
        assert(x + post =~= x);
    }
}

/// Law: whitespace before and after a text does not change the text
/// trimmed.
pub proof fn lemma_trim_padding(pre: Seq<char>, s: Seq<char>, post: Seq<char>)
    requires
        forall|i: int| 0 <= i < pre.len() ==> is_ws(#[trigger] pre[i]),
        forall|i: int| 0 <= i < post.len() ==> is_ws(#[trigger] post[i]),
    ensures
        trim_spec(pre + s + post) == trim_spec(s),
{
    assert(pre + s + post =~= pre + (s + post));
    lemma_trim_start_ws(pre, s + post);
    lemma_trim_start_append(s, post);
    if trim_start_spec(s).len() > 0 {
        lemma_trim_end_ws(trim_start_spec(s), post);
    } else {
        lemma_trim_start_ws(post, Seq::empty());
        assert(post + Seq::<char>::empty() =~= post);
        assert(trim_start_spec(Seq::<char>::empty()) == Seq::<char>::empty());
        assert(trim_start_spec(s) =~= Seq::<char>::empty());
    }
}

proof fn lemma_trim_start_shape(s: Seq<char>) -> (i: int)
    ensures
        0 <= i <= s.len(),
        trim_start_spec(s) == s.skip(i),
        forall|k: int| 0 <= k < i ==> is_ws(#[trigger] s[k]),
        i < s.len() ==> !is_ws(s[i]),
    decreases s.len(),
{
    if s.len() > 0 && is_ws(s[0]) {
        let i0 = lemma_trim_start_shape(s.drop_first());
        assert(s.drop_first().skip(i0) =~= s.skip(i0 + 1));
        assert forall|k: int| 0 <= k < i0 + 1 implies is_ws(#[trigger] s[k]) by {
            if k > 0 {
                assert(s[k] == s.drop_first()[k - 1]);
            }
        }
        i0 + 1
    } else {
        assert(s.skip(0) =~= s);
        0
    }
}

proof fn lemma_trim_end_shape(s: Seq<char>) -> (j: int)
    ensures
        0 <= j <= s.len(),
        trim_end_spec(s) == s.take(j),
        forall|k: int| j <= k < s.len() ==> is_ws(#[trigger] s[k]),
        j > 0 ==> !is_ws(s[j - 1]),
    decreases s.len(),
{
    if s.len() > 0 && is_ws(s.last()) {
        let j0 = lemma_trim_end_shape(s.drop_last());
        assert(s.drop_last().take(j0) =~= s.take(j0));
        assert forall|k: int| j0 <= k < s.len() implies is_ws(#[trigger] s[k]) by {
            if k < s.len() - 1 {
                assert(s[k] == s.drop_last()[k]);
            }
        }
        j0
    } else {
        assert(s.take(s.len() as int) =~= s);
        s.len() as int
    }
}

/// Law: trimming keeps the part of a text between its leading and its
/// trailing whitespace: the result is a run `s[i..j]` of the text, every
/// character before `i` or from `j` on is whitespace, and a non-empty
/// result neither starts nor ends with whitespace.
pub proof fn lemma_trim_shape(s: Seq<char>)
    ensures
        exists|i: int, j: int|
            0 <= i <= j <= s.len() && #[trigger] s.subrange(i, j) == trim_spec(s) && (forall|k: int|
                0 <= k < i ==> is_ws(#[trigger] s[k])) && (forall|k: int|
                j <= k < s.len() ==> is_ws(#[trigger] s[k])),
        trim_spec(s).len() > 0 ==> !is_ws(trim_spec(s)[0]) && !is_ws(trim_spec(s).last()),
{
    let i = lemma_trim_start_shape(s);
    let t = s.skip(i);
    let j0 = lemma_trim_end_shape(t);
    let j = i + j0;
    assert(t.take(j0) =~= s.subrange(i, j));
    assert forall|k: int| j <= k < s.len() implies is_ws(#[trigger] s[k]) by {
        assert(s[k] == t[k - i]);
    }
    if j0 > 0 {
        assert(trim_spec(s)[0] == s[i]);
        assert(trim_spec(s).last() == t[j0 - 1]);
    }
}

/// Whether `c` is whitespace.
pub fn is_whitespace(c: char) -> (b: bool)
    ensures
        b == is_ws(c),
{
    c == ' ' || ('\t' <= c && c <= '\r') || c == '\u{85}' || c == '\u{a0}' || c == '\u{1680}'
        || ('\u{2000}' <= c && c <= '\u{200a}') || c == '\u{2028}' || c == '\u{2029}'
        || c == '\u{202f}' || c == '\u{205f}' || c == '\u{3000}'
}

/// The bounds `[start, end)` of `trim_spec(cs)` inside `cs`.
fn trim_bounds(cs: &Vec<char>) -> (r: (usize, usize))
    ensures
        r.0 <= r.1 <= cs@.len(),
        trim_spec(cs@) == cs@.subrange(r.0 as int, r.1 as int),
{
    let n = cs.len();
    let mut i: usize = 0;
    assert(cs@.subrange(0, n as int) == cs@);
    while i < n && is_whitespace(cs[i])
        invariant
            i <= n == cs@.len(),
            trim_start_spec(cs@) == trim_start_spec(cs@.subrange(i as int, n as int)),
        decreases n - i,
    {
        assert(cs@.subrange(i as int, n as int).drop_first() == cs@.subrange(i + 1, n as int));
        i = i + 1;
    }
    let mut j: usize = n;
    while j > i && is_whitespace(cs[j - 1])
        invariant
            i <= j <= n == cs@.len(),
            trim_start_spec(cs@) == cs@.subrange(i as int, n as int),
            trim_spec(cs@) == trim_end_spec(cs@.subrange(i as int, j as int)),
        decreases j - i,
    {
        assert(cs@.subrange(i as int, j as int).drop_last() == cs@.subrange(i as int, j - 1));
        j = j - 1;
    }
    (i, j)
}

/// `s` without leading and trailing whitespace.
pub fn trim(s: &str) -> (r: String)
    ensures
        r@ == trim_spec(s@),
{
    let cs = chars_of(s);
    let (a, b) = trim_bounds(&cs);
    string_of(slice_of(&cs, a, b).as_slice())
}

/// Whether `s` holds nothing but whitespace.
pub fn is_blank(s: &str) -> (b: bool)
    ensures
        b == (trim_spec(s@).len() == 0),
{
    let cs = chars_of(s);
    let (a, b) = trim_bounds(&cs);
    a == b
}

/// The characters `cs[from..to]`.
pub fn slice_of(cs: &Vec<char>, from: usize, to: usize) -> (r: Vec<char>)
    requires
        from <= to <= cs@.len(),
    ensures
        r@ == cs@.subrange(from as int, to as int),
{
    let mut r: Vec<char> = Vec::new();
    let mut k = from;
    while k < to
        invariant
            from <= k <= to <= cs@.len(),
            r@ == cs@.subrange(from as int, k as int),
        decreases to - k,
    {
        r.push(cs[k]);
        k = k + 1;
    }
    r
}

/// `s` without every trailing occurrence of `c`.
pub fn trim_end_char(s: &str, c: char) -> (r: String)
    ensures
        r@ == strip_trailing(s@, c),
{
    let cs = chars_of(s);
    let mut j = cs.len();
    assert(cs@.subrange(0, j as int) == cs@);
    while j > 0 && cs[j - 1] == c
        invariant
            j <= cs@.len(),
            strip_trailing(s@, c) == strip_trailing(cs@.subrange(0, j as int), c),
        decreases j,
    {
        assert(cs@.subrange(0, j as int).drop_last() == cs@.subrange(0, j - 1));
        j = j - 1;
    }
    string_of(slice_of(&cs, 0, j).as_slice())
}


/// The ASCII digit for `d` (for `d < 10`).
pub open spec fn digit_char(d: nat) -> char {
    if d == 0 {
        '0'
    } else if d == 1 {
        '1'
    } else if d == 2 {
        '2'
    } else if d == 3 {
        '3'
    } else if d == 4 {
        '4'
    } else if d == 5 {
        '5'
    } else if d == 6 {
        '6'
    } else if d == 7 {
        '7'
    } else if d == 8 {
        '8'
    } else {
        '9'
    }
}

/// Whether `c` is an ASCII decimal digit.
pub open spec fn is_digit(c: char) -> bool {
    '0' <= c && c <= '9'
}

/// The value of the ASCII digit `c`.
pub open spec fn digit_value(c: char) -> nat {
    (c as int - 48) as nat
}

/// The decimal representation of `n`, without leading zeros.
pub open spec fn decimal(n: nat) -> Seq<char>
    decreases n,
{
    if n < 10 {
        seq![digit_char(n)]
    } else {
        decimal(n / 10).push(digit_char(n % 10))
    }
}

/// The decimal representation of `x`, with a leading `-` when negative
/// (what std's `to_string` prints for an integer).
pub open spec fn signed_decimal(x: int) -> Seq<char> {
    if x < 0 {
        seq!['-'] + decimal((-x) as nat)
    } else {
        decimal(x as nat)
    }
}

/// The value of a string of decimal digits.
pub open spec fn digits_value(s: Seq<char>) -> nat
    decreases s.len(),
{
    if s.len() == 0 {
        0
    } else {
        digits_value(s.drop_last()) * 10 + digit_value(s.last())
    }
}

/// Whether `s` is a non-empty string of decimal digits.
pub open spec fn all_digits(s: Seq<char>) -> bool {
    s.len() > 0 && forall|i: int| 0 <= i < s.len() ==> is_digit(#[trigger] s[i])
}

/// What std's `str::parse::<i64>` gives: an optional single `+` or `-`,
/// then at least one decimal digit and nothing else, within the range of
/// `i64`.
pub open spec fn parse_i64_spec(s: Seq<char>) -> Option<i64> {
    let neg = s.len() > 0 && s[0] == '-';
    let body = if s.len() > 0 && (s[0] == '-' || s[0] == '+') {
        s.drop_first()
    } else {
        s
    };
    let v: int = if neg {
        -(digits_value(body) as int)
    } else {
        digits_value(body) as int
    };
    if all_digits(body) && i64::MIN <= v <= i64::MAX {
        Some(v as i64)
    } else {
        None
    }
}

/// Law: a number parses only from an optional sign and digits: a text
/// holding any other character, an empty text and a lone sign give no
/// number; and a `+` before digits changes nothing.
pub proof fn lemma_parse_i64_rejects(s: Seq<char>, k: int)
    requires
        0 <= k < s.len(),
        !is_digit(s[k]),
        !(k == 0 && (s[0] == '-' || s[0] == '+')),
    ensures
        parse_i64_spec(s) is None,
        parse_i64_spec(Seq::empty()) is None,
        parse_i64_spec(seq!['-']) is None,
        parse_i64_spec(seq!['+']) is None,
{
    let body = if s.len() > 0 && (s[0] == '-' || s[0] == '+') {
        s.drop_first()
    } else {
        s
    };
    if s.len() > 0 && (s[0] == '-' || s[0] == '+') {
        assert(body[k - 1] == s[k]);
    }
    assert(seq!['-'].drop_first().len() == 0);
    assert(seq!['+'].drop_first().len() == 0);
}

/// Law: a `+` before a run of digits parses to the same number as the
/// digits alone.
pub proof fn lemma_parse_i64_plus(d: Seq<char>)
    requires
        all_digits(d),
    ensures
        parse_i64_spec(seq!['+'] + d) == parse_i64_spec(d),
{
    assert((seq!['+'] + d).drop_first() =~= d);
    assert(is_digit(d[0]));
}

/// The ASCII digit for `d`.
fn digit(d: u64) -> (c: char)
    requires
        d < 10,
    ensures
        c == digit_char(d as nat),
        is_digit(c),
        digit_value(c) == d,
{
    if d == 0 {
        '0'
    } else if d == 1 {
        '1'
    } else if d == 2 {
        '2'
    } else if d == 3 {
        '3'
    } else if d == 4 {
        '4'
    } else if d == 5 {
        '5'
    } else if d == 6 {
        '6'
    } else if d == 7 {
        '7'
    } else if d == 8 {
        '8'
    } else {
        '9'
    }
}

/// Appends the decimal representation of `n` to `s`.
pub fn push_decimal(s: &mut String, n: u64)
    ensures
        final(s)@ == old(s)@ + decimal(n as nat),
    decreases n,
{
    if n >= 10 {
        push_decimal(s, n / 10);
    }
    s.push(digit(n % 10));
    assert(n < 10 ==> decimal(n as nat) == seq![digit_char(n as nat)]);
}

/// The decimal representation of `n`.
pub fn u64_to_string(n: u64) -> (s: String)
    ensures
        s@ == decimal(n as nat),
{
    let mut s = String::new();
    push_decimal(&mut s, n);
    assert(s@ == Seq::<char>::empty() + decimal(n as nat));
    s
}

/// The decimal representation of `x`, with `-` for negative numbers.
pub fn i64_to_string(x: i64) -> (s: String)
    ensures
        s@ == signed_decimal(x as int),
{
    let mut s = String::new();
    if x < 0 {
        s.push('-');
        let m: u64 = (0i128 - x as i128) as u64;
        push_decimal(&mut s, m);
    } else {
        push_decimal(&mut s, x as u64);
    }
    s
}

/// The decimal representation of `n`.
pub fn usize_to_string(n: usize) -> (s: String)
    ensures
        s@ == decimal(n as nat),
{
    u64_to_string(n as u64)
}

proof fn lemma_digit_char(d: nat)
    requires
        d < 10,
    ensures
        is_digit(digit_char(d)),
        digit_value(digit_char(d)) == d,
{
    assert('0' as int == 48);
    assert('9' as int == 57);
}

proof fn lemma_digits_value_prefix(s: Seq<char>, k: int)
    requires
        0 <= k <= s.len(),
    ensures
        digits_value(s.take(k)) <= digits_value(s),
    decreases s.len(),
{
    if k < s.len() {
        assert(s.drop_last().take(k) == s.take(k));
        lemma_digits_value_prefix(s.drop_last(), k);
    } else {
        assert(s.take(k) == s);
    }
}

/// Parses `s` as std's `str::parse::<i64>` does.
pub fn parse_i64(s: &str) -> (r: Option<i64>)
    ensures
        r == parse_i64_spec(s@),
{
    let cs = chars_of(s);
    let n = cs.len();
    let neg = n > 0 && cs[0] == '-';
    let start: usize = if n > 0 && (cs[0] == '-' || cs[0] == '+') {
        1
    } else {
        0
    };
    let ghost body = if n > 0 && (cs@[0] == '-' || cs@[0] == '+') {
        cs@.drop_first()
    } else {
        cs@
    };
    assert(body == cs@.subrange(start as int, n as int));
    if start == n {
        return None;
    }
    let limit: i128 = 9223372036854775808;
    let mut acc: i128 = 0;
    let mut k: usize = start;
    while k < n
        invariant
            start <= k <= n == cs@.len(),
            body == cs@.subrange(start as int, n as int),
            limit == 9223372036854775808,
            cs@ == s@,
            body == (if n > 0 && (cs@[0] == '-' || cs@[0] == '+') {
                cs@.drop_first()
            } else {
                cs@
            }),
            0 <= acc <= limit,
            acc == digits_value(body.take(k - start)),
            forall|i: int| 0 <= i < k - start ==> is_digit(#[trigger] body[i]),
        decreases n - k,
    {
        let c = cs[k];
        if !('0' <= c && c <= '9') {
            assert(!is_digit(body[k - start]));
            assert(!all_digits(body));
            assert(cs@ == s@);
            return None;
        }
        assert(body.take(k + 1 - start).drop_last() == body.take(k - start));
        assert(body.take(k + 1 - start).last() == c);
        assert(acc * 10 <= limit * 10) by (nonlinear_arith)
            requires
                0 <= acc <= limit,
        ;
        acc = acc * 10 + (c as u32 - 48) as i128;
        if acc > limit {
            proof {
                lemma_digits_value_prefix(body, k + 1 - start);
            }
            assert(digits_value(body) > limit);
            assert(cs@ == s@);
            return None;
        }
        k = k + 1;
    }
    assert(body.take(n - start) == body);
    if neg {
        Some((0 - acc) as i64)
    } else if acc < limit {
        Some(acc as i64)
    } else {
        None
    }
}

/// Law: parsing the decimal representation of any `i64` gives that number
/// back.
pub proof fn lemma_i64_decimal_roundtrip(x: i64)
    ensures
        parse_i64_spec(signed_decimal(x as int)) == Some(x),
{
    if x < 0 {
        let m = (-x) as nat;
        lemma_decimal_digits(m);
        let s = seq!['-'] + decimal(m);
        assert(s.drop_first() == decimal(m));
        assert(s[0] == '-');
    } else {
        let m = x as nat;
        lemma_decimal_digits(m);
        assert(decimal(m)[0] != '-' && decimal(m)[0] != '+') by {
            assert(is_digit(decimal(m)[0]));
        }
    }
}

/// The decimal representation of `n` is a non-empty string of digits whose
/// value is `n`.
pub proof fn lemma_decimal_digits(n: nat)
    ensures
        all_digits(decimal(n)),
        digits_value(decimal(n)) == n,
    decreases n,
{
    lemma_digit_char(n % 10);
    if n < 10 {
        assert(decimal(n).drop_last() == Seq::<char>::empty());
        assert(digits_value(Seq::<char>::empty()) == 0);
        assert(decimal(n).last() == digit_char(n));
    } else {
        lemma_decimal_digits(n / 10);
        let d = decimal(n / 10);
        assert(n / 10 * 10 + n % 10 == n);
        assert(decimal(n) == d.push(digit_char(n % 10)));
        assert(decimal(n).last() == digit_char(n % 10));
        assert(digit_value(decimal(n).last()) == n % 10);
        assert(digits_value(decimal(n)) == digits_value(decimal(n).drop_last()) * 10 + digit_value(
            decimal(n).last(),
        ));
        assert(decimal(n).drop_last() == d);
        assert forall|i: int| 0 <= i < decimal(n).len() implies is_digit(#[trigger] decimal(n)[i]) by {
            if i < d.len() {
                assert(decimal(n)[i] == d[i]);
            }
        }
    }
}


/// `items` joined with `sep` between consecutive items (std's
/// `[String]::join`).
pub open spec fn join_spec(items: Seq<Seq<char>>, sep: Seq<char>) -> Seq<char>
    decreases items.len(),
{
    if items.len() == 0 {
        Seq::empty()
    } else if items.len() == 1 {
        items[0]
    } else {
        join_spec(items.drop_last(), sep) + sep + items.last()
    }
}

/// The pieces of `s` between occurrences of `sep`, empty pieces included
/// (std's `str::split` with a character).
pub open spec fn split_spec(s: Seq<char>, sep: char) -> Seq<Seq<char>>
    decreases s.len(),
{
    if s.len() == 0 {
        seq![Seq::empty()]
    } else {
        let r = split_spec(s.drop_last(), sep);
        if s.last() == sep {
            r.push(Seq::empty())
        } else {
            r.update(r.len() - 1, r.last().push(s.last()))
        }
    }
}

/// Whether a piece is non-empty.
pub open spec fn non_empty(t: Seq<char>) -> bool {
    t.len() > 0
}

/// The predicate "is a non-empty piece".
pub open spec fn non_empty_pred() -> spec_fn(Seq<char>) -> bool {
    |t: Seq<char>| non_empty(t)
}

/// The non-empty pieces of `s` between occurrences of `sep`.
pub open spec fn tokens_spec(s: Seq<char>, sep: char) -> Seq<Seq<char>> {
    split_spec(s, sep).filter(non_empty_pred())
}

/// The view of an optional string.
pub open spec fn opt_view(o: Option<String>) -> Option<Seq<char>> {
    match o {
        Some(s) => Some(s@),
        None => None,
    }
}

/// The views of a list of strings.
pub open spec fn views(v: Seq<String>) -> Seq<Seq<char>> {
    v.map_values(|x: String| x@)
}

proof fn lemma_split_len(s: Seq<char>, sep: char)
    ensures
        split_spec(s, sep).len() >= 1,
    decreases s.len(),
{
    if s.len() > 0 {
        lemma_split_len(s.drop_last(), sep);
    }
}

/// `items` joined with `sep`.
pub fn join(items: &Vec<String>, sep: &str) -> (r: String)
    ensures
        r@ == join_spec(views(items@), sep@),
{
    let mut r = String::new();
    let mut i: usize = 0;
    while i < items.len()
        invariant
            i <= items@.len(),
            r@ == join_spec(views(items@).take(i as int), sep@),
        decreases items@.len() - i,
    {
        let ghost before = views(items@).take(i as int);
        if i > 0 {
            r.append(sep);
        }
        r.append(items[i].as_str());
        proof {
            let after = views(items@).take(i + 1);
            assert(after.drop_last() == before);
            assert(after.last() == items@[i as int]@);
            if i == 0 {
                assert(after.len() == 1);
            }
        }
        i = i + 1;
    }
    assert(views(items@).take(items@.len() as int) == views(items@));
    r
}

/// The non-empty pieces of `s` between occurrences of `sep`.
pub fn tokens(s: &str, sep: char) -> (r: Vec<String>)
    ensures
        views(r@) == tokens_spec(s@, sep),
{
    let cs = chars_of(s);
    let ghost pred = non_empty_pred();
    let mut done: Vec<String> = Vec::new();
    let mut cur: Vec<char> = Vec::new();
    let mut i: usize = 0;
    assert(cs@.take(0) == Seq::<char>::empty());
    while i < cs.len()
        invariant
            i <= cs@.len(),
            cs@ == s@,
            pred == non_empty_pred(),
            split_spec(cs@.take(i as int), sep).len() >= 1,
            views(done@) == split_spec(cs@.take(i as int), sep).drop_last().filter(pred),
            cur@ == split_spec(cs@.take(i as int), sep).last(),
        decreases cs@.len() - i,
    {
        let ghost p = split_spec(cs@.take(i as int), sep);
        let c = cs[i];
        assert(cs@.take(i + 1).drop_last() == cs@.take(i as int));
        assert(cs@.take(i + 1).last() == c);
        if c == sep {
            let ghost old_done = done@;
            if cur.len() > 0 {
                let piece = string_of(cur.as_slice());
                done.push(piece);
                assert(views(done@) =~= views(old_done).push(cur@));
            }
            proof {
                assert(p == p.drop_last().push(p.last()));
                p.drop_last().lemma_filter_push(p.last(), pred);
                assert(views(done@) == p.filter(pred));
                assert(p.push(Seq::empty()).drop_last() == p);
            }
            cur = Vec::new();
        } else {
            cur.push(c);
            proof {
                let q = p.update(p.len() - 1, p.last().push(c));
                assert(q.drop_last() == p.drop_last());
            }
        }
        i = i + 1;
    }
    assert(cs@.take(cs@.len() as int) == cs@);
    let ghost p = split_spec(cs@, sep);
    let ghost old_done = done@;
    if cur.len() > 0 {
        let piece = string_of(cur.as_slice());
        done.push(piece);
        assert(views(done@) =~= views(old_done).push(cur@));
    }
    proof {
        assert(p == p.drop_last().push(p.last()));
        p.drop_last().lemma_filter_push(p.last(), pred);
    }
    done
}

proof fn lemma_split_no_sep(prefix: Seq<char>, t: Seq<char>, sep: char)
    requires
        !t.contains(sep),
    ensures
        split_spec(prefix + t, sep) == split_spec(prefix, sep).update(
            split_spec(prefix, sep).len() - 1,
            split_spec(prefix, sep).last() + t,
        ),
    decreases t.len(),
{
    lemma_split_len(prefix, sep);
    let p = split_spec(prefix, sep);
    if t.len() == 0 {
        assert(prefix + t == prefix);
        assert(p.last() + t == p.last());
        assert(p.update(p.len() - 1, p.last()) == p);
    } else {
        let t0 = t.drop_last();
        assert(!t0.contains(sep)) by {
            if t0.contains(sep) {
                let k = choose|k: int| 0 <= k < t0.len() && t0[k] == sep;
                assert(t[k] == sep);
            }
        }
        lemma_split_no_sep(prefix, t0, sep);
        assert((prefix + t).drop_last() == prefix + t0);
        assert((prefix + t).last() == t.last());
        assert(t.last() != sep) by {
            assert(t[t.len() - 1] == t.last());
        }
        assert(p.last() + t0 + seq![t.last()] == p.last() + t);
        assert((p.last() + t0).push(t.last()) == p.last() + t);
    }
}

/// Law: splitting the `sep`-joined items gives the items back, when no
/// item holds `sep` and there is at least one item.
pub proof fn lemma_split_join(items: Seq<Seq<char>>, sep: char)
    requires
        items.len() >= 1,
        forall|i: int| 0 <= i < items.len() ==> !(#[trigger] items[i]).contains(sep),
    ensures
        split_spec(join_spec(items, seq![sep]), sep) == items,
    decreases items.len(),
{
    if items.len() == 1 {
        lemma_split_no_sep(Seq::empty(), items[0], sep);
        assert(Seq::<char>::empty() + items[0] == items[0]);
        assert(split_spec(Seq::<char>::empty(), sep) == seq![Seq::<char>::empty()]);
        assert(Seq::<char>::empty() + items[0] == items[0]);
        assert(seq![Seq::<char>::empty()].update(0, Seq::<char>::empty() + items[0]) == items);
    } else {
        let d = items.drop_last();
        assert forall|i: int| 0 <= i < d.len() implies !(#[trigger] d[i]).contains(sep) by {
            assert(d[i] == items[i]);
        }
        lemma_split_join(d, sep);
        let j = join_spec(d, seq![sep]);
        let jp = j + seq![sep];
        assert(jp.drop_last() == j);
        assert(split_spec(jp, sep) == d.push(Seq::empty()));
        assert(!items[items.len() - 1].contains(sep));
        lemma_split_no_sep(jp, items.last(), sep);
        assert(Seq::<char>::empty() + items.last() == items.last());
        assert(d.push(Seq::empty()).update(d.len() as int, Seq::<char>::empty() + items.last())
            == items);
    }
}

/// Law: the non-empty tokens of the `sep`-joined items are the non-empty
/// items, when no item holds `sep`.
pub proof fn lemma_tokens_join(items: Seq<Seq<char>>, sep: char)
    requires
        forall|i: int| 0 <= i < items.len() ==> !(#[trigger] items[i]).contains(sep),
    ensures
        tokens_spec(join_spec(items, seq![sep]), sep) == items.filter(non_empty_pred()),
{
    let pred = non_empty_pred();
    if items.len() == 0 {
        let e = seq![Seq::<char>::empty()];
        assert(split_spec(Seq::<char>::empty(), sep) == e);
        assert(e == Seq::<Seq<char>>::empty().push(Seq::<char>::empty()));
        Seq::<Seq<char>>::empty().lemma_filter_push(Seq::<char>::empty(), pred);
        assert(Seq::<Seq<char>>::empty().filter(pred) == Seq::<Seq<char>>::empty()) by {
            reveal(Seq::filter);
        }
    } else {
        lemma_split_join(items, sep);
    }
}


/// Strict lexicographic order on character sequences (the order of std's
/// `Ord` for `String`: UTF-8 byte order is code point order).
pub open spec fn seq_lt(a: Seq<char>, b: Seq<char>) -> bool
    decreases a.len(),
{
    if a.len() == 0 {
        b.len() > 0
    } else if b.len() == 0 {
        false
    } else if a[0] != b[0] {
        a[0] < b[0]
    } else {
        seq_lt(a.drop_first(), b.drop_first())
    }
}

/// `seq_lt` is irreflexive and asymmetric.
pub proof fn lemma_seq_lt_asym(a: Seq<char>, b: Seq<char>)
    ensures
        seq_lt(a, b) ==> !seq_lt(b, a),
        !seq_lt(a, a),
    decreases a.len(),
{
    if a.len() > 0 && b.len() > 0 {
        lemma_seq_lt_asym(a.drop_first(), b.drop_first());
    }
    if a.len() > 0 {
        lemma_seq_lt_asym(a.drop_first(), a.drop_first());
    }
}

/// `seq_lt` is total on distinct sequences.
pub proof fn lemma_seq_lt_total(a: Seq<char>, b: Seq<char>)
    ensures
        a == b || seq_lt(a, b) || seq_lt(b, a),
    decreases a.len(),
{
    if a.len() > 0 && b.len() > 0 && a[0] == b[0] {
        lemma_seq_lt_total(a.drop_first(), b.drop_first());
        if a.drop_first() == b.drop_first() {
            assert(a == seq![a[0]] + a.drop_first());
            assert(b == seq![b[0]] + b.drop_first());
        }
    } else if a.len() == 0 && b.len() == 0 {
        assert(a == b);
    }
}

/// `seq_lt` is transitive.
pub proof fn lemma_seq_lt_trans(a: Seq<char>, b: Seq<char>, c: Seq<char>)
    requires
        seq_lt(a, b),
        seq_lt(b, c),
    ensures
        seq_lt(a, c),
    decreases a.len(),
{
    if a.len() > 0 && b.len() > 0 && c.len() > 0 && a[0] == b[0] && b[0] == c[0] {
        lemma_seq_lt_trans(a.drop_first(), b.drop_first(), c.drop_first());
    }
}

/// Whether `a` and `b` agree before index `k` and differ at it.
pub open spec fn first_differ_at(a: Seq<char>, b: Seq<char>, k: int) -> bool {
    0 <= k < a.len() && k < b.len() && a.take(k) == b.take(k) && a[k] != b[k]
}

/// Law: two texts that first differ at index `k` are ordered by their
/// characters at `k`, compared as code points.
pub proof fn lemma_seq_lt_first_difference(a: Seq<char>, b: Seq<char>, k: int)
    requires
        first_differ_at(a, b, k),
    ensures
        seq_lt(a, b) == (a[k] < b[k]),
    decreases k,
{
    if k > 0 {
        assert(a[0] == a.take(k)[0]);
        assert(b[0] == b.take(k)[0]);
        assert(a.drop_first().take(k - 1) =~= a.take(k).drop_first());
        assert(b.drop_first().take(k - 1) =~= b.take(k).drop_first());
        lemma_seq_lt_first_difference(a.drop_first(), b.drop_first(), k - 1);
    }
}

/// Law: a text comes before every longer text that it begins, and after
/// none of the texts that begin it.
pub proof fn lemma_seq_lt_prefix(a: Seq<char>, b: Seq<char>)
    requires
        a.len() <= b.len(),
        b.take(a.len() as int) == a,
    ensures
        seq_lt(a, b) == (a.len() < b.len()),
        !seq_lt(b, a),
    decreases a.len(),
{
    if a.len() > 0 {
        assert(a[0] == b.take(a.len() as int)[0]);
        assert(b.drop_first().take(a.len() - 1) =~= b.take(a.len() as int).drop_first());
        lemma_seq_lt_prefix(a.drop_first(), b.drop_first());
    }
}

/// Whether `a` comes strictly before `b` in lexicographic order.
pub fn str_lt(a: &str, b: &str) -> (r: bool)
    ensures
        r == seq_lt(a@, b@),
        forall|k: int| #[trigger] first_differ_at(a@, b@, k) ==> r == (a@[k] < b@[k]),
        a@.len() <= b@.len() && b@.take(a@.len() as int) == a@ ==> r == (a@.len() < b@.len()),
        b@.len() <= a@.len() && a@.take(b@.len() as int) == b@ ==> !r,
{
    proof {
        assert forall|k: int| #[trigger] first_differ_at(a@, b@, k) implies seq_lt(a@, b@) == (a@[k] < b@[k]) by {
            lemma_seq_lt_first_difference(a@, b@, k);
        }
        if a@.len() <= b@.len() && b@.take(a@.len() as int) == a@ {
            lemma_seq_lt_prefix(a@, b@);
        }
        if b@.len() <= a@.len() && a@.take(b@.len() as int) == b@ {
            lemma_seq_lt_prefix(b@, a@);
        }
    }
    let x = chars_of(a);
    let y = chars_of(b);
    let mut i: usize = 0;
    assert(x@.skip(0) == x@ && y@.skip(0) == y@);
    while i < x.len() && i < y.len() && x[i] == y[i]
        invariant
            i <= x@.len(),
            i <= y@.len(),
            seq_lt(a@, b@) == seq_lt(x@.skip(i as int), y@.skip(i as int)),
            x@ == a@,
            y@ == b@,
        decreases x@.len() - i,
    {
        assert(x@.skip(i as int).drop_first() == x@.skip(i + 1));
        assert(y@.skip(i as int).drop_first() == y@.skip(i + 1));
        i = i + 1;
    }
    if i == x.len() {
        i < y.len()
    } else if i == y.len() {
        false
    } else {
        x[i] < y[i]
    }
}


/// Whether `a` and `b` hold the same characters.
pub fn str_eq(a: &str, b: &str) -> (r: bool)
    ensures
        r == (a@ == b@),
{
    let x = chars_of(a);
    let y = chars_of(b);
    if x.len() != y.len() {
        return false;
    }
    let mut i: usize = 0;
    while i < x.len()
        invariant
            i <= x@.len() == y@.len(),
            x@ == a@,
            y@ == b@,
            forall|k: int| 0 <= k < i ==> x@[k] == y@[k],
        decreases x@.len() - i,
    {
        if x[i] != y[i] {
            return false;
        }
        i = i + 1;
    }
    assert(x@ == y@);
    true
}

} // verus!
