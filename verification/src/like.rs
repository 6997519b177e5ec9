//! SQLite's `LIKE` with `ESCAPE '\'`: a model of what a pattern matches,
//! the escaping that turns a user's term into a literal pattern, and the
//! laws that say what the search filters built from it select.

use vstd::prelude::*;
use crate::text::{chars_of, join_spec};

verus! {

/// The escape character of every pattern of the search.
pub open spec fn escape_char() -> char {
    '\\'
}

/// Whether `c` means something in a pattern: the two wildcards and the
/// escape character.
pub open spec fn is_pattern_special(c: char) -> bool {
    c == '%' || c == '_' || c == '\\'
}

/// The code point of `c` with ASCII letters folded to lower case: `LIKE`
/// compares ASCII letters without regard to case, and every other
/// character exactly.
pub open spec fn fold(c: char) -> int {
    if 'A' <= c && c <= 'Z' {
        (c as int) + 32
    } else {
        c as int
    }
}

/// `s` with its ASCII letters folded to lower case.
pub open spec fn folded(s: Seq<char>) -> Seq<int> {
    s.map_values(|c: char| fold(c))
}

/// Whether `a` and `b` are equal up to the case of ASCII letters.
pub open spec fn same_folded(a: Seq<char>, b: Seq<char>) -> bool {
    folded(a) == folded(b)
}

/// Whether `u` occurs in `s` up to the case of ASCII letters.
pub open spec fn contains_folded(s: Seq<char>, u: Seq<char>) -> bool {
    exists|k: int| 0 <= k && k + u.len() <= s.len() && #[trigger] same_folded(s.subrange(k, k + u.len()), u)
}

/// The pattern that matches `c` literally.
pub open spec fn escaped_char(c: char) -> Seq<char> {
    if is_pattern_special(c) {
        seq![escape_char(), c]
    } else {
        seq![c]
    }
}

/// `u` as a pattern that matches exactly `u` (up to case): every wildcard
/// and escape character is preceded by the escape character.
pub open spec fn escape_spec(u: Seq<char>) -> Seq<char>
    decreases u.len(),
{
    if u.len() == 0 {
        Seq::empty()
    } else {
        escaped_char(u[0]) + escape_spec(u.drop_first())
    }
}

/// Whether `s` matches the pattern `p` of `s LIKE p ESCAPE '\'`: `%`
/// matches any run of characters, `_` any one character, the escape
/// character makes the next one literal (and matches nothing at the end
/// of the pattern), and every other character matches itself up to ASCII
/// case.
pub open spec fn like_match(p: Seq<char>, s: Seq<char>) -> bool
    decreases p.len(), s.len(),
{
    if p.len() == 0 {
        s.len() == 0
    } else if p[0] == '%' {
        like_match(p.drop_first(), s) || (s.len() > 0 && like_match(p, s.drop_first()))
    } else if p[0] == '_' {
        s.len() > 0 && like_match(p.drop_first(), s.drop_first())
    } else if p[0] == escape_char() {
        p.len() >= 2 && s.len() > 0 && fold(p[1]) == fold(s[0]) && like_match(
            p.drop_first().drop_first(),
            s.drop_first(),
        )
    } else {
        s.len() > 0 && fold(p[0]) == fold(s[0]) && like_match(p.drop_first(), s.drop_first())
    }
}

proof fn lemma_escape_push(u: Seq<char>, c: char)
    ensures
        escape_spec(u.push(c)) == escape_spec(u) + escaped_char(c),
    decreases u.len(),
{
    if u.len() == 0 {
        assert(u.push(c).drop_first() =~= Seq::<char>::empty());
        assert(escape_spec(Seq::<char>::empty()) == Seq::<char>::empty());
        assert(escape_spec(u.push(c)) =~= escaped_char(c));
        assert(escape_spec(u) + escaped_char(c) =~= escaped_char(c));
    } else {
        assert(u.push(c).drop_first() =~= u.drop_first().push(c));
        lemma_escape_push(u.drop_first(), c);
        assert(escape_spec(u.push(c)) =~= escaped_char(u[0]) + (escape_spec(u.drop_first())
            + escaped_char(c)));
    }
}

/// `term` escaped for a `LIKE ... ESCAPE '\'` pattern: `%`, `_` and `\`
/// are each preceded by `\`, so that the pattern matches the term
/// literally.
pub fn like_escape(term: &str) -> (r: String)
    ensures
        r@ == escape_spec(term@),
{
    let cs = chars_of(term);
    let mut r = String::new();
    let mut i: usize = 0;
    while i < cs.len()
        invariant
            i <= cs@.len(),
            cs@ == term@,
            r@ == escape_spec(cs@.take(i as int)),
        decreases cs@.len() - i,
    {
        let c = cs[i];
        if c == '%' || c == '_' || c == '\\' {
            r.push('\\');
        }
        r.push(c);
        proof {
            assert(cs@.take(i + 1) =~= cs@.take(i as int).push(c));
            lemma_escape_push(cs@.take(i as int), c);
            assert(r@ =~= escape_spec(cs@.take(i as int)) + escaped_char(c));
        }
        i = i + 1;
    }
    proof {
        assert(cs@.take(cs@.len() as int) =~= cs@);
    }
    r
}

proof fn lemma_folded_first(x: Seq<char>, y: Seq<char>)
    requires
        x.len() == y.len(),
        x.len() > 0,
    ensures
        same_folded(x, y) == (fold(x[0]) == fold(y[0]) && same_folded(x.drop_first(), y.drop_first())),
{
    assert(folded(x).drop_first() =~= folded(x.drop_first()));
    assert(folded(y).drop_first() =~= folded(y.drop_first()));
    if fold(x[0]) == fold(y[0]) && same_folded(x.drop_first(), y.drop_first()) {
        assert(folded(x) =~= folded(y)) by {
            assert forall|i: int| 0 <= i < x.len() implies folded(x)[i] == folded(y)[i] by {
                if i > 0 {
                    assert(folded(x)[i] == folded(x).drop_first()[i - 1]);
                    assert(folded(y)[i] == folded(y).drop_first()[i - 1]);
                }
            }
        }
    }
    if same_folded(x, y) {
        assert(folded(x)[0] == folded(y)[0]);
    }
}

proof fn lemma_escape_concat(a: Seq<char>, b: Seq<char>)
    ensures
        escape_spec(a + b) == escape_spec(a) + escape_spec(b),
    decreases a.len(),
{
    if a.len() == 0 {
        assert(a + b =~= b);
        assert(escape_spec(a) + escape_spec(b) =~= escape_spec(b));
    } else {
        assert((a + b).drop_first() =~= a.drop_first() + b);
        lemma_escape_concat(a.drop_first(), b);
        assert(escape_spec(a + b) =~= escaped_char(a[0]) + (escape_spec(a.drop_first()) + escape_spec(b)));
    }
}

/// An escaped term followed by `rest` matches `s` exactly when `s` starts
/// with the term (up to case) and `rest` matches what follows.
proof fn lemma_like_literal(u: Seq<char>, rest: Seq<char>, s: Seq<char>)
    ensures
        like_match(escape_spec(u) + rest, s) == (u.len() <= s.len() && same_folded(s.take(u.len() as int), u)
            && like_match(rest, s.skip(u.len() as int))),
    decreases u.len(),
{
    if u.len() == 0 {
        assert(escape_spec(u) + rest =~= rest);
        assert(s.take(0) =~= u);
        assert(s.skip(0) =~= s);
    } else {
        let c = u[0];
        let t = escape_spec(u.drop_first()) + rest;
        let p = escape_spec(u) + rest;
        assert(p =~= escaped_char(c) + t);
        if s.len() > 0 {
            lemma_like_literal(u.drop_first(), rest, s.drop_first());
            if u.len() <= s.len() {
                assert(s.drop_first().skip(u.len() - 1) =~= s.skip(u.len() as int));
                lemma_folded_first(s.take(u.len() as int), u);
                assert(s.take(u.len() as int).drop_first() =~= s.drop_first().take(u.len() - 1));
            }
        }
        if is_pattern_special(c) {
            assert(p.drop_first().drop_first() =~= t);
        } else {
            assert(p.drop_first() =~= t);
        }
    }
}

/// `%` matches every text.
proof fn lemma_like_any(s: Seq<char>)
    ensures
        like_match(seq!['%'], s),
    decreases s.len(),
{
    let p = seq!['%'];
    assert(p[0] == '%');
    assert(p.drop_first() =~= Seq::<char>::empty());
    if s.len() > 0 {
        lemma_like_any(s.drop_first());
        assert(like_match(p, s.drop_first()));
    } else {
        assert(like_match(p.drop_first(), s));
    }
    assert(like_match(p, s));
}

/// A leading `%` lets the rest of the pattern match any suffix of `s`.
proof fn lemma_like_skip(p: Seq<char>, s: Seq<char>)
    ensures
        like_match(seq!['%'] + p, s) == exists|k: int| 0 <= k <= s.len() && #[trigger] like_match(p, s.skip(k)),
    decreases s.len(),
{
    let q = seq!['%'] + p;
    assert(q[0] == '%');
    assert(q.drop_first() =~= p);
    assert(s.skip(0) =~= s);
    assert(like_match(q, s) == (like_match(p, s) || (s.len() > 0 && like_match(q, s.drop_first()))));
    if like_match(q, s) {
        if like_match(p, s) {
            assert(like_match(p, s.skip(0)));
        } else {
            lemma_like_skip(p, s.drop_first());
            let k = choose|k: int| 0 <= k <= s.drop_first().len() && #[trigger] like_match(p, s.drop_first().skip(k));
            assert(s.drop_first().skip(k) =~= s.skip(k + 1));
            assert(like_match(p, s.skip(k + 1)));
        }
    }
    if exists|k: int| 0 <= k <= s.len() && #[trigger] like_match(p, s.skip(k)) {
        let k = choose|k: int| 0 <= k <= s.len() && #[trigger] like_match(p, s.skip(k));
        if k > 0 {
            lemma_like_skip(p, s.drop_first());
            assert(s.drop_first().skip(k - 1) =~= s.skip(k));
            assert(like_match(p, s.drop_first().skip(k - 1)));
            assert(like_match(q, s.drop_first()));
        }
    }
}

/// The pattern of a substring search for `u`: `%`, the escaped term, `%`.
pub open spec fn contains_pattern(u: Seq<char>) -> Seq<char> {
    seq!['%'] + escape_spec(u) + seq!['%']
}

/// Law: the pattern of a substring search for `u` matches exactly the
/// texts that hold `u` up to ASCII case; no character of `u` acts as a
/// wildcard.
pub proof fn lemma_contains_pattern(u: Seq<char>, s: Seq<char>)
    ensures
        like_match(contains_pattern(u), s) == contains_folded(s, u),
{
    let x = escape_spec(u) + seq!['%'];
    assert(contains_pattern(u) =~= seq!['%'] + x);
    lemma_like_skip(x, s);
    if like_match(contains_pattern(u), s) {
        let k = choose|k: int| 0 <= k <= s.len() && #[trigger] like_match(x, s.skip(k));
        lemma_like_literal(u, seq!['%'], s.skip(k));
        assert(s.skip(k).take(u.len() as int) =~= s.subrange(k, k + u.len()));
    }
    if contains_folded(s, u) {
        let k = choose|k: int| 0 <= k && k + u.len() <= s.len() && #[trigger] same_folded(s.subrange(k, k + u.len()), u);
        lemma_like_literal(u, seq!['%'], s.skip(k));
        assert(s.skip(k).take(u.len() as int) =~= s.subrange(k, k + u.len()));
        lemma_like_any(s.skip(k).skip(u.len() as int));
        assert(like_match(x, s.skip(k)));
    }
}

/// A list stored comma-joined, wrapped in commas as the filters read it:
/// every item then stands between two commas.
pub open spec fn comma_wrapped(items: Seq<Seq<char>>) -> Seq<char> {
    seq![','] + join_spec(items, seq![',']) + seq![',']
}

/// The pattern of a whole-token search for `t` in a comma-wrapped list:
/// `%,`, the escaped term, `,%`.
pub open spec fn token_pattern_spec(t: Seq<char>) -> Seq<char> {
    seq!['%', ','] + escape_spec(t) + seq![',', '%']
}

proof fn lemma_wrapped_step(items: Seq<Seq<char>>)
    requires
        items.len() >= 2,
    ensures
        comma_wrapped(items) == comma_wrapped(items.drop_last()) + items.last() + seq![','],
{
    assert(comma_wrapped(items) =~= comma_wrapped(items.drop_last()) + items.last() + seq![',']);
}

/// A run of `n >= 1` characters without commas, with a comma on each
/// side, inside a comma-wrapped list of comma-free items is one of the
/// items.
proof fn lemma_window_is_item(items: Seq<Seq<char>>, k: int, n: int)
    requires
        items.len() > 0,
        forall|i: int| 0 <= i < items.len() ==> !(#[trigger] items[i]).contains(','),
        n >= 1,
        0 <= k,
        k + n + 2 <= comma_wrapped(items).len(),
        comma_wrapped(items)[k] == ',',
        comma_wrapped(items)[k + n + 1] == ',',
        forall|j: int| 1 <= j <= n ==> #[trigger] comma_wrapped(items)[k + j] != ',',
    ensures
        exists|i: int| 0 <= i < items.len() && comma_wrapped(items).subrange(k + 1, k + n + 1) == #[trigger] items[i],
    decreases items.len(),
{
    let w = comma_wrapped(items);
    let a = items.last();
    if items.len() == 1 {
        assert(join_spec(items, seq![',']) == a);
        assert(w =~= seq![','] + a + seq![',']);
        assert(!a.contains(','));
        if k > 0 {
            assert(w[k] == a[k - 1]);
            assert(a.contains(','));
        }
        if n < a.len() {
            assert(w[n + 1] == a[n]);
            assert(a.contains(','));
        }
        assert(w.subrange(1, n + 1) =~= a);
        assert(items[0] == a);
    } else {
        let init = items.drop_last();
        let v = comma_wrapped(init);
        let m = v.len() as int;
        lemma_wrapped_step(items);
        assert(w =~= v + a + seq![',']);
        assert(!items[items.len() - 1].contains(','));
        assert(v[m - 1] == ',');
        assert(w[m - 1] == ',');
        if k + n + 1 <= m - 1 {
            assert forall|i: int| 0 <= i < init.len() implies !(#[trigger] init[i]).contains(',') by {
                assert(init[i] == items[i]);
            }
            assert forall|j: int| 1 <= j <= n implies #[trigger] v[k + j] != ',' by {
                assert(v[k + j] == w[k + j]);
            }
            assert(v[k] == w[k]);
            assert(v[k + n + 1] == w[k + n + 1]);
            lemma_window_is_item(init, k, n);
            let i = choose|i: int| 0 <= i < init.len() && v.subrange(k + 1, k + n + 1) == #[trigger] init[i];
            assert(w.subrange(k + 1, k + n + 1) =~= v.subrange(k + 1, k + n + 1));
            assert(items[i] == init[i]);
        } else if k < m - 1 {
            assert(w[k + (m - 1 - k)] != ',');
        } else {
            if k >= m {
                assert(w[k] == a[k - m]);
                assert(a.contains(','));
            }
            assert(k == m - 1);
            if n < a.len() {
                assert(w[k + n + 1] == a[n]);
                assert(a.contains(','));
            }
            assert(w.subrange(k + 1, k + n + 1) =~= a);
            assert(items[items.len() - 1] == a);
        }
    }
}

/// Every item of a comma-wrapped list stands between two commas in it.
proof fn lemma_item_window(items: Seq<Seq<char>>, i: int)
    requires
        0 <= i < items.len(),
    ensures
        exists|k: int|
            0 <= k && k + items[i].len() + 2 <= comma_wrapped(items).len() && #[trigger] comma_wrapped(
                items,
            ).subrange(k, k + items[i].len() + 2) == seq![','] + items[i] + seq![','],
    decreases items.len(),
{
    let w = comma_wrapped(items);
    let a = items.last();
    if items.len() == 1 {
        assert(join_spec(items, seq![',']) == a);
        let k0: int = 0;
        assert(w.subrange(k0, k0 + items[i].len() + 2) =~= seq![','] + items[i] + seq![',']);
    } else {
        let init = items.drop_last();
        let v = comma_wrapped(init);
        let m = v.len() as int;
        lemma_wrapped_step(items);
        assert(w =~= v + a + seq![',']);
        if i == items.len() - 1 {
            assert(v[m - 1] == ',');
            assert(items[i] == a);
            assert(w.subrange(m - 1, m - 1 + items[i].len() + 2) =~= seq![','] + a + seq![',']);
        } else {
            assert(init[i] == items[i]);
            lemma_item_window(init, i);
            let k = choose|k: int|
                0 <= k && k + init[i].len() + 2 <= v.len() && #[trigger] v.subrange(k, k + init[i].len() + 2)
                    == seq![','] + init[i] + seq![','];
            assert(w.subrange(k, k + items[i].len() + 2) =~= v.subrange(k, k + init[i].len() + 2));
        }
    }
}

proof fn lemma_fold_comma(c: char)
    ensures
        (fold(c) == fold(',')) == (c == ','),
{
}

proof fn lemma_folded_concat(a: Seq<char>, b: Seq<char>)
    ensures
        folded(a + b) == folded(a) + folded(b),
{
    assert(folded(a + b) =~= folded(a) + folded(b));
}

/// Law: the whole-token pattern for a non-empty, comma-free `t` matches a
/// comma-wrapped list of comma-free items exactly when one of the items
/// equals `t` up to ASCII case: a part of an item (`mai` of `main`), a
/// run across items, or a wildcard in `t` never selects.
pub proof fn lemma_token_pattern(t: Seq<char>, items: Seq<Seq<char>>)
    requires
        t.len() > 0,
        !t.contains(','),
        forall|i: int| 0 <= i < items.len() ==> !(#[trigger] items[i]).contains(','),
    ensures
        like_match(token_pattern_spec(t), comma_wrapped(items)) == exists|i: int|
            0 <= i < items.len() && #[trigger] same_folded(items[i], t),
{
    let c = seq![','];
    let v = c + t + c;
    let w = comma_wrapped(items);
    let n = t.len() as int;
    lemma_escape_concat(c + t, c);
    lemma_escape_concat(c, t);
    assert(escape_spec(c) =~= c) by {
        assert(c[0] == ',');
        assert(c.drop_first() =~= Seq::<char>::empty());
        assert(escape_spec(c.drop_first()) == Seq::<char>::empty());
        assert(escaped_char(',') == c);
    }
    assert(token_pattern_spec(t) =~= contains_pattern(v));
    lemma_contains_pattern(v, w);
    lemma_folded_concat(c + t, c);
    lemma_folded_concat(c, t);
    if contains_folded(w, v) {
        let k = choose|k: int| 0 <= k && k + v.len() <= w.len() && #[trigger] same_folded(w.subrange(k, k + v.len()), v);
        let x = w.subrange(k, k + n + 2);
        assert(folded(x)[0] == folded(v)[0]);
        lemma_fold_comma(w[k]);
        assert(folded(x)[n + 1] == folded(v)[n + 1]);
        lemma_fold_comma(w[k + n + 1]);
        assert forall|j: int| 1 <= j <= n implies #[trigger] w[k + j] != ',' by {
            assert(folded(x)[j] == folded(v)[j]);
            assert(v[j] == t[j - 1]);
            lemma_fold_comma(w[k + j]);
            lemma_fold_comma(t[j - 1]);
        }
        if items.len() == 0 {
            assert(w =~= seq![',', ',']);
        }
        lemma_window_is_item(items, k, n);
        let i = choose|i: int| 0 <= i < items.len() && w.subrange(k + 1, k + n + 1) == #[trigger] items[i];
        assert(folded(items[i]) =~= folded(t)) by {
            assert forall|j: int| 0 <= j < n implies folded(items[i])[j] == folded(t)[j] by {
                assert(folded(x)[j + 1] == folded(v)[j + 1]);
                assert(x[j + 1] == items[i][j]);
                assert(v[j + 1] == t[j]);
            }
        }
        assert(same_folded(items[i], t));
    }
    if exists|i: int| 0 <= i < items.len() && #[trigger] same_folded(items[i], t) {
        let i = choose|i: int| 0 <= i < items.len() && #[trigger] same_folded(items[i], t);
        let y = items[i];
        lemma_item_window(items, i);
        let k = choose|k: int|
            0 <= k && k + y.len() + 2 <= w.len() && #[trigger] w.subrange(k, k + y.len() + 2) == c + y + c;
        assert(folded(y).len() == y.len());
        assert(folded(t).len() == t.len());
        lemma_folded_concat(c + y, c);
        lemma_folded_concat(c, y);
        assert(same_folded(w.subrange(k, k + v.len()), v));
        assert(contains_folded(w, v));
    }
}

/// Appends `term` escaped to `r`.
fn push_escaped(r: &mut String, term: &str)
    ensures
        final(r)@ == old(r)@ + escape_spec(term@),
{
    let e = like_escape(term);
    r.append(e.as_str());
}

/// The pattern of a substring search for `term`: `%`, the escaped term,
/// `%`.
pub fn contains_pattern_of(term: &str) -> (r: String)
    ensures
        r@ == contains_pattern(term@),
{
    let mut r = String::new();
    r.push('%');
    push_escaped(&mut r, term);
    r.push('%');
    assert(r@ =~= contains_pattern(term@));
    r
}

/// The pattern of a whole-token search for `term` in a comma-wrapped
/// list: `%,`, the escaped term, `,%`.
pub fn token_pattern_of(term: &str) -> (r: String)
    ensures
        r@ == token_pattern_spec(term@),
{
    let mut r = String::new();
    r.push('%');
    r.push(',');
    push_escaped(&mut r, term);
    r.push(',');
    r.push('%');
    assert(r@ =~= token_pattern_spec(term@));
    r
}

} // verus!
