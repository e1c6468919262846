//! Verified text primitives: character-level string building, equality,
//! trimming, newline splitting and joining, substring search and replacement,
//! and the two-character escape token that keeps one logical unit per line in
//! pool files.

use vstd::prelude::*;

verus! {

/// Relies on String::push: appends exactly one character to the string.
#[verifier::external_body]
pub fn push_char(s: &mut String, c: char)
    ensures
        final(s)@ == old(s)@.push(c),
{
    s.push(c);
}

/// Appends every character of `p` to `s`.
pub fn push_str_chars(s: &mut String, p: &str)
    ensures
        final(s)@ == old(s)@ + p@,
{
    let n: usize = p.unicode_len();
    let mut i: usize = 0;
    while i < n
        invariant
            n == p@.len(),
            0 <= i <= n,
            s@ == old(s)@ + p@.take(i as int),
        decreases n - i,
    {
        let c = p.get_char(i);
        push_char(s, c);
        assert(old(s)@ + p@.take(i as int + 1) =~= (old(s)@ + p@.take(i as int)).push(p@[i as int]));
        i += 1;
    }
    assert(old(s)@ + p@.take(n as int) =~= old(s)@ + p@);
}

/// Character-for-character equality of two string slices.
pub fn str_eq(a: &str, b: &str) -> (r: bool)
    ensures
        r == (a@ == b@),
{
    let n: usize = a.unicode_len();
    let m: usize = b.unicode_len();
    if n != m {
        return false;
    }
    let mut i: usize = 0;
    while i < n
        invariant
            n == a@.len(),
            n == b@.len(),
            0 <= i <= n,
            forall|j: int| 0 <= j < i ==> a@[j] == b@[j],
        decreases n - i,
    {
        if a.get_char(i) != b.get_char(i) {
            return false;
        }
        i += 1;
    }
    proof {
        assert(a@ =~= b@);
    }
    true
}

/// The whitespace characters that trimming removes; the set matches the
/// Unicode white space property that the standard library's trim uses.
pub open spec fn is_space(c: char) -> bool {
    c == ' ' || c == '\t' || c == '\n' || c == '\r' || c == '\u{000B}' || c == '\u{000C}' || c
        == '\u{0085}' || c == '\u{00A0}' || c == '\u{1680}' || ('\u{2000}' <= c && c <= '\u{200A}')
        || c == '\u{2028}' || c == '\u{2029}' || c == '\u{202F}' || c == '\u{205F}' || c
        == '\u{3000}'
}

pub fn is_space_char(c: char) -> (r: bool)
    ensures
        r == is_space(c),
{
    c == ' ' || c == '\t' || c == '\n' || c == '\r' || c == '\u{000B}' || c == '\u{000C}' || c
        == '\u{0085}' || c == '\u{00A0}' || c == '\u{1680}' || ('\u{2000}' <= c && c <= '\u{200A}')
        || c == '\u{2028}' || c == '\u{2029}' || c == '\u{202F}' || c == '\u{205F}' || c
        == '\u{3000}'
}

pub open spec fn spec_trim_start(s: Seq<char>) -> Seq<char>
    decreases s.len(),
{
    if s.len() > 0 && is_space(s[0]) {
        spec_trim_start(s.drop_first())
    } else {
        s
    }
}

pub open spec fn spec_trim_end(s: Seq<char>) -> Seq<char>
    decreases s.len(),
{
    if s.len() > 0 && is_space(s.last()) {
        spec_trim_end(s.drop_last())
    } else {
        s
    }
}

/// The trimmed form of a string: leading and trailing whitespace removed.
pub open spec fn spec_trim(s: Seq<char>) -> Seq<char> {
    spec_trim_end(spec_trim_start(s))
}

proof fn lemma_trim_start_at(s: Seq<char>, a: int)
    requires
        0 <= a <= s.len(),
        forall|j: int| 0 <= j < a ==> is_space(s[j]),
        a == s.len() || !is_space(s[a]),
    ensures
        spec_trim_start(s) == s.skip(a),
    decreases a,
{
    if a == 0 {
        assert(s.skip(0) =~= s);
    } else {
        let t = s.drop_first();
        lemma_trim_start_at(t, a - 1);
        assert(t.skip(a - 1) =~= s.skip(a));
    }
}

proof fn lemma_trim_end_at(s: Seq<char>, b: int)
    requires
        0 <= b <= s.len(),
        forall|j: int| b <= j < s.len() ==> is_space(s[j]),
        b == 0 || !is_space(s[b - 1]),
    ensures
        spec_trim_end(s) == s.take(b),
    decreases s.len() - b,
{
    if b == s.len() {
        assert(s.take(b) =~= s);
    } else {
        let t = s.drop_last();
        lemma_trim_end_at(t, b);
        assert(t.take(b) =~= s.take(b));
    }
}

/// A trimmed string neither starts nor ends with whitespace.
pub proof fn lemma_trim_stable(s: Seq<char>)
    requires
        s.len() == 0 || (!is_space(s[0]) && !is_space(s.last())),
    ensures
        spec_trim(s) == s,
{
    assert(spec_trim_start(s) == s);
    assert(spec_trim_end(s) == s);
}

/// Removes leading and trailing whitespace.
pub fn trim_str(s: &str) -> (r: String)
    ensures
        r@ == spec_trim(s@),
{
    let n: usize = s.unicode_len();
    let mut a: usize = 0;
    while a < n && is_space_char(s.get_char(a))
        invariant
            n == s@.len(),
            0 <= a <= n,
            forall|j: int| 0 <= j < a ==> is_space(s@[j]),
        decreases n - a,
    {
        a += 1;
    }
    let mut b: usize = n;
    while b > a && is_space_char(s.get_char(b - 1))
        invariant
            n == s@.len(),
            a <= b <= n,
            forall|j: int| b <= j < n ==> is_space(s@[j]),
        decreases b,
    {
        b -= 1;
    }
    proof {
        lemma_trim_start_at(s@, a as int);
        let t = s@.skip(a as int);
        assert(forall|j: int| b - a <= j < t.len() ==> is_space(#[trigger] t[j]));
        if b > a {
            assert(!is_space(t[b - a - 1]));
        }
        lemma_trim_end_at(t, b - a);
        assert(t.take(b - a) =~= s@.subrange(a as int, b as int));
    }
    let r = s.substring_char(a, b);
    r.to_owned()
}

/// The escape token that stands for an embedded newline in a pool file line:
/// a backslash followed by a number sign.
pub open spec fn escape_pair() -> Seq<char> {
    seq!['\\', '#']
}

/// Escaped form of a unit: every newline becomes the two-character token.
pub open spec fn spec_escape(s: Seq<char>) -> Seq<char>
    decreases s.len(),
{
    if s.len() == 0 {
        Seq::empty()
    } else if s[0] == '\n' {
        escape_pair() + spec_escape(s.drop_first())
    } else {
        seq![s[0]] + spec_escape(s.drop_first())
    }
}

/// Unescaped form of a pool file line: every occurrence of the two-character
/// token becomes a newline again.
pub open spec fn spec_unescape(s: Seq<char>) -> Seq<char>
    decreases s.len(),
{
    if s.len() == 0 {
        Seq::empty()
    } else if s.len() >= 2 && s[0] == '\\' && s[1] == '#' {
        seq!['\n'] + spec_unescape(s.skip(2))
    } else {
        seq![s[0]] + spec_unescape(s.drop_first())
    }
}

/// Replaces every embedded newline by the two-character escape token, so the
/// unit occupies exactly one line of a pool file.
pub fn escape_newlines(s: &str) -> (r: String)
    ensures
        r@ == spec_escape(s@),
{
    let n: usize = s.unicode_len();
    let mut r = String::new();
    let mut i: usize = 0;
    proof {
        assert(s@.skip(0) =~= s@);
        assert(Seq::<char>::empty() + spec_escape(s@) =~= spec_escape(s@));
    }
    while i < n
        invariant
            n == s@.len(),
            0 <= i <= n,
            spec_escape(s@) == r@ + spec_escape(s@.skip(i as int)),
        decreases n - i,
    {
        let c = s.get_char(i);
        proof {
            assert(s@.skip(i as int).drop_first() =~= s@.skip(i as int + 1));
            assert(s@.skip(i as int)[0] == s@[i as int]);
        }
        if c == '\n' {
            let ghost r0 = r@;
            push_char(&mut r, '\\');
            push_char(&mut r, '#');
            assert(r@ + spec_escape(s@.skip(i as int + 1)) =~= r0 + spec_escape(
                s@.skip(i as int),
            )) by {
                assert(spec_escape(s@.skip(i as int)) == escape_pair() + spec_escape(
                    s@.skip(i as int + 1),
                ));
            }
        } else {
            let ghost r0 = r@;
            push_char(&mut r, c);
            assert(r@ + spec_escape(s@.skip(i as int + 1)) =~= r0 + spec_escape(
                s@.skip(i as int),
            )) by {
                assert(spec_escape(s@.skip(i as int)) == seq![s@[i as int]] + spec_escape(
                    s@.skip(i as int + 1),
                ));
            }
        }
        i += 1;
    }
    proof {
        assert(s@.skip(n as int) =~= Seq::<char>::empty());
        assert(r@ + Seq::<char>::empty() =~= r@);
    }
    r
}

/// Turns every occurrence of the two-character escape token back into a
/// newline.
pub fn unescape_newlines(s: &str) -> (r: String)
    ensures
        r@ == spec_unescape(s@),
{
    let n: usize = s.unicode_len();
    let mut r = String::new();
    let mut i: usize = 0;
    proof {
        assert(s@.skip(0) =~= s@);
        assert(Seq::<char>::empty() + spec_unescape(s@) =~= spec_unescape(s@));
    }
    while i < n
        invariant
            n == s@.len(),
            0 <= i <= n,
            spec_unescape(s@) == r@ + spec_unescape(s@.skip(i as int)),
        decreases n - i,
    {
        let c = s.get_char(i);
        proof {
            assert(s@.skip(i as int).drop_first() =~= s@.skip(i as int + 1));
            assert(s@.skip(i as int)[0] == s@[i as int]);
            if i + 1 < n {
                assert(s@.skip(i as int)[1] == s@[i as int + 1]);
                assert(s@.skip(i as int).skip(2) =~= s@.skip(i as int + 2));
            }
        }
        if c == '\\' && i + 1 < n && s.get_char(i + 1) == '#' {
            let ghost r0 = r@;
            push_char(&mut r, '\n');
            assert(r@ + spec_unescape(s@.skip(i as int + 2)) =~= r0 + spec_unescape(
                s@.skip(i as int),
            )) by {
                assert(spec_unescape(s@.skip(i as int)) == seq!['\n'] + spec_unescape(
                    s@.skip(i as int + 2),
                ));
            }
            i += 2;
        } else {
            let ghost r0 = r@;
            push_char(&mut r, c);
            assert(r@ + spec_unescape(s@.skip(i as int + 1)) =~= r0 + spec_unescape(
                s@.skip(i as int),
            )) by {
                assert(s@.skip(i as int).len() < 2 || s@.skip(i as int)[0] != '\\' || s@.skip(
                    i as int,
                )[1] != '#');
                assert(spec_unescape(s@.skip(i as int)) == seq![s@[i as int]] + spec_unescape(
                    s@.skip(i as int + 1),
                ));
            }
            i += 1;
        }
    }
    proof {
        assert(s@.skip(n as int) =~= Seq::<char>::empty());
        assert(r@ + Seq::<char>::empty() =~= r@);
    }
    r
}

/// A unit whose text never holds the escape token itself unescapes from its
/// escaped form to exactly the original text.
pub proof fn lemma_escape_round_trip(s: Seq<char>)
    requires
        forall|i: int|
            0 <= i < s.len() - 1 ==> !(s[i] == '\\' && #[trigger] s[i + 1] == '#'),
    ensures
        spec_unescape(spec_escape(s)) == s,
    decreases s.len(),
{
    if s.len() == 0 {
        assert(spec_unescape(spec_escape(s)) =~= s);
    } else {
        let t = s.drop_first();
        assert(forall|i: int|
            0 <= i < t.len() - 1 ==> !(t[i] == '\\' && #[trigger] t[i + 1] == '#')) by {
            assert(forall|i: int|
                0 <= i < t.len() - 1 ==> t[i] == s[i + 1] && #[trigger] t[i + 1] == s[i + 2]);
        }
        lemma_escape_round_trip(t);
        if s[0] == '\n' {
            let e = spec_escape(s);
            assert(e == escape_pair() + spec_escape(t));
            assert(e.len() >= 2 && e[0] == '\\' && e[1] == '#');
            assert(e.skip(2) =~= spec_escape(t));
            assert(spec_unescape(e) == seq!['\n'] + spec_unescape(spec_escape(t)));
            assert(seq!['\n'] + t =~= s);
        } else {
            let e = spec_escape(s);
            assert(e == seq![s[0]] + spec_escape(t));
            assert(e.len() >= 1 && e[0] == s[0]);
            if e.len() >= 2 && e[0] == '\\' && e[1] == '#' {
                // The second escaped character would have to open an escape
                // token inside the original text, which the premise forbids.
                assert(s[0] == '\\');
                let et = spec_escape(t);
                assert(et.len() >= 1 && et[0] == '#');
                assert(t.len() >= 1);
                if t[0] == '\n' {
                    assert(et[0] == '\\');
                    assert(false);
                } else {
                    assert(et[0] == t[0]);
                    assert(s[1] == '#');
                    assert(false);
                }
            }
            assert(e.drop_first() =~= spec_escape(t));
            assert(spec_unescape(e) == seq![s[0]] + spec_unescape(spec_escape(t)));
            assert(seq![s[0]] + t =~= s);
        }
    }
}


/// The views of a vector of strings, one character sequence per element.
pub open spec fn views(v: Seq<String>) -> Seq<Seq<char>> {
    v.map_values(|x: String| x@)
}

/// Splitting on a separator, defined one character at a time: an empty text
/// is one empty piece; a leading separator opens a new empty piece; any other
/// leading character extends the first piece of the rest.
pub open spec fn spec_split(s: Seq<char>, sep: char) -> Seq<Seq<char>>
    decreases s.len(),
{
    if s.len() == 0 {
        seq![Seq::<char>::empty()]
    } else if s[0] == sep {
        seq![Seq::<char>::empty()] + spec_split(s.drop_first(), sep)
    } else {
        let rest = spec_split(s.drop_first(), sep);
        seq![seq![s[0]] + rest[0]] + rest.drop_first()
    }
}

pub proof fn lemma_split_len(s: Seq<char>, sep: char)
    ensures
        spec_split(s, sep).len() >= 1,
    decreases s.len(),
{
    if s.len() == 0 {
    } else {
        lemma_split_len(s.drop_first(), sep);
    }
}

/// Joining pieces with a separator between consecutive pieces.
pub open spec fn spec_join(parts: Seq<Seq<char>>, sep: char) -> Seq<char>
    decreases parts.len(),
{
    if parts.len() == 0 {
        Seq::empty()
    } else if parts.len() == 1 {
        parts[0]
    } else {
        parts[0] + seq![sep] + spec_join(parts.drop_first(), sep)
    }
}

/// Joining one more piece appends a separator and that piece.
pub proof fn lemma_join_take_step(parts: Seq<Seq<char>>, sep: char, i: int)
    requires
        1 <= i < parts.len(),
    ensures
        spec_join(parts.take(i + 1), sep) == spec_join(parts.take(i), sep) + seq![sep]
            + parts[i],
    decreases i,
{
    if i == 1 {
        let t2 = parts.take(2);
        assert(t2.len() == 2);
        assert(t2.drop_first() =~= seq![parts[1]]);
        assert(t2[0] == parts[0]);
        assert(spec_join(seq![parts[1]], sep) == parts[1]);
        assert(spec_join(t2, sep) == parts[0] + seq![sep] + parts[1]);
        assert(parts.take(1) =~= seq![parts[0]]);
        assert(spec_join(parts.take(1), sep) == parts[0]);
    } else {
        let q = parts.drop_first();
        lemma_join_take_step(q, sep, i - 1);
        assert(parts.take(i + 1).drop_first() =~= q.take(i));
        assert(parts.take(i).drop_first() =~= q.take(i - 1));
        assert(parts.take(i + 1)[0] == parts[0]);
        assert(parts.take(i)[0] == parts[0]);
        assert(q[i - 1] == parts[i]);
        assert(spec_join(parts.take(i + 1), sep) == parts[0] + seq![sep] + spec_join(
            q.take(i),
            sep,
        ));
        assert(spec_join(parts.take(i), sep) == parts[0] + seq![sep] + spec_join(
            q.take(i - 1),
            sep,
        ));
        assert((parts[0] + seq![sep] + (spec_join(q.take(i - 1), sep) + seq![sep] + parts[i]))
            =~= (parts[0] + seq![sep] + spec_join(q.take(i - 1), sep)) + seq![sep] + parts[i]);
    }
}

/// Splitting a text that holds no separator gives that text as the one piece.
pub proof fn lemma_split_no_sep(s: Seq<char>, sep: char)
    requires
        forall|j: int| 0 <= j < s.len() ==> s[j] != sep,
    ensures
        spec_split(s, sep) == seq![s],
    decreases s.len(),
{
    if s.len() == 0 {
        assert(spec_split(s, sep) =~~= seq![s]);
    } else {
        let t = s.drop_first();
        lemma_split_no_sep(t, sep);
        assert(seq![seq![s[0]] + t] =~= seq![s]) by {
            assert(seq![s[0]] + t =~= s);
        }
        assert(seq![t].drop_first() =~= Seq::<Seq<char>>::empty());
        assert(spec_split(s, sep) =~= seq![seq![s[0]] + t]);
        assert(spec_split(s, sep) =~= seq![s]);
    }
}

proof fn lemma_split_after_prefix(a: Seq<char>, t: Seq<char>, sep: char)
    requires
        forall|j: int| 0 <= j < a.len() ==> a[j] != sep,
    ensures
        spec_split(a + seq![sep] + t, sep) == seq![a] + spec_split(t, sep),
    decreases a.len(),
{
    let s = a + seq![sep] + t;
    if a.len() == 0 {
        assert(s.len() > 0 && s[0] == sep);
        assert(s.drop_first() =~= t);
        assert(spec_split(s, sep) == seq![Seq::<char>::empty()] + spec_split(t, sep));
        assert(seq![Seq::<char>::empty()] =~~= seq![a]);
    } else {
        let a2 = a.drop_first();
        lemma_split_after_prefix(a2, t, sep);
        assert(s[0] == a[0]);
        assert(s[0] != sep);
        assert(s.drop_first() =~= a2 + seq![sep] + t);
        let rest = spec_split(a2 + seq![sep] + t, sep);
        assert(rest == seq![a2] + spec_split(t, sep));
        assert(rest[0] == a2);
        assert(rest.drop_first() =~= spec_split(t, sep));
        assert(spec_split(s, sep) == seq![seq![s[0]] + a2] + spec_split(t, sep));
        assert(seq![s[0]] + a2 =~= a);
        assert(spec_split(s, sep) =~= seq![a] + spec_split(t, sep));
    }
}

/// Splitting the join of one or more pieces that hold no separator gives the
/// pieces back unchanged.
pub proof fn lemma_split_join(parts: Seq<Seq<char>>, sep: char)
    requires
        parts.len() >= 1,
        forall|i: int, j: int|
            0 <= i < parts.len() && 0 <= j < parts[i].len() ==> #[trigger] parts[i][j] != sep,
    ensures
        spec_split(spec_join(parts, sep), sep) == parts,
    decreases parts.len(),
{
    if parts.len() == 1 {
        assert(spec_join(parts, sep) == parts[0]);
        lemma_split_no_sep(parts[0], sep);
        assert(seq![parts[0]] =~= parts);
    } else {
        let rest = parts.drop_first();
        lemma_split_join(rest, sep);
        assert(spec_join(parts, sep) == parts[0] + seq![sep] + spec_join(rest, sep));
        lemma_split_after_prefix(parts[0], spec_join(rest, sep), sep);
        assert(seq![parts[0]] + rest =~= parts);
    }
}

/// Splits on a separator character; the result always has at least one
/// element.
pub fn split_char(s: &str, sep: char) -> (r: Vec<String>)
    ensures
        views(r@) == spec_split(s@, sep),
        r@.len() >= 1,
{
    let n: usize = s.unicode_len();
    let mut out: Vec<String> = Vec::new();
    let mut cur = String::new();
    let mut i: usize = 0;
    proof {
        assert(s@.skip(0) =~= s@);
        lemma_split_len(s@, sep);
        assert(views(out@).push(cur@) =~= seq![cur@]);
        let ps = spec_split(s@, sep);
        assert(seq![cur@ + ps[0]] + ps.drop_first() =~= ps) by {
            assert(cur@ + ps[0] =~= ps[0]);
        }
    }
    while i < n
        invariant
            n == s@.len(),
            0 <= i <= n,
            spec_split(s@, sep).len() >= 1,
            spec_split(s@.skip(i as int), sep).len() >= 1,
            spec_split(s@, sep) == views(out@) + seq![
                cur@ + spec_split(s@.skip(i as int), sep)[0],
            ] + spec_split(s@.skip(i as int), sep).drop_first(),
        decreases n - i,
    {
        let c = s.get_char(i);
        proof {
            assert(s@.skip(i as int).drop_first() =~= s@.skip(i as int + 1));
            assert(s@.skip(i as int)[0] == s@[i as int]);
            lemma_split_len(s@.skip(i as int + 1), sep);
        }
        let ghost suffix_parts = spec_split(s@.skip(i as int + 1), sep);
        if c == sep {
            proof {
                assert(spec_split(s@.skip(i as int), sep) == seq![Seq::<char>::empty()]
                    + suffix_parts);
                assert(spec_split(s@.skip(i as int), sep)[0] =~= Seq::<char>::empty());
                assert(spec_split(s@.skip(i as int), sep).drop_first() =~= suffix_parts);
            }
            let ghost out0 = out@;
            let ghost cur0 = cur@;
            out.push(cur);
            cur = String::new();
            proof {
                assert(views(out@) =~= views(out0).push(cur0));
                assert(cur0 + Seq::<char>::empty() =~= cur0);
                assert(views(out0).push(cur0) + seq![cur@ + suffix_parts[0]]
                    + suffix_parts.drop_first() =~= views(out0) + seq![cur0] + seq![
                    cur@ + suffix_parts[0],
                ] + suffix_parts.drop_first()) by {
                    assert(cur@ + suffix_parts[0] =~= suffix_parts[0]);
                }
                assert(seq![cur@ + suffix_parts[0]] + suffix_parts.drop_first() =~= suffix_parts) by {
                    assert(cur@ + suffix_parts[0] =~= suffix_parts[0]);
                }
                assert(views(out0) + seq![cur0] + suffix_parts =~= views(out0) + seq![
                    cur0 + spec_split(s@.skip(i as int), sep)[0],
                ] + spec_split(s@.skip(i as int), sep).drop_first());
            }
        } else {
            proof {
                assert(spec_split(s@.skip(i as int), sep) == seq![
                    seq![s@[i as int]] + suffix_parts[0],
                ] + suffix_parts.drop_first());
            }
            let ghost cur0 = cur@;
            push_char(&mut cur, c);
            proof {
                assert(cur@ =~= cur0.push(s@[i as int]));
                assert(cur@ + suffix_parts[0] =~= cur0 + (seq![s@[i as int]] + suffix_parts[0]));
                assert(cur0 + spec_split(s@.skip(i as int), sep)[0] =~= cur@ + suffix_parts[0]);
                assert(spec_split(s@.skip(i as int), sep).drop_first() =~= suffix_parts.drop_first());
            }
        }
        i += 1;
    }
    proof {
        assert(s@.skip(n as int) =~= Seq::<char>::empty());
        assert(spec_split(Seq::<char>::empty(), sep) =~= seq![Seq::<char>::empty()]);
        assert(cur@ + Seq::<char>::empty() =~= cur@);
        assert(spec_split(s@, sep) =~= views(out@).push(cur@)) by {
            assert(seq![Seq::<char>::empty()].drop_first() =~= Seq::<Seq<char>>::empty());
            assert(views(out@) + seq![cur@] + Seq::<Seq<char>>::empty() =~= views(out@).push(cur@));
            assert(spec_split(s@, sep) == views(out@) + seq![cur@] + Seq::<Seq<char>>::empty());
        }
    }
    let ghost out0 = out@;
    out.push(cur);
    proof {
        assert(views(out@) =~= views(out0).push(out@.last()@));
    }
    out
}

/// Joins pieces with a separator character between consecutive pieces.
pub fn join_char(parts: &Vec<String>, sep: char) -> (r: String)
    ensures
        r@ == spec_join(views(parts@), sep),
{
    let n = parts.len();
    let mut r = String::new();
    if n == 0 {
        return r;
    }
    push_str_chars(&mut r, parts[0].as_str());
    proof {
        assert(views(parts@).take(1) =~= seq![parts@[0]@]);
        assert(Seq::<char>::empty() + parts@[0]@ =~= parts@[0]@);
    }
    let mut i: usize = 1;
    while i < n
        invariant
            n == parts@.len(),
            1 <= i <= n,
            r@ == spec_join(views(parts@).take(i as int), sep),
        decreases n - i,
    {
        let ghost r0 = r@;
        push_char(&mut r, sep);
        push_str_chars(&mut r, parts[i].as_str());
        proof {
            lemma_join_take_step(views(parts@), sep, i as int);
            assert(views(parts@)[i as int] == parts@[i as int]@);
            assert(r@ =~= r0 + seq![sep] + parts@[i as int]@);
        }
        i += 1;
    }
    proof {
        assert(views(parts@).take(n as int) =~= views(parts@));
    }
    r
}

/// The pattern occurs in `s` at position `i`.
pub open spec fn spec_has_sub_at(s: Seq<char>, p: Seq<char>, i: int) -> bool {
    0 <= i && i + p.len() <= s.len() && s.subrange(i, i + p.len()) == p
}

/// The position of the first occurrence of `p` in `s`, if any.
pub open spec fn spec_find_sub(s: Seq<char>, p: Seq<char>) -> Option<int>
    decreases s.len(),
{
    if spec_has_sub_at(s, p, 0) {
        Some(0int)
    } else if s.len() == 0 {
        None
    } else {
        match spec_find_sub(s.drop_first(), p) {
            Some(i) => Some(i + 1),
            None => None,
        }
    }
}

/// The first occurrence is an occurrence, is the earliest one, and is absent
/// exactly when no occurrence exists.
pub proof fn lemma_find_sub_char(s: Seq<char>, p: Seq<char>)
    ensures
        match spec_find_sub(s, p) {
            Some(i) => spec_has_sub_at(s, p, i) && forall|j: int|
                0 <= j < i ==> !spec_has_sub_at(s, p, j),
            None => forall|j: int| !spec_has_sub_at(s, p, j),
        },
    decreases s.len(),
{
    if spec_has_sub_at(s, p, 0) {
    } else if s.len() == 0 {
        assert(forall|j: int| !spec_has_sub_at(s, p, j)) by {
            assert(forall|j: int| spec_has_sub_at(s, p, j) ==> j == 0);
        }
    } else {
        let t = s.drop_first();
        lemma_find_sub_char(t, p);
        assert(forall|j: int| spec_has_sub_at(s, p, j) && j >= 1 ==> spec_has_sub_at(
            t,
            p,
            j - 1,
        )) by {
            assert(forall|j: int|
                spec_has_sub_at(s, p, j) && j >= 1 ==> t.subrange(j - 1, j - 1 + p.len()) =~= s.subrange(
                    j,
                    j + p.len(),
                ));
        }
        assert(forall|j: int| spec_has_sub_at(t, p, j) ==> spec_has_sub_at(s, p, j + 1)) by {
            assert(forall|j: int|
                spec_has_sub_at(t, p, j) ==> s.subrange(j + 1, j + 1 + p.len()) =~= t.subrange(
                    j,
                    j + p.len(),
                ));
        }
    }
}

/// Tests whether the pattern occurs at the given position.
pub fn match_at(s: &str, p: &str, i: usize) -> (r: bool)
    ensures
        r == spec_has_sub_at(s@, p@, i as int),
{
    let n: usize = s.unicode_len();
    let m: usize = p.unicode_len();
    if i > n || m > n - i {
        return false;
    }
    let mut k: usize = 0;
    while k < m
        invariant
            n == s@.len(),
            m == p@.len(),
            i + m <= n,
            0 <= k <= m,
            forall|j: int| 0 <= j < k ==> s@[i + j] == p@[j],
        decreases m - k,
    {
        if s.get_char(i + k) != p.get_char(k) {
            proof {
                assert(s@.subrange(i as int, i + m) != p@) by {
                    assert(s@.subrange(i as int, i + m)[k as int] == s@[i + k]);
                }
            }
            return false;
        }
        k += 1;
    }
    proof {
        assert(s@.subrange(i as int, i + m) =~= p@);
    }
    true
}

/// Finds the first occurrence of the pattern.
pub fn find_sub(s: &str, p: &str) -> (r: Option<usize>)
    ensures
        match r {
            Some(i) => Some(i as int) == spec_find_sub(s@, p@),
            None => spec_find_sub(s@, p@) is None,
        },
{
    let n: usize = s.unicode_len();
    let m: usize = p.unicode_len();
    proof {
        lemma_find_sub_char(s@, p@);
    }
    if m > n {
        proof {
            assert(forall|j: int| !spec_has_sub_at(s@, p@, j));
            if spec_find_sub(s@, p@) is Some {
                let i = spec_find_sub(s@, p@)->0;
                assert(spec_has_sub_at(s@, p@, i));
            }
        }
        return None;
    }
    if m == 0 {
        proof {
            assert(s@.subrange(0, 0) =~= p@);
            assert(spec_has_sub_at(s@, p@, 0));
        }
        return Some(0);
    }
    let mut i: usize = 0;
    while i <= n - m
        invariant
            n == s@.len(),
            m == p@.len(),
            1 <= m <= n,
            0 <= i <= n - m + 1,
            forall|j: int| 0 <= j < i ==> !spec_has_sub_at(s@, p@, j),
        decreases n - i,
    {
        if match_at(s, p, i) {
            proof {
                lemma_find_sub_char(s@, p@);
                match spec_find_sub(s@, p@) {
                    Some(k) => {
                        assert(!(k < i));
                        assert(!(i < k));
                    },
                    None => {
                        assert(spec_has_sub_at(s@, p@, i as int));
                    },
                }
            }
            return Some(i);
        }
        i += 1;
    }
    proof {
        assert(forall|j: int| !spec_has_sub_at(s@, p@, j)) by {
            assert(forall|j: int| spec_has_sub_at(s@, p@, j) ==> 0 <= j <= n - m);
        }
        lemma_find_sub_char(s@, p@);
        if spec_find_sub(s@, p@) is Some {
            let k = spec_find_sub(s@, p@)->0;
            assert(spec_has_sub_at(s@, p@, k));
        }
    }
    None
}

/// Whether the pattern occurs anywhere in `s`.
pub fn contains_sub(s: &str, p: &str) -> (r: bool)
    ensures
        r == exists|i: int| spec_has_sub_at(s@, p@, i),
{
    let f = find_sub(s, p);
    proof {
        lemma_find_sub_char(s@, p@);
    }
    match f {
        Some(i) => {
            proof {
                assert(spec_has_sub_at(s@, p@, spec_find_sub(s@, p@)->0));
            }
            true
        },
        None => false,
    }
}

/// `s` begins with `p`.
pub open spec fn spec_starts_with(s: Seq<char>, p: Seq<char>) -> bool {
    p.len() <= s.len() && s.take(p.len() as int) == p
}

/// `s` ends with `p`.
pub open spec fn spec_ends_with(s: Seq<char>, p: Seq<char>) -> bool {
    p.len() <= s.len() && s.skip(s.len() - p.len()) == p
}

pub fn starts_with_str(s: &str, p: &str) -> (r: bool)
    ensures
        r == spec_starts_with(s@, p@),
{
    let n: usize = s.unicode_len();
    let m: usize = p.unicode_len();
    if m > n {
        return false;
    }
    let r = match_at(s, p, 0);
    proof {
        assert(s@.subrange(0, p@.len() as int) =~= s@.take(p@.len() as int));
    }
    r
}

pub fn ends_with_str(s: &str, p: &str) -> (r: bool)
    ensures
        r == spec_ends_with(s@, p@),
{
    let n: usize = s.unicode_len();
    let m: usize = p.unicode_len();
    if m > n {
        return false;
    }
    let r = match_at(s, p, n - m);
    proof {
        assert(s@.subrange(n - m, n - m + p@.len()) =~= s@.skip(s@.len() - p@.len()));
    }
    r
}

/// The text with the first occurrence of `p` replaced by `t`; the text
/// unchanged when `p` does not occur.
pub open spec fn spec_replace_first(s: Seq<char>, p: Seq<char>, t: Seq<char>) -> Seq<char> {
    match spec_find_sub(s, p) {
        None => s,
        Some(i) => s.take(i) + t + s.skip(i + p.len()),
    }
}

/// Replaces the first occurrence of `p` by `t`, leaving the text unchanged
/// when `p` does not occur.
pub fn replace_first(s: &str, p: &str, t: &str) -> (r: String)
    ensures
        r@ == spec_replace_first(s@, p@, t@),
{
    let n: usize = s.unicode_len();
    let m: usize = p.unicode_len();
    match find_sub(s, p) {
        None => s.to_owned(),
        Some(i) => {
            proof {
                lemma_find_sub_char(s@, p@);
            }
            let mut r = s.substring_char(0, i).to_owned();
            proof {
                assert(s@.subrange(0, i as int) =~= s@.take(i as int));
            }
            push_str_chars(&mut r, t);
            let tail_str = s.substring_char(i + m, n);
            push_str_chars(&mut r, tail_str);
            proof {
                assert(s@.subrange(i + m, n as int) =~= s@.skip(i + p@.len()));
            }
            r
        },
    }
}

} // verus!
