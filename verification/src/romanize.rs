//! Deterministic character substitution: a fixed table that maps CJK
//! punctuation code points to ASCII or Latin-1 equivalents. The same
//! substitution must run on extraction-time and injection-time key
//! generation whenever it is enabled, so that the two passes agree on keys.

use vstd::prelude::*;

use crate::text::push_char;

verus! {

/// The substitution table, one character at a time. Every character maps to
/// itself except the listed punctuation; the horizontal ellipsis expands to
/// three periods.
pub open spec fn romanize_char(c: char) -> Seq<char> {
    match c {
        '\u{3002}' => seq!['.'],
        '\u{3001}' => seq![','],
        '\u{30FB}' => seq!['\u{00B7}'],
        '\u{30A0}' => seq!['\u{2013}'],
        '\u{FF1D}' => seq!['\u{2014}'],
        '\u{2026}' => seq!['.', '.', '.'],
        '\u{300C}' | '\u{300D}' | '\u{3008}' | '\u{3009}' => seq!['\''],
        '\u{300E}' | '\u{300F}' | '\u{300A}' | '\u{300B}' => seq!['"'],
        '\u{FF08}' | '\u{3014}' | '\u{FF5F}' | '\u{3018}' => seq!['('],
        '\u{FF09}' | '\u{3015}' | '\u{FF60}' | '\u{3019}' => seq![')'],
        '\u{FF5B}' => seq!['{'],
        '\u{FF5D}' => seq!['}'],
        '\u{FF3B}' | '\u{3010}' | '\u{3016}' | '\u{301A}' => seq!['['],
        '\u{FF3D}' | '\u{3011}' | '\u{3017}' | '\u{301B}' => seq![']'],
        '\u{301C}' => seq!['~'],
        '\u{FF1F}' => seq!['?'],
        _ => seq![c],
    }
}

/// The romanized form of a text: each character replaced by its table entry.
pub open spec fn spec_romanize(s: Seq<char>) -> Seq<char>
    decreases s.len(),
{
    if s.len() == 0 {
        Seq::empty()
    } else {
        romanize_char(s[0]) + spec_romanize(s.drop_first())
    }
}

fn push_romanized(r: &mut String, c: char)
    ensures
        final(r)@ == old(r)@ + romanize_char(c),
{
    if c == '\u{3002}' {
        push_char(r, '.');
    } else if c == '\u{3001}' {
        push_char(r, ',');
    } else if c == '\u{30FB}' {
        push_char(r, '\u{00B7}');
    } else if c == '\u{30A0}' {
        push_char(r, '\u{2013}');
    } else if c == '\u{FF1D}' {
        push_char(r, '\u{2014}');
    } else if c == '\u{2026}' {
        push_char(r, '.');
        push_char(r, '.');
        push_char(r, '.');
        assert(r@ =~= old(r)@ + romanize_char(c));
        return ;
    } else if c == '\u{300C}' || c == '\u{300D}' || c == '\u{3008}' || c == '\u{3009}' {
        push_char(r, '\'');
    } else if c == '\u{300E}' || c == '\u{300F}' || c == '\u{300A}' || c == '\u{300B}' {
        push_char(r, '"');
    } else if c == '\u{FF08}' || c == '\u{3014}' || c == '\u{FF5F}' || c == '\u{3018}' {
        push_char(r, '(');
    } else if c == '\u{FF09}' || c == '\u{3015}' || c == '\u{FF60}' || c == '\u{3019}' {
        push_char(r, ')');
    } else if c == '\u{FF5B}' {
        push_char(r, '{');
    } else if c == '\u{FF5D}' {
        push_char(r, '}');
    } else if c == '\u{FF3B}' || c == '\u{3010}' || c == '\u{3016}' || c == '\u{301A}' {
        push_char(r, '[');
    } else if c == '\u{FF3D}' || c == '\u{3011}' || c == '\u{3017}' || c == '\u{301B}' {
        push_char(r, ']');
    } else if c == '\u{301C}' {
        push_char(r, '~');
    } else if c == '\u{FF1F}' {
        push_char(r, '?');
    } else {
        push_char(r, c);
    }
    assert(r@ =~= old(r)@ + romanize_char(c));
}

/// Applies the substitution table to every character of the string.
pub fn romanize_string(s: &str) -> (r: String)
    ensures
        r@ == spec_romanize(s@),
{
    let n: usize = s.unicode_len();
    let mut r = String::new();
    let mut i: usize = 0;
    proof {
        assert(s@.skip(0) =~= s@);
        assert(Seq::<char>::empty() + spec_romanize(s@) =~= spec_romanize(s@));
    }
    while i < n
        invariant
            n == s@.len(),
            0 <= i <= n,
            spec_romanize(s@) == r@ + spec_romanize(s@.skip(i as int)),
        decreases n - i,
    {
        let c = s.get_char(i);
        proof {
            assert(s@.skip(i as int).drop_first() =~= s@.skip(i as int + 1));
            assert(s@.skip(i as int)[0] == s@[i as int]);
        }
        let ghost r0 = r@;
        push_romanized(&mut r, c);
        proof {
            assert(r@ + spec_romanize(s@.skip(i as int + 1)) =~= r0 + spec_romanize(
                s@.skip(i as int),
            )) by {
                assert(spec_romanize(s@.skip(i as int)) == romanize_char(s@[i as int])
                    + spec_romanize(s@.skip(i as int + 1)));
            }
        }
        i += 1;
    }
    proof {
        assert(s@.skip(n as int) =~= Seq::<char>::empty());
        assert(r@ + Seq::<char>::empty() =~= r@);
    }
    r
}

} // verus!
