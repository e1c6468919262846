//! The shuffle engine: a seeded, deterministic reorder of translated
//! lines, and of the whitespace-delimited words inside one line, used to
//! check end to end that every slot really is replaced, without real
//! translations. Whatever order the generator picks, a shuffle only ever
//! permutes: the lines, or the words of a line, are the same multiset
//! afterwards, and the whitespace between words stays where it was.

use vstd::prelude::*;

use crate::text::{is_space, is_space_char, push_char, push_str_chars, views};

verus! {

/// Relies on fastrand::shuffle: it permutes the slice in place by random
/// swaps, so the elements afterwards are the elements before, reordered.
#[verifier::external_body]
fn shuffle_in_place(v: &mut Vec<String>)
    ensures
        final(v)@.len() == old(v)@.len(),
        views(final(v)@).to_multiset() == views(old(v)@).to_multiset(),
{
    fastrand::shuffle(v.as_mut_slice());
}

/// Reorders the lines of a translated pool; the result holds exactly the
/// lines it held before, as a multiset.
pub fn shuffle_lines(v: &mut Vec<String>)
    ensures
        final(v)@.len() == old(v)@.len(),
        views(final(v)@).to_multiset() == views(old(v)@).to_multiset(),
{
    shuffle_in_place(v);
}

/// The whitespace-delimited words of a text, in order: the maximal runs of
/// non-space characters.
pub open spec fn spec_words(s: Seq<char>) -> Seq<Seq<char>>
    decreases s.len(),
{
    if s.len() == 0 {
        Seq::empty()
    } else if is_space(s[0]) {
        spec_words(s.drop_first())
    } else {
        let rest = spec_words(s.drop_first());
        if s.len() >= 2 && !is_space(s[1]) {
            seq![seq![s[0]] + rest[0]] + rest.drop_first()
        } else {
            seq![seq![s[0]]] + rest
        }
    }
}

/// A gap token: whitespace only.
pub open spec fn all_space(g: Seq<char>) -> bool {
    forall|j: int| 0 <= j < g.len() ==> is_space(#[trigger] g[j])
}

/// A word token: non-empty, with no whitespace inside.
pub open spec fn word_shaped(w: Seq<char>) -> bool {
    w.len() > 0 && forall|j: int| 0 <= j < w.len() ==> !is_space(#[trigger] w[j])
}

/// The text a gap list and a word list denote: gaps and words alternate,
/// starting and ending with a gap.
pub open spec fn spec_interleave(gaps: Seq<Seq<char>>, ws: Seq<Seq<char>>) -> Seq<char>
    decreases ws.len(),
{
    if gaps.len() == 0 {
        Seq::empty()
    } else if ws.len() == 0 {
        gaps[0]
    } else {
        gaps[0] + ws[0] + spec_interleave(gaps.drop_first(), ws.drop_first())
    }
}

/// A well-shaped tokenization: one more gap than words, whitespace-only
/// gaps, word-shaped words, and a non-empty gap between two words.
pub open spec fn tokens_wf(gaps: Seq<Seq<char>>, ws: Seq<Seq<char>>) -> bool {
    &&& gaps.len() == ws.len() + 1
    &&& forall|i: int| 0 <= i < gaps.len() ==> all_space(#[trigger] gaps[i])
    &&& forall|i: int| 0 <= i < ws.len() ==> word_shaped(#[trigger] ws[i])
    &&& forall|i: int| 1 <= i < ws.len() ==> (#[trigger] gaps[i]).len() > 0
}

proof fn lemma_words_space_prefix(g: Seq<char>, t: Seq<char>)
    requires
        all_space(g),
    ensures
        spec_words(g + t) == spec_words(t),
    decreases g.len(),
{
    if g.len() == 0 {
        assert(g + t =~= t);
    } else {
        let s = g + t;
        assert(s[0] == g[0]);
        assert(s.drop_first() =~= g.drop_first() + t);
        assert(all_space(g.drop_first())) by {
            assert(forall|j: int|
                0 <= j < g.drop_first().len() ==> #[trigger] g.drop_first()[j] == g[j + 1]);
        }
        lemma_words_space_prefix(g.drop_first(), t);
    }
}

proof fn lemma_words_word_prefix(w: Seq<char>, t: Seq<char>)
    requires
        word_shaped(w),
        t.len() == 0 || is_space(t[0]),
    ensures
        spec_words(w + t) == seq![w] + spec_words(t),
    decreases w.len(),
{
    let s = w + t;
    assert(s[0] == w[0]);
    assert(!is_space(s[0]));
    assert(s.drop_first() =~= w.drop_first() + t);
    if w.len() == 1 {
        assert(s.drop_first() =~= t);
        if s.len() >= 2 {
            assert(s[1] == t[0]);
        }
        assert(spec_words(s) == seq![seq![s[0]]] + spec_words(t));
        assert(seq![s[0]] =~= w);
        assert(spec_words(s) =~= seq![w] + spec_words(t));
    } else {
        assert(word_shaped(w.drop_first())) by {
            assert(forall|j: int|
                0 <= j < w.drop_first().len() ==> #[trigger] w.drop_first()[j] == w[j + 1]);
        }
        lemma_words_word_prefix(w.drop_first(), t);
        assert(s.len() >= 2);
        assert(s[1] == w[1]);
        assert(!is_space(s[1]));
        let rest = spec_words(s.drop_first());
        assert(rest == seq![w.drop_first()] + spec_words(t));
        assert(rest[0] == w.drop_first());
        assert(rest.drop_first() =~= spec_words(t));
        assert(spec_words(s) == seq![seq![s[0]] + w.drop_first()] + spec_words(t));
        assert(seq![s[0]] + w.drop_first() =~= w);
        assert(spec_words(s) =~= seq![w] + spec_words(t));
    }
}

/// The words of a well-shaped interleaving are exactly its word tokens.
pub proof fn lemma_words_of_interleave(gaps: Seq<Seq<char>>, ws: Seq<Seq<char>>)
    requires
        tokens_wf(gaps, ws),
    ensures
        spec_words(spec_interleave(gaps, ws)) == ws,
    decreases ws.len(),
{
    if ws.len() == 0 {
        assert(spec_interleave(gaps, ws) == gaps[0]);
        lemma_words_space_prefix(gaps[0], Seq::empty());
        assert(gaps[0] + Seq::<char>::empty() =~= gaps[0]);
        assert(spec_words(Seq::<char>::empty()) =~= Seq::<Seq<char>>::empty());
        assert(spec_words(gaps[0]) =~= ws);
    } else {
        let g2 = gaps.drop_first();
        let w2 = ws.drop_first();
        assert(tokens_wf(g2, w2)) by {
            assert(forall|i: int| 0 <= i < g2.len() ==> g2[i] == gaps[i + 1]);
            assert(forall|i: int| 0 <= i < w2.len() ==> w2[i] == ws[i + 1]);
            assert(forall|i: int| 1 <= i < w2.len() ==> (#[trigger] g2[i]).len() > 0) by {
                assert(forall|i: int| 1 <= i < w2.len() ==> g2[i] == gaps[i + 1]);
            }
        }
        let rest = spec_interleave(g2, w2);
        assert(spec_interleave(gaps, ws) == gaps[0] + ws[0] + rest);
        assert(rest.len() == 0 || is_space(rest[0])) by {
            if w2.len() == 0 {
                assert(rest == g2[0]);
                if rest.len() > 0 {
                    assert(is_space(g2[0][0]));
                }
            } else {
                assert(rest == g2[0] + w2[0] + spec_interleave(g2.drop_first(), w2.drop_first()));
                assert(g2[0] == gaps[1]);
                assert(gaps[1].len() > 0);
                assert(rest[0] == g2[0][0]);
                assert(is_space(g2[0][0]));
            }
        }
        lemma_words_of_interleave(g2, w2);
        lemma_words_word_prefix(ws[0], rest);
        assert(gaps[0] + ws[0] + rest =~= gaps[0] + (ws[0] + rest));
        lemma_words_space_prefix(gaps[0], ws[0] + rest);
        assert(spec_words(spec_interleave(gaps, ws)) == seq![ws[0]] + w2);
        assert(seq![ws[0]] + w2 =~= ws);
    }
}

/// Splits a text from the given position into its gap and word tokens.
fn tokenize_from(s: &str, from: usize) -> (r: (Vec<String>, Vec<String>))
    requires
        from <= s@.len(),
    ensures
        tokens_wf(views(r.0@), views(r.1@)),
        spec_interleave(views(r.0@), views(r.1@)) == s@.skip(from as int),
    decreases s@.len() - from,
{
    let n: usize = s.unicode_len();
    let mut a: usize = from;
    let mut gap = String::new();
    while a < n && is_space_char(s.get_char(a))
        invariant
            n == s@.len(),
            from <= a <= n,
            gap@ == s@.subrange(from as int, a as int),
            all_space(gap@),
        decreases n - a,
    {
        let ghost g0 = gap@;
        push_char(&mut gap, s.get_char(a));
        proof {
            assert(gap@ =~= s@.subrange(from as int, a as int + 1));
        }
        a += 1;
    }
    if a == n {
        let mut gaps: Vec<String> = Vec::new();
        let ghost gv = gap@;
        gaps.push(gap);
        let words: Vec<String> = Vec::new();
        proof {
            assert(views(gaps@) =~= seq![gv]);
            assert(views(words@) =~= Seq::<Seq<char>>::empty());
            assert(spec_interleave(views(gaps@), views(words@)) == gv);
            assert(gv =~= s@.skip(from as int));
        }
        return (gaps, words);
    }
    let mut b: usize = a;
    let mut word = String::new();
    while b < n && !is_space_char(s.get_char(b))
        invariant
            n == s@.len(),
            a <= b <= n,
            word@ == s@.subrange(a as int, b as int),
            forall|j: int| 0 <= j < word@.len() ==> !is_space(#[trigger] word@[j]),
        decreases n - b,
    {
        push_char(&mut word, s.get_char(b));
        proof {
            assert(word@ =~= s@.subrange(a as int, b as int + 1));
        }
        b += 1;
    }
    proof {
        assert(b > a);
        assert(word_shaped(word@));
    }
    let (rest_gaps, rest_words) = tokenize_from(s, b);
    let ghost rg = views(rest_gaps@);
    let ghost rw = views(rest_words@);
    let mut gaps = rest_gaps;
    let mut words = rest_words;
    let ghost gv = gap@;
    let ghost wv = word@;
    gaps.insert(0, gap);
    words.insert(0, word);
    proof {
        assert(views(gaps@) =~= seq![gv] + rg);
        assert(views(words@) =~= seq![wv] + rw);
        let ngs = views(gaps@);
        let nws = views(words@);
        assert(ngs[0] == gv);
        assert(nws[0] == wv);
        assert(ngs.drop_first() =~= rg);
        assert(nws.drop_first() =~= rw);
        assert(spec_interleave(ngs, nws) == gv + wv + spec_interleave(rg, rw));
        assert(spec_interleave(rg, rw) == s@.skip(b as int));
        assert(gv + wv + s@.skip(b as int) =~= s@.skip(from as int));
        // The shape conditions: the inserted gap and word are well formed,
        // and when the tail holds a word, the tail's first gap opens at a
        // whitespace character, so it is not empty.
        assert(tokens_wf(ngs, nws)) by {
            assert(forall|i: int| 0 <= i < ngs.len() ==> all_space(#[trigger] ngs[i])) by {
                assert(forall|i: int| 1 <= i < ngs.len() ==> ngs[i] == rg[i - 1]);
            }
            assert(forall|i: int| 0 <= i < nws.len() ==> word_shaped(#[trigger] nws[i])) by {
                assert(forall|i: int| 1 <= i < nws.len() ==> nws[i] == rw[i - 1]);
            }
            assert(forall|i: int| 1 <= i < nws.len() ==> (#[trigger] ngs[i]).len() > 0) by {
                if rw.len() > 0 {
                    assert(is_space(s@[b as int]));
                    assert(spec_interleave(rg, rw) == rg[0] + rw[0] + spec_interleave(
                        rg.drop_first(),
                        rw.drop_first(),
                    ));
                    assert(s@.skip(b as int)[0] == s@[b as int]);
                    if rg[0].len() == 0 {
                        assert(spec_interleave(rg, rw)[0] == rw[0][0]);
                        assert(!is_space(rw[0][0]));
                        assert(false);
                    }
                    assert(forall|i: int| 2 <= i < nws.len() ==> ngs[i] == rg[i - 1]);
                    assert(ngs[1] == rg[0]);
                }
            }
        }
    }
    (gaps, words)
}

/// Rebuilds the text of a tokenization from the given pair index on.
fn reassemble_from(gaps: &Vec<String>, words: &Vec<String>, i: usize) -> (r: String)
    requires
        gaps@.len() == words@.len() + 1,
        i <= gaps@.len(),
    ensures
        r@ == spec_interleave(views(gaps@).skip(i as int), views(words@).skip(i as int)),
    decreases gaps@.len() - i,
{
    let mut r = String::new();
    if i >= gaps.len() {
        proof {
            assert(views(gaps@).skip(i as int) =~= Seq::<Seq<char>>::empty());
        }
        return r;
    }
    push_str_chars(&mut r, gaps[i].as_str());
    if i < words.len() {
        push_str_chars(&mut r, words[i].as_str());
        let tail_part = reassemble_from(gaps, words, i + 1);
        push_str_chars(&mut r, tail_part.as_str());
        proof {
            let gs = views(gaps@).skip(i as int);
            let ws = views(words@).skip(i as int);
            assert(gs[0] == gaps@[i as int]@);
            assert(ws[0] == words@[i as int]@);
            assert(gs.drop_first() =~= views(gaps@).skip(i as int + 1));
            assert(ws.drop_first() =~= views(words@).skip(i as int + 1));
            assert(r@ =~= gs[0] + ws[0] + spec_interleave(gs.drop_first(), ws.drop_first()));
        }
    } else {
        proof {
            let gs = views(gaps@).skip(i as int);
            let ws = views(words@).skip(i as int);
            assert(ws =~= Seq::<Seq<char>>::empty());
            assert(gs[0] == gaps@[i as int]@);
            assert(Seq::<char>::empty() + gs[0] =~= gs[0]);
        }
    }
    r
}

/// The predicate that keeps exactly the whitespace characters.
pub open spec fn space_pred() -> spec_fn(char) -> bool {
    |c: char| is_space(c)
}

/// The concatenation of a list of texts.
pub open spec fn concat_texts(g: Seq<Seq<char>>) -> Seq<char>
    decreases g.len(),
{
    if g.len() == 0 {
        Seq::empty()
    } else {
        g[0] + concat_texts(g.drop_first())
    }
}

proof fn lemma_filter_all_true(s: Seq<char>, pred: spec_fn(char) -> bool)
    requires
        forall|i: int| 0 <= i < s.len() ==> pred(#[trigger] s[i]),
    ensures
        s.filter(pred) == s,
    decreases s.len(),
{
    reveal(Seq::filter);
    if s.len() == 0 {
        assert(s.filter(pred) =~= s);
    } else {
        let t = s.drop_last();
        assert(forall|i: int| 0 <= i < t.len() ==> pred(#[trigger] t[i])) by {
            assert(forall|i: int| 0 <= i < t.len() ==> t[i] == s[i]);
        }
        lemma_filter_all_true(t, pred);
        assert(pred(s.last()));
        assert(s.filter(pred) =~= s);
    }
}

proof fn lemma_filter_all_false(s: Seq<char>, pred: spec_fn(char) -> bool)
    requires
        forall|i: int| 0 <= i < s.len() ==> !pred(#[trigger] s[i]),
    ensures
        s.filter(pred) == Seq::<char>::empty(),
    decreases s.len(),
{
    reveal(Seq::filter);
    if s.len() == 0 {
        assert(s.filter(pred) =~= Seq::<char>::empty());
    } else {
        let t = s.drop_last();
        assert(forall|i: int| 0 <= i < t.len() ==> !pred(#[trigger] t[i])) by {
            assert(forall|i: int| 0 <= i < t.len() ==> t[i] == s[i]);
        }
        lemma_filter_all_false(t, pred);
        assert(!pred(s.last()));
        assert(s.filter(pred) =~= Seq::<char>::empty());
    }
}

/// The whitespace of a well-shaped interleaving is exactly its gaps,
/// whatever words stand between them.
proof fn lemma_interleave_spaces(gaps: Seq<Seq<char>>, ws: Seq<Seq<char>>)
    requires
        tokens_wf(gaps, ws),
    ensures
        spec_interleave(gaps, ws).filter(space_pred()) == concat_texts(gaps),
    decreases ws.len(),
{
    broadcast use vstd::seq_lib::group_filter_ensures;

    if ws.len() == 0 {
        assert(spec_interleave(gaps, ws) == gaps[0]);
        assert(forall|i: int| 0 <= i < gaps[0].len() ==> space_pred()(#[trigger] gaps[0][i]));
        lemma_filter_all_true(gaps[0], space_pred());
        assert(gaps.drop_first() =~= Seq::<Seq<char>>::empty());
        assert(concat_texts(Seq::<Seq<char>>::empty()) == Seq::<char>::empty());
        assert(concat_texts(gaps) == gaps[0] + Seq::<char>::empty());
        assert(gaps[0] + Seq::<char>::empty() =~= gaps[0]);
    } else {
        let g2 = gaps.drop_first();
        let w2 = ws.drop_first();
        assert(tokens_wf(g2, w2)) by {
            assert(forall|i: int| 0 <= i < g2.len() ==> g2[i] == gaps[i + 1]);
            assert(forall|i: int| 0 <= i < w2.len() ==> w2[i] == ws[i + 1]);
            assert(forall|i: int| 1 <= i < w2.len() ==> (#[trigger] g2[i]).len() > 0) by {
                assert(forall|i: int| 1 <= i < w2.len() ==> g2[i] == gaps[i + 1]);
            }
        }
        lemma_interleave_spaces(g2, w2);
        let rest = spec_interleave(g2, w2);
        assert(spec_interleave(gaps, ws) == gaps[0] + ws[0] + rest);
        Seq::filter_distributes_over_add(gaps[0] + ws[0], rest, space_pred());
        Seq::filter_distributes_over_add(gaps[0], ws[0], space_pred());
        assert(forall|i: int| 0 <= i < gaps[0].len() ==> space_pred()(#[trigger] gaps[0][i]));
        lemma_filter_all_true(gaps[0], space_pred());
        assert(forall|i: int| 0 <= i < ws[0].len() ==> !space_pred()(#[trigger] ws[0][i]));
        lemma_filter_all_false(ws[0], space_pred());
        assert((gaps[0] + ws[0] + rest).filter(space_pred()) =~= gaps[0] + concat_texts(g2)) by {
            assert(gaps[0] + Seq::<char>::empty() =~= gaps[0]);
        }
        assert(concat_texts(gaps) == gaps[0] + concat_texts(g2));
    }
}

/// The result interleaves the input's own gap tokens, each in its place,
/// with a permutation of the input's word tokens.
pub open spec fn same_gaps_permuted_words(s: Seq<char>, r: Seq<char>) -> bool {
    exists|gaps: Seq<Seq<char>>, ws: Seq<Seq<char>>, ws2: Seq<Seq<char>>|
        {
            &&& tokens_wf(gaps, ws)
            &&& s == #[trigger] spec_interleave(gaps, ws)
            &&& tokens_wf(gaps, ws2)
            &&& r == #[trigger] spec_interleave(gaps, ws2)
            &&& ws2.to_multiset() == ws.to_multiset()
        }
}

/// Reorders the whitespace-delimited words of one line. Every gap token
/// stays exactly where it was, byte for byte, and the words afterwards are
/// the words before, as a multiset.
pub fn shuffle_words(s: &str) -> (r: String)
    ensures
        spec_words(r@).to_multiset() == spec_words(s@).to_multiset(),
        r@.filter(space_pred()) == s@.filter(space_pred()),
        same_gaps_permuted_words(s@, r@),
{
    broadcast use vstd::seq_lib::group_to_multiset_ensures;

    let (gaps, mut words) = tokenize_from(s, 0);
    let ghost w0 = views(words@);
    proof {
        assert(s@.skip(0) =~= s@);
        lemma_words_of_interleave(views(gaps@), views(words@));
        assert(spec_words(s@) == views(words@));
        assert(tokens_wf(views(gaps@), w0));
    }
    shuffle_in_place(&mut words);
    proof {
        let w1 = views(words@);
        assert(forall|i: int| 0 <= i < w1.len() ==> word_shaped(#[trigger] w1[i])) by {
            assert forall|i: int| 0 <= i < w1.len() implies word_shaped(#[trigger] w1[i]) by {
                assert(w1.to_multiset().count(w1[i]) > 0) by {
                    assert(w1.contains(w1[i]));
                }
                assert(w0.to_multiset().count(w1[i]) > 0);
                assert(w0.contains(w1[i]));
                let j = choose|j: int| 0 <= j < w0.len() && w0[j] == w1[i];
                assert(word_shaped(w0[j]));
            }
        }
        assert(tokens_wf(views(gaps@), views(words@)));
    }
    let r = reassemble_from(&gaps, &words, 0);
    proof {
        assert(views(gaps@).skip(0) =~= views(gaps@));
        assert(views(words@).skip(0) =~= views(words@));
        lemma_words_of_interleave(views(gaps@), views(words@));
        assert(spec_words(r@) == views(words@));
        lemma_interleave_spaces(views(gaps@), views(words@));
        lemma_interleave_spaces(views(gaps@), w0);
        assert(s@.skip(0) =~= s@);
        assert(same_gaps_permuted_words(s@, r@)) by {
            let gv = views(gaps@);
            let w1 = views(words@);
            assert(tokens_wf(gv, w0) && s@ == spec_interleave(gv, w0) && tokens_wf(gv, w1) && r@
                == spec_interleave(gv, w1) && w1.to_multiset() == w0.to_multiset());
        }
    }
    r
}

} // verus!
