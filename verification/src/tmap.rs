//! The translation map: a lookup from original text to translated text,
//! built positionally from a paired pair of pool files. The two files must
//! have the same number of lines; a mismatch is a fatal error and produces
//! no map at all. A translated line that is blank (or whitespace only)
//! means the original is not yet translated: the pair is skipped, so a
//! later lookup misses and the original text passes through unchanged.

use vstd::prelude::*;

use crate::text::{
    spec_trim, spec_unescape, str_eq, trim_str, unescape_newlines, views,
};

verus! {

/// The failures the engine can report.
#[derive(Debug, Clone, PartialEq)]
pub enum EngineError {
    /// The original pool file and its paired translation file differ in
    /// line count.
    PoolMismatch,
}

impl EngineError {
    /// A human-readable description of the failure.
    pub fn message(&self) -> (r: String)
        ensures
            r@.len() > 0,
    {
        let r = "original and translated pool files differ in line count".to_owned();
        proof {
            reveal_strlit("original and translated pool files differ in line count");
        }
        r
    }
}

/// The mapping that an association of keys to values denotes, with later
/// entries overriding earlier ones.
pub open spec fn assoc_map(keys: Seq<Seq<char>>, vals: Seq<Seq<char>>) -> Map<Seq<char>, Seq<char>>
    decreases keys.len(),
{
    if keys.len() == 0 || vals.len() == 0 {
        Map::empty()
    } else {
        assoc_map(keys.drop_last(), vals.drop_last()).insert(keys.last(), vals.last())
    }
}

/// The key under which a pool file line is looked up: the line with the
/// escape token turned back into newlines.
pub open spec fn spec_key_of(line: Seq<char>) -> Seq<char> {
    spec_unescape(line)
}

/// The translation a pool file line carries: unescaped and trimmed.
/// Original keys are never trimmed here; the extractor already emits them
/// trimmed, and trimming only the translated side preserves exact-match
/// semantics.
pub open spec fn spec_val_of(line: Seq<char>) -> Seq<char> {
    spec_trim(spec_unescape(line))
}

/// The map denoted by a pair of line files of equal length: each pair in
/// order, later entries overriding earlier ones, and a pair whose
/// translation is blank left out entirely.
pub open spec fn spec_build_tmap(orig: Seq<Seq<char>>, trans: Seq<Seq<char>>) -> Map<
    Seq<char>,
    Seq<char>,
>
    decreases orig.len(),
{
    if orig.len() == 0 || trans.len() == 0 {
        Map::empty()
    } else {
        let prev = spec_build_tmap(orig.drop_last(), trans.drop_last());
        if spec_val_of(trans.last()).len() == 0 {
            prev
        } else {
            prev.insert(spec_key_of(orig.last()), spec_val_of(trans.last()))
        }
    }
}

/// A lookup from original text to translated text.
#[derive(Debug, PartialEq)]
pub struct TranslationMap {
    keys: Vec<String>,
    vals: Vec<String>,
}

impl View for TranslationMap {
    type V = Map<Seq<char>, Seq<char>>;

    closed spec fn view(&self) -> Map<Seq<char>, Seq<char>> {
        assoc_map(views(self.keys@), views(self.vals@))
    }
}

spec fn keys_unique(keys: Seq<Seq<char>>) -> bool {
    forall|i: int, j: int| 0 <= i < j < keys.len() ==> keys[i] != keys[j]
}

proof fn lemma_assoc_found(keys: Seq<Seq<char>>, vals: Seq<Seq<char>>, i: int)
    requires
        keys.len() == vals.len(),
        keys_unique(keys),
        0 <= i < keys.len(),
    ensures
        assoc_map(keys, vals).contains_key(keys[i]),
        assoc_map(keys, vals)[keys[i]] == vals[i],
    decreases keys.len(),
{
    if i == keys.len() - 1 {
    } else {
        lemma_assoc_found(keys.drop_last(), vals.drop_last(), i);
        assert(keys.drop_last()[i] == keys[i]);
        assert(vals.drop_last()[i] == vals[i]);
        assert(keys[i] != keys.last());
    }
}

proof fn lemma_assoc_absent(keys: Seq<Seq<char>>, vals: Seq<Seq<char>>, k: Seq<char>)
    requires
        keys.len() == vals.len(),
        forall|i: int| 0 <= i < keys.len() ==> keys[i] != k,
    ensures
        !assoc_map(keys, vals).contains_key(k),
    decreases keys.len(),
{
    if keys.len() > 0 {
        lemma_assoc_absent(keys.drop_last(), vals.drop_last(), k);
    }
}

impl TranslationMap {
    /// The map's internal shape: paired rows with pairwise-distinct keys.
    pub closed spec fn wf(&self) -> bool {
        self.keys@.len() == self.vals@.len() && keys_unique(views(self.keys@))
    }

    pub fn new() -> (r: TranslationMap)
        ensures
            r@ == Map::<Seq<char>, Seq<char>>::empty(),
            r.wf(),
    {
        TranslationMap { keys: Vec::new(), vals: Vec::new() }
    }

    fn position_of(&self, k: &str) -> (r: Option<usize>)
        ensures
            match r {
                Some(i) => i < self.keys@.len() && self.keys@[i as int]@ == k@,
                None => forall|j: int| 0 <= j < self.keys@.len() ==> views(self.keys@)[j] != k@,
            },
    {
        let n = self.keys.len();
        let mut i: usize = 0;
        while i < n
            invariant
                n == self.keys@.len(),
                0 <= i <= n,
                forall|j: int| 0 <= j < i ==> views(self.keys@)[j] != k@,
            decreases n - i,
        {
            if str_eq(self.keys[i].as_str(), k) {
                return Some(i);
            }
            i += 1;
        }
        None
    }

    /// Adds one pairing; a later entry for the same original overrides the
    /// earlier one.
    pub fn insert(&mut self, k: &str, v: &str)
        requires
            old(self).wf(),
        ensures
            final(self).wf(),
            final(self)@ == old(self)@.insert(k@, v@),
    {
        let ghost keys0 = views(self.keys@);
        let ghost vals0 = views(self.vals@);
        match self.position_of(k) {
            Some(i) => {
                self.vals.remove(i);
                self.vals.insert(i, v.to_owned());
                proof {
                    assert(views(self.keys@) =~= keys0);
                    assert(views(self.vals@) =~= vals0.update(i as int, v@));
                    lemma_assoc_update(keys0, vals0, i as int, v@);
                    assert(keys0[i as int] == k@);
                }
            },
            None => {
                self.keys.push(k.to_owned());
                self.vals.push(v.to_owned());
                proof {
                    assert(views(self.keys@) =~= keys0.push(k@));
                    assert(views(self.vals@) =~= vals0.push(v@));
                    assert(views(self.keys@).drop_last() =~= keys0);
                    assert(views(self.vals@).drop_last() =~= vals0);
                    assert(forall|i: int, j: int|
                        0 <= i < j < views(self.keys@).len() ==> views(self.keys@)[i] != views(
                            self.keys@,
                        )[j]) by {
                        assert(forall|i: int|
                            0 <= i < keys0.len() ==> views(self.keys@)[i] == keys0[i]);
                    }
                }
            },
        }
    }

    /// Looks an original text up; the result is the recorded translation
    /// exactly when the map holds the key.
    pub fn lookup(&self, k: &str) -> (r: Option<String>)
        requires
            self.wf(),
        ensures
            match r {
                Some(v) => self@.contains_key(k@) && v@ == self@[k@],
                None => !self@.contains_key(k@),
            },
    {
        match self.position_of(k) {
            Some(i) => {
                proof {
                    lemma_assoc_found(views(self.keys@), views(self.vals@), i as int);
                }
                let v = self.vals[i].clone();
                Some(v)
            },
            None => {
                proof {
                    lemma_assoc_absent(views(self.keys@), views(self.vals@), k@);
                }
                None
            },
        }
    }

    /// The number of rows recorded.
    pub closed spec fn spec_len(&self) -> nat {
        self.keys@.len()
    }

    /// The number of distinct originals recorded.
    pub fn len(&self) -> (r: usize)
        ensures
            r == self.spec_len(),
    {
        self.keys.len()
    }
}

proof fn lemma_assoc_update(keys: Seq<Seq<char>>, vals: Seq<Seq<char>>, i: int, v: Seq<char>)
    requires
        keys.len() == vals.len(),
        keys_unique(keys),
        0 <= i < keys.len(),
    ensures
        assoc_map(keys, vals.update(i, v)) == assoc_map(keys, vals).insert(keys[i], v),
    decreases keys.len(),
{
    let n = keys.len();
    if i == n - 1 {
        assert(vals.update(i, v).drop_last() =~= vals.drop_last());
        assert(vals.update(i, v).last() == v);
        assert(assoc_map(keys, vals.update(i, v)) =~= assoc_map(keys, vals).insert(keys[i], v));
    } else {
        lemma_assoc_update(keys.drop_last(), vals.drop_last(), i, v);
        assert(vals.update(i, v).drop_last() =~= vals.drop_last().update(i, v));
        assert(vals.update(i, v).last() == vals.last());
        assert(keys.drop_last()[i] == keys[i]);
        assert(keys[i] != keys.last());
        assert(assoc_map(keys, vals.update(i, v)) =~= assoc_map(keys, vals).insert(keys[i], v)) by {
            assert(assoc_map(keys, vals.update(i, v)) == assoc_map(
                keys.drop_last(),
                vals.drop_last(),
            ).insert(keys[i], v).insert(keys.last(), vals.last()));
            assert(assoc_map(keys, vals).insert(keys[i], v) == assoc_map(
                keys.drop_last(),
                vals.drop_last(),
            ).insert(keys.last(), vals.last()).insert(keys[i], v));
            assert(assoc_map(keys.drop_last(), vals.drop_last()).insert(keys[i], v).insert(
                keys.last(),
                vals.last(),
            ) =~= assoc_map(keys.drop_last(), vals.drop_last()).insert(
                keys.last(),
                vals.last(),
            ).insert(keys[i], v));
        }
    }
}

/// Builds the translation map from the lines of an original pool file and
/// its paired translation file. The files must pair line for line: a length
/// mismatch is rejected before any entry is recorded. A pair whose
/// translated line is blank is untranslated and records nothing, so its
/// original is later passed through unchanged.
pub fn build_translation_map(original_lines: &Vec<String>, translated_lines: &Vec<String>) -> (r:
    Result<TranslationMap, EngineError>)
    ensures
        original_lines@.len() != translated_lines@.len() <==> r is Err,
        r is Err ==> r->Err_0 is PoolMismatch,
        r is Ok ==> (r->Ok_0).wf() && (r->Ok_0)@ == spec_build_tmap(
            views(original_lines@),
            views(translated_lines@),
        ),
{
    let n = original_lines.len();
    if n != translated_lines.len() {
        return Err(EngineError::PoolMismatch);
    }
    let mut m = TranslationMap::new();
    let mut i: usize = 0;
    proof {
        assert(views(original_lines@).take(0) =~= Seq::<Seq<char>>::empty());
        assert(m@ =~= spec_build_tmap(
            views(original_lines@).take(0),
            views(translated_lines@).take(0),
        ));
    }
    while i < n
        invariant
            n == original_lines@.len(),
            n == translated_lines@.len(),
            0 <= i <= n,
            m.wf(),
            m@ == spec_build_tmap(
                views(original_lines@).take(i as int),
                views(translated_lines@).take(i as int),
            ),
        decreases n - i,
    {
        let key = unescape_newlines(original_lines[i].as_str());
        let raw = unescape_newlines(translated_lines[i].as_str());
        let val = trim_str(raw.as_str());
        if val.unicode_len() > 0 {
            m.insert(key.as_str(), val.as_str());
        }
        proof {
            let ko = views(original_lines@);
            let kt = views(translated_lines@);
            assert(ko.take(i as int + 1).drop_last() =~= ko.take(i as int));
            assert(kt.take(i as int + 1).drop_last() =~= kt.take(i as int));
            assert(ko.take(i as int + 1).last() == ko[i as int]);
            assert(kt.take(i as int + 1).last() == kt[i as int]);
        }
        i += 1;
    }
    proof {
        assert(views(original_lines@).take(n as int) =~= views(original_lines@));
        assert(views(translated_lines@).take(n as int) =~= views(translated_lines@));
    }
    Ok(m)
}

} // verus!
