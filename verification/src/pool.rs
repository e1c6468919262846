//! The text pool: an insertion-ordered set of unique, non-empty logical text
//! units, scoped to one corpus, together with the content of the two file
//! artifacts written for it (the original-text file and the blank
//! translation stub).

use vstd::prelude::*;

use crate::text::{
    escape_newlines, join_char, push_char, spec_escape, spec_join, str_eq, views,
};

verus! {

/// The pool invariant: units are pairwise distinct and never empty.
pub open spec fn pool_inv(v: Seq<Seq<char>>) -> bool {
    (forall|i: int, j: int| 0 <= i < j < v.len() ==> v[i] != v[j]) && (forall|i: int|
        0 <= i < v.len() ==> v[i].len() > 0)
}

/// One insertion: an empty or already-present unit leaves the pool
/// unchanged; a new unit is appended at the end.
pub open spec fn spec_pool_insert(v: Seq<Seq<char>>, u: Seq<char>) -> Seq<Seq<char>> {
    if u.len() == 0 || v.contains(u) {
        v
    } else {
        v.push(u)
    }
}

/// Inserting a sequence of units in order.
pub open spec fn spec_pool_insert_all(v: Seq<Seq<char>>, units: Seq<Seq<char>>) -> Seq<Seq<char>>
    decreases units.len(),
{
    if units.len() == 0 {
        v
    } else {
        spec_pool_insert_all(spec_pool_insert(v, units[0]), units.drop_first())
    }
}

pub proof fn lemma_pool_insert_inv(v: Seq<Seq<char>>, u: Seq<char>)
    requires
        pool_inv(v),
    ensures
        pool_inv(spec_pool_insert(v, u)),
{
    if !(u.len() == 0 || v.contains(u)) {
        let w = v.push(u);
        assert(forall|i: int| 0 <= i < v.len() ==> w[i] == v[i]);
        assert(forall|i: int, j: int| 0 <= i < j < w.len() ==> w[i] != w[j]) by {
            assert(forall|i: int| 0 <= i < v.len() ==> v.contains(v[i]));
        }
    }
}

/// An insertion-ordered, deduplicated set of logical text units.
pub struct TextPool {
    items: Vec<String>,
}

impl View for TextPool {
    type V = Seq<Seq<char>>;

    closed spec fn view(&self) -> Seq<Seq<char>> {
        views(self.items@)
    }
}

impl TextPool {
    /// The invariant holds of every pool the library hands out.
    pub open spec fn wf(&self) -> bool {
        pool_inv(self@)
    }

    pub fn new() -> (r: TextPool)
        ensures
            r@ == Seq::<Seq<char>>::empty(),
            r.wf(),
    {
        let r = TextPool { items: Vec::new() };
        proof {
            assert(r@ =~= Seq::<Seq<char>>::empty());
        }
        r
    }

    pub fn len(&self) -> (r: usize)
        ensures
            r == self@.len(),
    {
        self.items.len()
    }

    pub fn get(&self, i: usize) -> (r: &String)
        requires
            i < self@.len(),
        ensures
            r@ == self@[i as int],
    {
        &self.items[i]
    }

    /// Whether the pool already holds this unit.
    pub fn contains(&self, u: &str) -> (r: bool)
        ensures
            r == self@.contains(u@),
    {
        let n = self.items.len();
        let mut i: usize = 0;
        while i < n
            invariant
                n == self.items@.len(),
                self@ == views(self.items@),
                0 <= i <= n,
                forall|j: int| 0 <= j < i ==> self@[j] != u@,
            decreases n - i,
        {
            if str_eq(self.items[i].as_str(), u) {
                assert(self@[i as int] == u@);
                return true;
            }
            i += 1;
        }
        proof {
            if self@.contains(u@) {
                let j = choose|j: int| 0 <= j < self@.len() && self@[j] == u@;
                assert(self@[j] != u@);
            }
        }
        false
    }

    /// Inserts one unit: an empty or duplicate unit is dropped, anything
    /// else is appended after everything seen earlier, so first-seen order
    /// is preserved.
    pub fn insert(&mut self, u: &str)
        requires
            old(self).wf(),
        ensures
            final(self)@ == spec_pool_insert(old(self)@, u@),
            final(self).wf(),
    {
        proof {
            lemma_pool_insert_inv(self@, u@);
        }
        if u.unicode_len() == 0 {
            return ;
        }
        if self.contains(u) {
            return ;
        }
        let ghost items0 = self.items@;
        self.items.push(u.to_owned());
        proof {
            assert(self@ =~= views(items0).push(u@));
        }
    }

    /// The content of the original-text pool file: one escaped unit per
    /// line, in first-seen order, with no trailing blank line.
    pub fn file_string(&self) -> (r: String)
        ensures
            r@ == spec_join(self@.map_values(|u: Seq<char>| spec_escape(u)), '\n'),
    {
        let n = self.items.len();
        let mut lines: Vec<String> = Vec::new();
        let mut i: usize = 0;
        while i < n
            invariant
                n == self.items@.len(),
                self@ == views(self.items@),
                0 <= i <= n,
                views(lines@) == self@.take(i as int).map_values(|u: Seq<char>| spec_escape(u)),
            decreases n - i,
        {
            let ghost lines0 = lines@;
            let e = escape_newlines(self.items[i].as_str());
            lines.push(e);
            proof {
                assert(views(lines@) =~= views(lines0).push(spec_escape(self@[i as int])));
                assert(self@.take(i as int + 1).map_values(|u: Seq<char>| spec_escape(u)) =~= self@.take(
                    i as int,
                ).map_values(|u: Seq<char>| spec_escape(u)).push(spec_escape(self@[i as int])));
            }
            i += 1;
        }
        proof {
            assert(self@.take(n as int) =~= self@);
        }
        join_char(&lines, '\n')
    }

    /// The content of the translation stub file: as many lines as the pool
    /// has units, all of them blank.
    pub fn stub_string(&self) -> (r: String)
        ensures
            r@ == spec_join(Seq::new(self@.len(), |i: int| Seq::<char>::empty()), '\n'),
    {
        let n = self.items.len();
        let blanks: Ghost<Seq<Seq<char>>> = Ghost(Seq::new(n as nat, |i: int| Seq::<char>::empty()));
        let mut r = String::new();
        if n == 0 {
            proof {
                assert(blanks@.len() == 0);
            }
            return r;
        }
        proof {
            assert(blanks@.take(1) =~= seq![Seq::<char>::empty()]);
            assert(r@ =~= spec_join(blanks@.take(1), '\n'));
        }
        let mut i: usize = 1;
        while i < n
            invariant
                n == self@.len(),
                blanks@ == Seq::new(self@.len(), |k: int| Seq::<char>::empty()),
                1 <= i <= n,
                r@ == spec_join(blanks@.take(i as int), '\n'),
            decreases n - i,
        {
            let ghost r0 = r@;
            push_char(&mut r, '\n');
            proof {
                crate::text::lemma_join_take_step(blanks@, '\n', i as int);
                assert(r@ =~= r0 + seq!['\n'] + blanks@[i as int]);
            }
            i += 1;
        }
        proof {
            assert(blanks@.take(n as int) =~= blanks@);
        }
        r
    }
}


/// Inserting a concatenation of batches equals inserting them in turn.
pub proof fn lemma_pool_insert_all_concat(v: Seq<Seq<char>>, a: Seq<Seq<char>>, b: Seq<Seq<char>>)
    ensures
        spec_pool_insert_all(v, a + b) == spec_pool_insert_all(spec_pool_insert_all(v, a), b),
    decreases a.len(),
{
    if a.len() == 0 {
        assert(a + b =~= b);
    } else {
        lemma_pool_insert_all_concat(spec_pool_insert(v, a[0]), a.drop_first(), b);
        assert((a + b)[0] == a[0]);
        assert((a + b).drop_first() =~= a.drop_first() + b);
    }
}

} // verus!
