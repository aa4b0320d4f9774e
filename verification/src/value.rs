//! Runtime values and the pool of interned strings.
use vstd::prelude::*;
use crate::text::{chars_of, chars_eq, string_of};

verus! {

/// An index into the string pool.
pub type Symbol = usize;

/// The pool of interned strings: each string is stored once and named by
/// its index.
pub struct StringPool {
    strings: Vec<Vec<char>>,
}

/// No string occurs twice in the pool.
pub open spec fn distinct_strings(s: Seq<Seq<char>>) -> bool {
    forall|i: int, j: int| 0 <= i < s.len() && 0 <= j < s.len() && i != j ==> s[i] != s[j]
}

impl View for StringPool {
    type V = Seq<Seq<char>>;

    closed spec fn view(&self) -> Seq<Seq<char>> {
        Seq::new(self.strings@.len(), |i: int| self.strings@[i]@)
    }
}

impl StringPool {
    /// The pool's invariant: no string is interned twice.
    pub open spec fn wf(&self) -> bool {
        distinct_strings(self@)
    }

    /// An empty pool.
    pub fn new() -> (r: Self)
        ensures
            r@ == Seq::<Seq<char>>::empty(),
            r.wf(),
    {
        let r = StringPool { strings: Vec::new() };
        assert(r@ =~= Seq::<Seq<char>>::empty());
        r
    }

    /// The number of interned strings.
    pub fn len(&self) -> (r: usize)
        ensures
            r == self@.len(),
    {
        self.strings.len()
    }

    /// Interns a character sequence: returns the index of `s`, adding it at
    /// the end of the pool if it is not there yet.
    pub fn intern_chars(&mut self, s: &Vec<char>) -> (id: Symbol)
        requires
            old(self).wf(),
        ensures
            final(self).wf(),
            id < final(self)@.len(),
            final(self)@[id as int] == s@,
            old(self)@.contains(s@) ==> final(self)@ == old(self)@,
            !old(self)@.contains(s@) ==> final(self)@ == old(self)@.push(s@) && id == old(self)@.len(),
    {
        let mut i: usize = 0;
        while i < self.strings.len()
            invariant
                i <= self.strings@.len(),
                self@.len() == self.strings@.len(),
                forall|j: int| 0 <= j < i ==> self@[j] != s@,
                self.wf(),
                self == old(self),
            decreases self.strings@.len() - i,
        {
            if chars_eq(&self.strings[i], s) {
                assert(self@[i as int] == s@);
                assert(self@.contains(s@));
                return i;
            }
            i = i + 1;
        }
        let ghost old_view = self@;
        let id = self.strings.len();
        self.strings.push(s.clone());
        assert(self@ =~= old_view.push(s@));
        assert(!old_view.contains(s@)) by {
            if old_view.contains(s@) {
                let k = choose|k: int| 0 <= k < old_view.len() && old_view[k] == s@;
                assert(self@[k] != s@);
            }
        }
        id
    }

    /// Interns a string slice (see `intern_chars`).
    pub fn intern(&mut self, s: &str) -> (id: Symbol)
        requires
            old(self).wf(),
        ensures
            final(self).wf(),
            id < final(self)@.len(),
            final(self)@[id as int] == s@,
            old(self)@.contains(s@) ==> final(self)@ == old(self)@,
            !old(self)@.contains(s@) ==> final(self)@ == old(self)@.push(s@) && id == old(self)@.len(),
    {
        let c = chars_of(s);
        self.intern_chars(&c)
    }

    /// The characters of the string named `id`.
    pub fn get_chars(&self, id: Symbol) -> (r: &Vec<char>)
        requires
            id < self@.len(),
        ensures
            r@ == self@[id as int],
    {
        &self.strings[id]
    }

    /// The string named `id`.
    pub fn get(&self, id: Symbol) -> (r: String)
        requires
            id < self@.len(),
        ensures
            r@ == self@[id as int],
    {
        string_of(&self.strings[id])
    }
}

/// Interning a string twice gives the same symbol and leaves the pool as the
/// first call left it; reading the symbol back gives the string.
pub proof fn lemma_intern_idempotent(p: Seq<Seq<char>>, s: Seq<char>, id: int)
    requires
        distinct_strings(p),
        0 <= id < p.len(),
        p[id] == s,
    ensures
        p.contains(s),
        forall|k: int| 0 <= k < p.len() && p[k] == s ==> k == id,
{
    assert(p[id] == s);
}

} // verus!
