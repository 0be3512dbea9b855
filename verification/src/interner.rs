//! The string interner: deduplicates string contents into a pool of shared
//! immutable entries, identified by their index.
//!
//! A string value in the language carries only its pool index; two values
//! with the same index share storage, and the pool's distinctness invariant
//! makes index equality the same as content equality.

use vstd::prelude::*;
use vstd::string::StrSliceExecFns;

use crate::utils::str_eq;

verus! {

/// No two pool entries hold the same content.
pub open spec fn pool_distinct(pool: Seq<Seq<char>>) -> bool {
    forall|i: int, j: int| 0 <= i < j < pool.len() ==> pool[i] != pool[j]
}

/// Whether `pool` has an entry holding exactly `s`.
pub open spec fn pool_contains(pool: Seq<Seq<char>>, s: Seq<char>) -> bool {
    exists|i: int| 0 <= i < pool.len() && pool[i] == s
}

/// The pool of interned strings. Its view is the sequence of entry
/// contents, in insertion order.
#[derive(Debug)]
pub struct StringInterner {
    pool: Vec<String>,
}

impl View for StringInterner {
    type V = Seq<Seq<char>>;

    closed spec fn view(&self) -> Seq<Seq<char>> {
        Seq::new(self.pool@.len(), |i: int| self.pool@[i]@)
    }
}

impl StringInterner {
    /// No two pool entries hold the same content.
    pub open spec fn wf(&self) -> bool {
        pool_distinct(self@)
    }

    /// Whether some entry holds exactly `s`.
    pub open spec fn contains_str(&self, s: Seq<char>) -> bool {
        pool_contains(self@, s)
    }

    /// A fresh, empty interner.
    pub fn new() -> (r: Self)
        ensures
            r@ == Seq::<Seq<char>>::empty(),
            r.wf(),
    {
        let r = StringInterner { pool: Vec::new() };
        proof {
            assert(r@ =~= Seq::<Seq<char>>::empty());
        }
        r
    }

    /// Returns the handle of an entry holding exactly `s`: the existing one
    /// when `s` was interned before (the pool is unchanged), a new entry at
    /// the end otherwise.
    pub fn intern(&mut self, s: &str) -> (id: usize)
        requires
            old(self).wf(),
        ensures
            final(self).wf(),
            id < final(self)@.len(),
            final(self)@[id as int] == s@,
            old(self).contains_str(s@) ==> final(self)@ == old(self)@,
            !old(self).contains_str(s@) ==> final(self)@ == old(self)@.push(s@) && id == old(
                self,
            )@.len(),
    {
        let n = self.pool.len();
        let mut i: usize = 0;
        while i < n
            invariant
                old(self).wf(),
                self == old(self),
                n == self.pool@.len(),
                i <= n,
                forall|j: int| 0 <= j < i ==> self@[j] != s@,
            decreases n - i,
        {
            if str_eq(self.pool[i].as_str(), s) {
                return i;
            }
            i = i + 1;
        }
        self.pool.push(s.to_owned());
        proof {
            assert(self@ =~= old(self)@.push(s@));
        }
        n
    }

    /// How many distinct strings have been interned.
    pub fn len(&self) -> (r: usize)
        ensures
            r == self@.len(),
    {
        self.pool.len()
    }

    /// Whether nothing has been interned yet.
    pub fn is_empty(&self) -> (r: bool)
        ensures
            r == (self@.len() == 0),
    {
        self.pool.is_empty()
    }

    /// A copy of the content of entry `id`.
    pub fn get(&self, id: usize) -> (r: String)
        requires
            id < self@.len(),
        ensures
            r@ == self@[id as int],
    {
        let entry: &String = &self.pool[id];
        entry.clone()
    }
}

/// Interning the same content twice yields the same handle: the pool's
/// distinctness invariant makes handle equality content equality.
pub proof fn lemma_intern_deduplicates(interner: StringInterner, a: int, b: int)
    requires
        interner.wf(),
        0 <= a < interner@.len(),
        0 <= b < interner@.len(),
    ensures
        (interner@[a] == interner@[b]) <==> (a == b),
{
}

} // verus!
