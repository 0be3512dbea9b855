//! The environment: a stack of scopes, each a name-to-value mapping, with
//! the string interner and the print output at the root.
//!
//! Scopes are strictly nested: a child scope is pushed when a block, loop
//! iteration or call begins and popped when it ends, so the stack order is
//! exactly the parent chain. Lookup walks from the innermost scope outward.

use vstd::prelude::*;
use vstd::string::StrSliceExecFns;

use crate::error::{Error, SpecError};
use crate::interner::{pool_contains, pool_distinct, StringInterner};
use crate::eval::{
    int_to_string, join_comma, lemma_pool_find_unique, lemma_render_items, nat_to_string,
    render_items, render_val, spec_intern, st_out,
};
use crate::utils::push_char;
use crate::val::{
    lemma_sval_ok_grow, lemma_sval_ok_list, lemma_vals_view, sval_ok, vals_view, SpecVal, Val,
};

verus! {

/// One scope: a mapping of names to values. Entries are kept in insertion
/// order; a later entry for the same name shadows an earlier one, so the
/// scope's image is a map where the last write wins.
#[derive(Debug)]
pub struct Scope {
    bindings: Vec<(String, Val)>,
}

/// The map image of a scope's entry list: later entries overwrite earlier
/// ones.
pub open spec fn scope_map(entries: Seq<(String, Val)>) -> Map<Seq<char>, SpecVal>
    decreases entries.len(),
{
    if entries.len() == 0 {
        Map::empty()
    } else {
        scope_map(entries.drop_last()).insert(entries.last().0@, entries.last().1@)
    }
}

impl View for Scope {
    type V = Map<Seq<char>, SpecVal>;

    closed spec fn view(&self) -> Map<Seq<char>, SpecVal> {
        scope_map(self.bindings@)
    }
}

/// Every value in every scope has valid string handles for a pool of
/// length `n`.
pub open spec fn scopes_ok(scopes: Seq<Map<Seq<char>, SpecVal>>, n: int) -> bool {
    forall|i: int, k: Seq<char>|
        0 <= i < scopes.len() && #[trigger] scopes[i].contains_key(k) ==> sval_ok(
            scopes[i][k],
            n,
        )
}

/// Well-formedness of an environment image: at least one scope is open,
/// the interner is deduplicated, and every stored value's string handles
/// point into the interner.
pub open spec fn state_wf(st: SpecEnv) -> bool {
    &&& st.scopes.len() >= 1
    &&& pool_distinct(st.interner)
    &&& scopes_ok(st.scopes, st.interner.len() as int)
}

/// Spec-level image of an [`Env`]: the scope stack (outermost first), the
/// interner pool, and the lines printed so far.
#[verifier::ext_equal]
pub struct SpecEnv {
    pub scopes: Seq<Map<Seq<char>, SpecVal>>,
    pub interner: Seq<Seq<char>>,
    pub output: Seq<Seq<char>>,
}

/// The first match for `name`, searching the innermost scope first.
pub open spec fn spec_lookup(scopes: Seq<Map<Seq<char>, SpecVal>>, name: Seq<char>) -> Option<
    SpecVal,
>
    decreases scopes.len(),
{
    if scopes.len() == 0 {
        None
    } else if scopes.last().contains_key(name) {
        Some(scopes.last()[name])
    } else {
        spec_lookup(scopes.drop_last(), name)
    }
}

/// A chain of scopes with the interner and print output at its root.
#[derive(Debug)]
pub struct Env {
    scopes: Vec<Scope>,
    interner: StringInterner,
    output: Vec<String>,
}

impl View for Env {
    type V = SpecEnv;

    closed spec fn view(&self) -> SpecEnv {
        SpecEnv {
            scopes: Seq::new(self.scopes@.len(), |i: int| self.scopes@[i]@),
            interner: self.interner@,
            output: Seq::new(self.output@.len(), |i: int| self.output@[i]@),
        }
    }
}

/// The first match for `name` in an entry list, searching backward so that
/// the latest write wins.
pub open spec fn assoc_lookup(entries: Seq<(String, Val)>, name: Seq<char>) -> Option<Val>
    decreases entries.len(),
{
    if entries.len() == 0 {
        None
    } else if entries.last().0@ == name {
        Some(entries.last().1)
    } else {
        assoc_lookup(entries.drop_last(), name)
    }
}

/// Backward search through an entry list agrees with the scope's map image.
proof fn lemma_assoc_lookup_is_scope_map(entries: Seq<(String, Val)>, name: Seq<char>)
    ensures
        scope_map(entries).contains_key(name) <==> assoc_lookup(entries, name) is Some,
        assoc_lookup(entries, name) matches Some(v) ==> scope_map(entries)[name] == v@,
    decreases entries.len(),
{
    if entries.len() > 0 {
        lemma_assoc_lookup_is_scope_map(entries.drop_last(), name);
    }
}

impl Default for Env {
    /// A fresh root environment: one empty scope, an empty interner, no
    /// output. This is the construction entry point for a session.
    fn default() -> (r: Env)
        ensures
            r@.scopes =~= seq![Map::<Seq<char>, SpecVal>::empty()],
            r@.interner =~= Seq::<Seq<char>>::empty(),
            r@.output =~= Seq::<Seq<char>>::empty(),
            r.wf(),
    {
        let mut scopes: Vec<Scope> = Vec::new();
        scopes.push(Scope { bindings: Vec::new() });
        let r = Env { scopes, interner: StringInterner::new(), output: Vec::new() };
        proof {
            assert(r@.scopes[0] =~= Map::<Seq<char>, SpecVal>::empty());
        }
        r
    }
}

impl Env {
    /// At least one scope is open, the interner is deduplicated, and every
    /// stored value's string handles point into the interner.
    pub open spec fn wf(&self) -> bool {
        state_wf(self@)
    }

    /// Inserts or overwrites `name` in the innermost scope only.
    pub fn store_binding(&mut self, name: String, val: Val)
        requires
            old(self).wf(),
            sval_ok(val@, old(self)@.interner.len() as int),
        ensures
            final(self).wf(),
            final(self)@.scopes =~= old(self)@.scopes.update(
                old(self)@.scopes.len() - 1,
                old(self)@.scopes.last().insert(name@, val@),
            ),
            final(self)@.interner == old(self)@.interner,
            final(self)@.output =~= old(self)@.output,
    {
        let top = self.scopes.len() - 1;
        let ghost valv = val@;
        let scope: &mut Scope = &mut self.scopes[top];
        proof {
            assert(old(self).scopes@[top as int].bindings@.push(
                (name, val),
            ).drop_last() =~= old(self).scopes@[top as int].bindings@);
        }
        scope.bindings.push((name, val));
        proof {
            let n = self@.interner.len() as int;
            assert forall|i: int, k: Seq<char>|
                0 <= i < self@.scopes.len() && #[trigger] self@.scopes[i].contains_key(
                    k,
                ) implies sval_ok(self@.scopes[i][k], n) by {
                if i == top as int && k != name@ {
                    assert(old(self)@.scopes[i].contains_key(k));
                    assert(self@.scopes[i][k] == old(self)@.scopes[i][k]);
                } else if i != top as int {
                    assert(self@.scopes[i] == old(self)@.scopes[i]);
                }
            }
        }
    }

    /// The first binding for `name`, searching the innermost scope first;
    /// `None` when no reachable scope binds it.
    pub fn get_binding_value(&self, name: &str) -> (r: Option<Val>)
        requires
            self.wf(),
        ensures
            match r {
                Some(v) => spec_lookup(self@.scopes, name@) == Some(v@) && sval_ok(
                    v@,
                    self@.interner.len() as int,
                ),
                None => spec_lookup(self@.scopes, name@) is None,
            },
    {
        let mut k = self.scopes.len();
        proof {
            assert(self@.scopes.subrange(0, k as int) =~= self@.scopes);
        }
        while k > 0
            invariant
                self.wf(),
                k <= self@.scopes.len(),
                spec_lookup(self@.scopes, name@) == spec_lookup(
                    self@.scopes.subrange(0, k as int),
                    name@,
                ),
            decreases k,
        {
            k = k - 1;
            let scope: &Scope = &self.scopes[k];
            let mut e = scope.bindings.len();
            proof {
                assert(scope.bindings@.subrange(0, e as int) =~= scope.bindings@);
            }
            while e > 0
                invariant
                    self.wf(),
                    k < self@.scopes.len(),
                    *scope == self.scopes@[k as int],
                    spec_lookup(self@.scopes, name@) == spec_lookup(
                        self@.scopes.subrange(0, k + 1),
                        name@,
                    ),
                    e <= scope.bindings@.len(),
                    assoc_lookup(scope.bindings@, name@) == assoc_lookup(
                        scope.bindings@.subrange(0, e as int),
                        name@,
                    ),
                decreases e,
            {
                e = e - 1;
                let entry: &(String, Val) = &scope.bindings[e];
                proof {
                    assert(scope.bindings@.subrange(0, e + 1).last() == scope.bindings@[e as int]);
                    assert(scope.bindings@.subrange(0, e + 1).drop_last() =~= scope.bindings@
                        .subrange(0, e as int));
                }
                if crate::utils::str_eq(entry.0.as_str(), name) {
                    proof {
                        lemma_assoc_lookup_is_scope_map(scope.bindings@, name@);
                        assert(self@.scopes.subrange(0, k + 1).last() == self@.scopes[k as int]);
                        assert(self@.scopes.subrange(0, k + 1).drop_last() =~= self@
                            .scopes.subrange(0, k as int));
                    }
                    return Some(entry.1.dup());
                }
            }
            proof {
                assert(scope.bindings@.subrange(0, 0) =~= Seq::<(String, Val)>::empty());
                lemma_assoc_lookup_is_scope_map(scope.bindings@, name@);
                assert(self@.scopes.subrange(0, k + 1).last() == self@.scopes[k as int]);
                assert(self@.scopes.subrange(0, k + 1).drop_last() =~= self@.scopes.subrange(
                    0,
                    k as int,
                ));
            }
        }
        proof {
            assert(self@.scopes.subrange(0, 0) =~= Seq::<Map<Seq<char>, SpecVal>>::empty());
        }
        None
    }

    /// As [`Self::get_binding_value`], but an unbound name is the error
    /// that evaluation reports.
    pub fn get_binding_value_restrict(&self, name: &str) -> (r: Result<Val, Error>)
        requires
            self.wf(),
        ensures
            match r {
                Ok(v) => spec_lookup(self@.scopes, name@) == Some(v@) && sval_ok(
                    v@,
                    self@.interner.len() as int,
                ),
                Err(e) => spec_lookup(self@.scopes, name@) is None && e@ == SpecError::UnboundName(
                    name@,
                ),
            },
    {
        match self.get_binding_value(name) {
            Some(v) => Ok(v),
            None => Err(Error::UnboundName(name.to_owned())),
        }
    }

    /// Opens a child scope; bindings stored until the matching
    /// [`Self::pop_scope`] shadow outer ones and vanish with the child.
    pub fn push_scope(&mut self)
        requires
            old(self).wf(),
        ensures
            final(self).wf(),
            final(self)@.scopes =~= old(self)@.scopes.push(Map::<Seq<char>, SpecVal>::empty()),
            final(self)@.interner == old(self)@.interner,
            final(self)@.output =~= old(self)@.output,
    {
        self.scopes.push(Scope { bindings: Vec::new() });
        proof {
            let n = self@.interner.len() as int;
            assert(self@.scopes.last() =~= Map::<Seq<char>, SpecVal>::empty());
            assert forall|i: int, k: Seq<char>|
                0 <= i < self@.scopes.len() && #[trigger] self@.scopes[i].contains_key(
                    k,
                ) implies sval_ok(self@.scopes[i][k], n) by {
                if i < self@.scopes.len() - 1 {
                    assert(self@.scopes[i] == old(self)@.scopes[i]);
                }
            }
        }
    }

    /// Closes the innermost scope; the root scope is never popped.
    pub fn pop_scope(&mut self)
        requires
            old(self).wf(),
            old(self)@.scopes.len() >= 2,
        ensures
            final(self).wf(),
            final(self)@.scopes =~= old(self)@.scopes.drop_last(),
            final(self)@.interner == old(self)@.interner,
            final(self)@.output =~= old(self)@.output,
    {
        let _ = self.scopes.pop();
        proof {
            let n = self@.interner.len() as int;
            assert forall|i: int, k: Seq<char>|
                0 <= i < self@.scopes.len() && #[trigger] self@.scopes[i].contains_key(
                    k,
                ) implies sval_ok(self@.scopes[i][k], n) by {
                assert(self@.scopes[i] == old(self)@.scopes[i]);
            }
        }
    }

    /// Interns `s` in the root interner, returning its handle.
    pub fn intern(&mut self, s: &str) -> (id: usize)
        requires
            old(self).wf(),
        ensures
            final(self).wf(),
            final(self)@.scopes =~= old(self)@.scopes,
            final(self)@.output =~= old(self)@.output,
            id < final(self)@.interner.len(),
            final(self)@.interner[id as int] == s@,
            pool_contains(old(self)@.interner, s@) ==> final(self)@.interner == old(self)@.interner,
            !pool_contains(old(self)@.interner, s@) ==> final(self)@.interner == old(
                self,
            )@.interner.push(s@) && id == old(self)@.interner.len(),
            (final(self)@.interner, id as int) == spec_intern(old(self)@.interner, s@),
    {
        let id = self.interner.intern(s);
        proof {
            if pool_contains(old(self)@.interner, s@) {
                lemma_pool_find_unique(old(self)@.interner, s@, id as int);
            }
        }
        proof {
            let n = self@.interner.len() as int;
            assert forall|i: int, k: Seq<char>|
                0 <= i < self@.scopes.len() && #[trigger] self@.scopes[i].contains_key(
                    k,
                ) implies sval_ok(self@.scopes[i][k], n) by {
                assert(self@.scopes[i] == old(self)@.scopes[i]);
                lemma_sval_ok_grow(
                    self@.scopes[i][k],
                    old(self)@.interner.len() as int,
                    n,
                );
            }
        }
        id
    }

    /// A copy of the interned text with the given handle.
    pub fn interned(&self, id: usize) -> (r: String)
        requires
            self.wf(),
            id < self@.interner.len(),
        ensures
            r@ == self@.interner[id as int],
    {
        self.interner.get(id)
    }

    /// Appends one line to the print output.
    pub fn write_output(&mut self, line: String)
        requires
            old(self).wf(),
        ensures
            final(self).wf(),
            final(self)@ == st_out(old(self)@, line@),
    {
        self.output.push(line);
        proof {
            assert(final(self)@.scopes =~= old(self)@.scopes);
            assert(final(self)@.output =~= old(self)@.output.push(line@));
            assert(final(self)@ =~= st_out(old(self)@, line@));
        }
    }

    /// The textual representation of a value: what `print` writes and
    /// what a session shows for a result.
    #[verifier::loop_isolation(false)]
    pub fn render(&self, v: &Val) -> (r: String)
        requires
            self.wf(),
            sval_ok(v@, self@.interner.len() as int),
        ensures
            r@ == render_val(v@, self@.interner),
        decreases v,
    {
        match v {
            Val::Number(n) => int_to_string(*n),
            Val::Float(d) => {
                let mut s = String::new();
                if d.neg {
                    push_char(&mut s, '-');
                    proof {
                        assert(s@ =~= seq!['-']);
                    }
                }
                let whole = nat_to_string(d.whole);
                s.append(whole.as_str());
                push_char(&mut s, '.');
                if d.frac.unicode_len() == 0 {
                    push_char(&mut s, '0');
                    proof {
                        assert(s@ =~= render_val(v@, self@.interner));
                    }
                } else {
                    s.append(d.frac.as_str());
                    proof {
                        assert(s@ =~= render_val(v@, self@.interner));
                    }
                }
                s
            },
            Val::Str(id) => self.interner.get(*id),
            Val::Bool(b) => {
                proof {
                    reveal_strlit("true");
                    reveal_strlit("false");
                    assert("true"@ =~= seq!['t', 'r', 'u', 'e']);
                    assert("false"@ =~= seq!['f', 'a', 'l', 's', 'e']);
                }
                if *b {
                    "true".to_owned()
                } else {
                    "false".to_owned()
                }
            },
            Val::Func { params, .. } => {
                let mut s = String::new();
                proof {
                    reveal_strlit("fn(");
                    assert("fn("@ =~= seq!['f', 'n', '(']);
                }
                s.append("fn(");
                let ghost pview = Seq::new(params@.len(), |i: int| params@[i]@);
                let n = params.len();
                let mut i: usize = 0;
                proof {
                    assert(pview.subrange(0, 0) =~= Seq::<Seq<char>>::empty());
                }
                while i < n
                    invariant
                        i <= n,
                        s@ == seq!['f', 'n', '('] + join_comma(pview.subrange(0, i as int)),
                    decreases n - i,
                {
                    if i > 0 {
                        proof {
                            reveal_strlit(", ");
                            assert(", "@ =~= seq![',', ' ']);
                        }
                        s.append(", ");
                    }
                    s.append(params[i].as_str());
                    proof {
                        assert(pview.subrange(0, i + 1).drop_last() =~= pview.subrange(
                            0,
                            i as int,
                        ));
                        assert(pview.subrange(0, i + 1).last() == params@[i as int]@);
                    }
                    i = i + 1;
                }
                push_char(&mut s, ')');
                proof {
                    assert(pview.subrange(0, n as int) =~= pview);
                    assert(s@ =~= render_val(v@, self@.interner));
                }
                s
            },
            Val::List(items) => {
                let mut s = String::new();
                push_char(&mut s, '[');
                let ghost rview = render_items(vals_view(items@), self@.interner);
                proof {
                    lemma_vals_view(items@);
                    lemma_render_items(vals_view(items@), self@.interner);
                    assert(s@ =~= seq!['[']);
                    assert(rview.subrange(0, 0) =~= Seq::<Seq<char>>::empty());
                }
                let n = items.len();
                let mut i: usize = 0;
                while i < n
                    invariant
                        i <= n,
                        s@ == seq!['['] + join_comma(rview.subrange(0, i as int)),
                    decreases n - i,
                {
                    if i > 0 {
                        proof {
                            reveal_strlit(", ");
                            assert(", "@ =~= seq![',', ' ']);
                        }
                        s.append(", ");
                    }
                    let item: &Val = &items[i];
                    proof {
                        assert(decreases_to!(*v => items@[i as int]));
                        assert(v@ == SpecVal::List(vals_view(items@)));
                        lemma_sval_ok_list(vals_view(items@), self@.interner.len() as int);
                        assert(sval_ok(vals_view(items@)[i as int], self@.interner.len() as int));
                        assert(item@ == vals_view(items@)[i as int]);
                    }
                    let piece = self.render(item);
                    s.append(piece.as_str());
                    proof {
                        assert(rview[i as int] == render_val(items@[i as int]@, self@.interner));
                        assert(rview.subrange(0, i + 1).drop_last() =~= rview.subrange(
                            0,
                            i as int,
                        ));
                        assert(rview.subrange(0, i + 1).last() == rview[i as int]);
                    }
                    i = i + 1;
                }
                push_char(&mut s, ']');
                proof {
                    assert(rview.subrange(0, n as int) =~= rview);
                    assert(s@ =~= render_val(v@, self@.interner));
                }
                s
            },
            Val::Unit => {
                proof {
                    reveal_strlit("Unit");
                    assert("Unit"@ =~= seq!['U', 'n', 'i', 't']);
                }
                "Unit".to_owned()
            },
        }
    }

    /// Removes and returns the lines printed so far, oldest first.
    pub fn take_output(&mut self) -> (r: Vec<String>)
        requires
            old(self).wf(),
        ensures
            final(self).wf(),
            final(self)@.scopes =~= old(self)@.scopes,
            final(self)@.interner == old(self)@.interner,
            final(self)@.output =~= Seq::<Seq<char>>::empty(),
            r@.len() == old(self)@.output.len(),
            forall|i: int| 0 <= i < r@.len() ==> #[trigger] r@[i]@ == old(self)@.output[i],
    {
        let mut out: Vec<String> = Vec::new();
        core::mem::swap(&mut out, &mut self.output);
        proof {
            assert(final(self)@.output =~= Seq::<Seq<char>>::empty());
        }
        out
    }

    /// How many scopes are currently open.
    pub fn depth(&self) -> (r: usize)
        ensures
            r == self@.scopes.len(),
    {
        self.scopes.len()
    }
}

} // verus!
