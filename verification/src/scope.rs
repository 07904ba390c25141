use vstd::prelude::*;

use crate::data::{Cell, CellVal, view_cell, view_cells};
use crate::data::lemma_view_cells_len;
use crate::errors::Error;
use crate::row::dup_val;

verus! {

// ---------------------------------------------------------------------------
// Scopes: name-to-cell binding tables with parent-delegated lookup. The
// parent chain is a handle into an arena of scopes, never an owning link,
// so parent and child cannot form a lifetime cycle; a parent always has a
// smaller arena index than its children, which also bounds lookup chains.
// ---------------------------------------------------------------------------

pub struct ScopeData {
    pub parent: Option<usize>,
    pub names: Vec<String>,
    pub values: Vec<Cell>,
}

/// Mathematical model of one scope.
#[verifier::ext_equal]
pub struct ScopeVal {
    pub parent: Option<int>,
    pub names: Seq<Seq<char>>,
    pub values: Seq<CellVal>,
}

pub open spec fn view_scope(sd: ScopeData) -> ScopeVal {
    ScopeVal {
        parent: match sd.parent {
            Some(p) => Some(p as int),
            None => None,
        },
        names: sd.names@.map_values(|n: String| n@),
        values: view_cells(sd.values@),
    }
}

pub open spec fn wf_scope(s: ScopeVal, i: int) -> bool {
    &&& (s.parent matches Some(p) ==> 0 <= p < i)
    &&& s.names.len() == s.values.len()
}

pub open spec fn wf_arena(a: Seq<ScopeVal>) -> bool {
    forall|i: int| 0 <= i < a.len() ==> wf_scope(#[trigger] a[i], i)
}

/// The index of the first binding of `name`, or -1 when there is none.
pub open spec fn find_idx(names: Seq<Seq<char>>, name: Seq<char>) -> int
    decreases names.len(),
{
    if names.len() == 0 {
        -1
    } else if names[0] == name {
        0
    } else {
        let r: int = find_idx(names.drop_first(), name);
        if r < 0 {
            -1
        } else {
            1 + r
        }
    }
}

pub proof fn lemma_find_idx_bounds(names: Seq<Seq<char>>, name: Seq<char>)
    ensures
        find_idx(names, name) >= 0 ==> find_idx(names, name) < names.len() && names[find_idx(
            names,
            name,
        )] == name,
        find_idx(names, name) < 0 ==> forall|i: int| 0 <= i < names.len() ==> names[i] != name,
    decreases names.len(),
{
    if names.len() > 0 {
        lemma_find_idx_bounds(names.drop_first(), name);
        if names[0] != name {
            assert(forall|i: int|
                1 <= i < names.len() ==> #[trigger] names[i] == names.drop_first()[i - 1]);
        }
    }
}

pub proof fn lemma_find_idx_char(names: Seq<Seq<char>>, name: Seq<char>, k: int)
    requires
        0 <= k < names.len(),
        names[k] == name,
        forall|j: int| 0 <= j < k ==> names[j] != name,
    ensures
        find_idx(names, name) == k,
    decreases names.len(),
{
    if k > 0 {
        assert(forall|j: int|
            0 <= j < k - 1 ==> names.drop_first()[j] == #[trigger] names[j + 1]);
        lemma_find_idx_char(names.drop_first(), name, k - 1);
    }
}

pub proof fn lemma_find_idx_push(names: Seq<Seq<char>>, x: Seq<char>, m: Seq<char>)
    requires
        m != x,
    ensures
        find_idx(names.push(x), m) == find_idx(names, m),
    decreases names.len(),
{
    if names.len() == 0 {
        assert(names.push(x).drop_first() =~= Seq::<Seq<char>>::empty());
        assert(find_idx(names.push(x), m) == -1) by {
            reveal_with_fuel(find_idx, 2);
        }
    } else {
        lemma_find_idx_push(names.drop_first(), x, m);
        assert(names.push(x).drop_first() =~= names.drop_first().push(x));
        assert(names.push(x)[0] == names[0]);
    }
}

/// What one scope binds `name` to locally, if anything.
pub open spec fn find_local(s: ScopeVal, name: Seq<char>) -> Option<CellVal> {
    let i: int = find_idx(s.names, name);
    if i < 0 || i >= s.values.len() {
        None
    } else {
        Some(s.values[i])
    }
}

/// What lookup at scope `s` resolves `name` to: the local binding when
/// there is one, else the parent's resolution, resolved dynamically at
/// lookup time (not snapshotted at child creation).
pub open spec fn resolve(a: Seq<ScopeVal>, s: int, name: Seq<char>) -> Option<CellVal>
    decreases s,
{
    if !(0 <= s < a.len()) {
        None
    } else {
        match find_local(a[s], name) {
            Some(v) => Some(v),
            None => match a[s].parent {
                Some(p) => if 0 <= p < s {
                    resolve(a, p, name)
                } else {
                    None
                },
                None => None,
            },
        }
    }
}

/// The position of the first binding of `name` in `names`, as the scan
/// `find_idx` describes it.
fn find_in_names(names: &Vec<String>, name: &String) -> (r: Option<usize>)
    ensures
        r matches Some(i) ==> find_idx(names@.map_values(|n: String| n@), name@) == i as int
            && i < names@.len(),
        r is None ==> find_idx(names@.map_values(|n: String| n@), name@) < 0,
{
    let ghost nv = names@.map_values(|n: String| n@);
    let mut i: usize = 0;
    while i < names.len()
        invariant
            i <= names.len(),
            nv == names@.map_values(|n: String| n@),
            forall|j: int| 0 <= j < i ==> nv[j] != name@,
        decreases names.len() - i,
    {
        if names[i].eq(name) {
            proof {
                lemma_find_idx_char(nv, name@, i as int);
            }
            return Some(i);
        }
        i = i + 1;
    }
    proof {
        lemma_find_idx_bounds(nv, name@);
        if find_idx(nv, name@) >= 0 {
            assert(nv[find_idx(nv, name@)] == name@);
        }
    }
    None
}

/// The arena holding every scope; a scope is named by its index into it.
pub struct ScopeArena {
    pub scopes: Vec<ScopeData>,
}

pub open spec fn view_arena(a: ScopeArena) -> Seq<ScopeVal> {
    a.scopes@.map_values(|sd: ScopeData| view_scope(sd))
}

impl ScopeArena {
    pub fn new() -> (a: ScopeArena)
        ensures
            view_arena(a).len() == 0,
            wf_arena(view_arena(a)),
    {
        ScopeArena { scopes: Vec::new() }
    }

    /// A fresh scope with no parent and no bindings.
    pub fn create_root(&mut self) -> (s: usize)
        requires
            wf_arena(view_arena(*old(self))),
        ensures
            wf_arena(view_arena(*final(self))),
            s == view_arena(*old(self)).len(),
            view_arena(*final(self)) == view_arena(*old(self)).push(
                ScopeVal { parent: None, names: Seq::empty(), values: Seq::empty() },
            ),
    {
        let s = self.scopes.len();
        self.scopes.push(ScopeData { parent: None, names: Vec::new(), values: Vec::new() });
        proof {
            assert(view_arena(*self) =~~= view_arena(*old(self)).push(
                ScopeVal { parent: None, names: Seq::empty(), values: Seq::empty() },
            ));
        }
        s
    }

    /// A fresh scope whose lookups delegate to `parent`; mutations of the
    /// child are invisible to the parent and to sibling children.
    pub fn create_child(&mut self, parent: usize) -> (s: usize)
        requires
            wf_arena(view_arena(*old(self))),
            parent < view_arena(*old(self)).len(),
        ensures
            wf_arena(view_arena(*final(self))),
            s == view_arena(*old(self)).len(),
            view_arena(*final(self)) == view_arena(*old(self)).push(
                ScopeVal { parent: Some(parent as int), names: Seq::empty(), values: Seq::empty() },
            ),
    {
        let s = self.scopes.len();
        self.scopes.push(
            ScopeData { parent: Some(parent), names: Vec::new(), values: Vec::new() },
        );
        proof {
            assert(view_arena(*self) =~~= view_arena(*old(self)).push(
                ScopeVal {
                    parent: Some(parent as int),
                    names: Seq::empty(),
                    values: Seq::empty(),
                },
            ));
        }
        s
    }

    /// Inserts or overwrites a binding in scope `scope` alone; every other
    /// scope, and every other name of this scope, is untouched.
    pub fn declare(&mut self, scope: usize, name: String, value: Cell)
        requires
            wf_arena(view_arena(*old(self))),
            scope < view_arena(*old(self)).len(),
        ensures
            wf_arena(view_arena(*final(self))),
            view_arena(*final(self)).len() == view_arena(*old(self)).len(),
            forall|q: int|
                0 <= q < view_arena(*old(self)).len() && q != scope ==> view_arena(
                    *final(self),
                )[q] == view_arena(*old(self))[q],
            view_arena(*final(self))[scope as int].parent == view_arena(*old(self))[
                scope as int
            ].parent,
            find_local(view_arena(*final(self))[scope as int], name@) == Some(view_cell(value)),
            forall|m: Seq<char>|
                m != name@ ==> find_local(view_arena(*final(self))[scope as int], m)
                    == find_local(view_arena(*old(self))[scope as int], m),
    {
        let ghost a0 = view_arena(*self);
        let ghost s0 = a0[scope as int];
        proof {
            assert(s0 == view_scope(self.scopes@[scope as int]));
            assert(wf_scope(s0, scope as int));
        }
        let found = find_in_names(&self.scopes[scope].names, &name);
        match found {
            Some(at) => {
                proof {
                    lemma_view_cells_len(self.scopes@[scope as int].values@);
                }
                self.scopes[scope].values[at] = value;
                proof {
                    let s1 = view_scope(self.scopes@[scope as int]);
                    lemma_view_cells_len(self.scopes@[scope as int].values@);
                    assert(s1.names =~= s0.names);
                    assert(s1.values =~= s0.values.update(at as int, view_cell(value)));
                    assert(view_arena(*self) =~~= a0.update(scope as int, s1));
                    lemma_find_idx_bounds(s0.names, name@);
                    assert forall|m: Seq<char>| m != name@ implies find_local(s1, m)
                        == find_local(s0, m) by {
                        lemma_find_idx_bounds(s0.names, m);
                        if find_idx(s0.names, m) >= 0 {
                            assert(s0.names[find_idx(s0.names, m)] == m);
                        }
                    }
                }
            },
            None => {
                proof {
                    lemma_view_cells_len(self.scopes@[scope as int].values@);
                }
                self.scopes[scope].names.push(name);
                self.scopes[scope].values.push(value);
                proof {
                    let s1 = view_scope(self.scopes@[scope as int]);
                    lemma_view_cells_len(self.scopes@[scope as int].values@);
                    crate::data::lemma_view_cells_push(old(self).scopes@[scope as int].values@, value);
                    assert(s1.names =~= s0.names.push(name@));
                    assert(s1.values =~= s0.values.push(view_cell(value)));
                    lemma_find_idx_bounds(s0.names, name@);
                    assert(view_arena(*self) =~~= a0.update(scope as int, s1));
                    lemma_find_idx_char(s1.names, name@, s0.names.len() as int);
                    assert forall|m: Seq<char>| m != name@ implies find_local(s1, m)
                        == find_local(s0, m) by {
                        lemma_find_idx_push(s0.names, name@, m);
                        lemma_find_idx_bounds(s0.names, m);
                    }
                }
            },
        }
    }

    /// Resolves `name` at `scope`: locally first, else through the parent
    /// chain; an unresolved name fails with a NameError, and a resolved
    /// cell that cannot be duplicated fails with a CloneError.
    pub fn lookup(&self, scope: usize, name: &String) -> (r: Result<Cell, Error>)
        requires
            wf_arena(view_arena(*self)),
            scope < view_arena(*self).len(),
        ensures
            resolve(view_arena(*self), scope as int, name@) is None ==> r == Err::<Cell, Error>(
                Error::NameError,
            ),
            resolve(view_arena(*self), scope as int, name@) matches Some(v) ==> {
                &&& dup_val(v) ==> r is Ok && view_cell(r.unwrap()) == v
                &&& !dup_val(v) ==> r == Err::<Cell, Error>(Error::CloneError)
            },
    {
        let ghost a = view_arena(*self);
        let mut cur: usize = scope;
        loop
            invariant
                wf_arena(a),
                a == view_arena(*self),
                cur < a.len(),
                resolve(a, scope as int, name@) == resolve(a, cur as int, name@),
            decreases cur,
        {
            proof {
                assert(a[cur as int] == view_scope(self.scopes@[cur as int]));
                lemma_view_cells_len(self.scopes@[cur as int].values@);
            }
            let found = find_in_names(&self.scopes[cur].names, name);
            match found {
                Some(at) => {
                    return self.scopes[cur].values[at].partial_clone();
                },
                None => {
                    match self.scopes[cur].parent {
                        Some(p) => {
                            cur = p;
                        },
                        None => {
                            return Err(Error::NameError);
                        },
                    }
                },
            }
        }
    }
}

// ---------------------------------------------------------------------------
// Scope isolation: a child's bindings never leak into its parent or into
// sibling scopes, while the child itself sees them at once.
// ---------------------------------------------------------------------------

/// Resolution at a scope only reads scopes with an index no larger than
/// its own, so an arena extended or changed strictly above `s` resolves
/// every name at `s` exactly as before.
pub proof fn lemma_resolve_frame(a: Seq<ScopeVal>, b: Seq<ScopeVal>, s: int, name: Seq<char>)
    requires
        wf_arena(a),
        wf_arena(b),
        0 <= s < a.len(),
        b.len() >= a.len(),
        forall|i: int| 0 <= i <= s ==> a[i] == b[i],
    ensures
        resolve(b, s, name) == resolve(a, s, name),
    decreases s,
{
    if find_local(a[s], name) is None {
        match a[s].parent {
            Some(p) => {
                lemma_resolve_frame(a, b, p, name);
            },
            None => {},
        }
    }
}

/// A fresh child with no local bindings resolves every name exactly as its
/// parent does at that moment.
pub proof fn lemma_child_delegates(
    a: Seq<ScopeVal>,
    b: Seq<ScopeVal>,
    p: int,
    c: int,
    name: Seq<char>,
)
    requires
        wf_arena(a),
        wf_arena(b),
        0 <= p < a.len(),
        c == a.len(),
        b.len() == a.len() + 1,
        forall|i: int| 0 <= i < a.len() ==> b[i] == a[i],
        b[c].parent == Some(p),
        find_local(b[c], name) is None,
    ensures
        resolve(b, c, name) == resolve(a, p, name),
{
    lemma_resolve_frame(a, b, p, name);
}

/// Scope isolation: after a child scope declares a binding, the child sees
/// it, while the parent — and with it every pre-existing scope, so any
/// sibling child created before or after — still resolves the name exactly
/// as it did before the child existed.
pub proof fn lemma_scope_isolation(
    a: Seq<ScopeVal>,
    b: Seq<ScopeVal>,
    p: int,
    c: int,
    name: Seq<char>,
    vc: CellVal,
)
    requires
        wf_arena(a),
        wf_arena(b),
        0 <= p < a.len(),
        c == a.len(),
        b.len() == a.len() + 1,
        forall|i: int| 0 <= i < a.len() ==> b[i] == a[i],
        b[c].parent == Some(p),
        find_local(b[c], name) == Some(vc),
    ensures
        resolve(b, c, name) == Some(vc),
        resolve(b, p, name) == resolve(a, p, name),
        forall|q: int| 0 <= q < a.len() ==> resolve(b, q, name) == resolve(a, q, name),
{
    assert forall|q: int| 0 <= q < a.len() implies resolve(b, q, name) == resolve(a, q, name) by {
        lemma_resolve_frame(a, b, q, name);
    }
}

} // verus!
