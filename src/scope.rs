//! Lexically scoped bindings: nested scopes, shadowing and mutability.
//!
//! Bindings are kept in the order they were made; each open scope remembers
//! how many bindings existed when it was entered. A name resolves to its most
//! recent binding, and leaving a scope drops the bindings made inside it.
use vstd::prelude::*;
use crate::text::chars_of;

verus! {

/// One binding: a name, its value, and whether it may be reassigned.
pub struct Binding {
    pub name: Vec<char>,
    pub value: i128,
    pub mutable: bool,
}

/// What a binding is, as a plain value.
pub type BindingView = (Seq<char>, i128, bool);

/// The bindings, oldest first, and for each open inner scope the number of
/// bindings when it was entered.
pub type ScopeView = (Seq<BindingView>, Seq<int>);

/// Why an assignment was refused.
#[derive(Clone, Copy, Debug, PartialEq, Eq, Structural)]
pub enum ScopeError {
    /// No binding has that name.
    Unbound,
    /// The binding the name resolves to was not declared mutable.
    Immutable,
}

/// A stack of scopes holding bindings.
pub struct Scopes {
    bindings: Vec<Binding>,
    marks: Vec<usize>,
}

pub open spec fn binding_view(b: Binding) -> BindingView {
    (b.name@, b.value, b.mutable)
}

/// The position of the most recent binding of `name`.
pub open spec fn resolve(bs: Seq<BindingView>, name: Seq<char>) -> Option<int>
    decreases bs.len(),
{
    if bs.len() == 0 {
        None
    } else if bs.last().0 == name {
        Some(bs.len() - 1)
    } else {
        resolve(bs.drop_last(), name)
    }
}

/// The value that `name` resolves to.
pub open spec fn value_named(v: ScopeView, name: Seq<char>) -> Option<i128> {
    match resolve(v.0, name) {
        Some(k) => Some(v.0[k].1),
        None => None,
    }
}

pub open spec fn well_formed(v: ScopeView) -> bool {
    &&& forall|k: int| 0 <= k < v.1.len() ==> 0 <= #[trigger] v.1[k] <= v.0.len()
    &&& forall|i: int, j: int| 0 <= i <= j < v.1.len() ==> #[trigger] v.1[i] <= #[trigger] v.1[j]
}

pub open spec fn declared(v: ScopeView, name: Seq<char>, value: i128, mutable: bool) -> ScopeView {
    (v.0.push((name, value, mutable)), v.1)
}

pub open spec fn entered(v: ScopeView) -> ScopeView {
    (v.0, v.1.push(v.0.len() as int))
}

pub open spec fn exited(v: ScopeView) -> ScopeView {
    if v.1.len() == 0 {
        v
    } else {
        (v.0.take(v.1.last()), v.1.drop_last())
    }
}

/// The outcome of assigning `value` to `name`.
pub open spec fn assigned(v: ScopeView, name: Seq<char>, value: i128) -> Result<ScopeView, ScopeError> {
    match resolve(v.0, name) {
        None => Err(ScopeError::Unbound),
        Some(k) => if !v.0[k].2 {
            Err(ScopeError::Immutable)
        } else {
            Ok((v.0.update(k, (v.0[k].0, value, true)), v.1))
        },
    }
}

impl View for Scopes {
    type V = ScopeView;

    closed spec fn view(&self) -> ScopeView {
        (self.bindings@.map_values(|b: Binding| binding_view(b)), self.marks@.map_values(|m: usize| m as int))
    }
}

proof fn lemma_resolve_bound(bs: Seq<BindingView>, name: Seq<char>)
    ensures
        resolve(bs, name) matches Some(k) ==> 0 <= k < bs.len() && bs[k].0 == name,
    decreases bs.len(),
{
    if bs.len() > 0 {
        lemma_resolve_bound(bs.drop_last(), name);
    }
}

/// Whether `a` and `b` hold the same characters.
fn same_name(a: &Vec<char>, b: &Vec<char>) -> (r: bool)
    ensures
        r == (a@ == b@),
{
    if a.len() != b.len() {
        return false;
    }
    let mut k: usize = 0;
    while k < a.len()
        invariant
            a@.len() == b@.len(),
            k <= a@.len(),
            forall|m: int| 0 <= m < k ==> a@[m] == b@[m],
        decreases a.len() - k,
    {
        if a[k] != b[k] {
            return false;
        }
        k = k + 1;
    }
    assert(a@ =~= b@);
    true
}

impl Scopes {
    pub open spec fn wf(&self) -> bool {
        well_formed(self@)
    }

    /// The outermost scope, with no bindings.
    pub fn new() -> (s: Scopes)
        ensures
            s@.0.len() == 0,
            s@.1.len() == 0,
            s.wf(),
    {
        Scopes { bindings: Vec::new(), marks: Vec::new() }
    }

    /// The number of inner scopes that are open.
    pub fn depth(&self) -> (n: usize)
        ensures
            n == self@.1.len(),
    {
        self.marks.len()
    }

    /// Opens an inner scope.
    pub fn enter(&mut self)
        requires
            old(self).wf(),
        ensures
            final(self).wf(),
            final(self)@ == entered(old(self)@),
    {
        let n = self.bindings.len();
        self.marks.push(n);
        proof {
            assert(self@.0 =~= old(self)@.0);
            assert(self@.1 =~= entered(old(self)@).1);
        }
    }

    /// Closes the innermost open scope, dropping the bindings made in it;
    /// `false`, with nothing changed, when only the outermost scope is open.
    pub fn exit(&mut self) -> (closed: bool)
        requires
            old(self).wf(),
        ensures
            final(self).wf(),
            final(self)@ == exited(old(self)@),
            closed == (old(self)@.1.len() > 0),
    {
        match self.marks.pop() {
            None => false,
            Some(m) => {
                let ghost pre = old(self)@;
                assert(pre.1.last() == m as int);
                self.bindings.truncate(m);
                proof {
                    assert(self@.0 =~= pre.0.take(m as int));
                    assert(self@.1 =~= pre.1.drop_last());
                    assert forall|k: int| 0 <= k < self@.1.len() implies 0 <= #[trigger] self@.1[k] <= self@.0.len() by {
                        assert(self@.1[k] == pre.1[k]);
                        assert(pre.1[k] <= pre.1[pre.1.len() - 1]);
                    }
                    assert forall|i: int, j: int| 0 <= i <= j < self@.1.len() implies #[trigger] self@.1[i] <= #[trigger] self@.1[j] by {
                        assert(self@.1[i] == pre.1[i]);
                        assert(self@.1[j] == pre.1[j]);
                    }
                }
                true
            },
        }
    }

    /// Binds `name` to `value` in the innermost scope, shadowing any earlier
    /// binding of the same name.
    pub fn declare(&mut self, name: &str, value: i128, mutable: bool)
        requires
            old(self).wf(),
        ensures
            final(self).wf(),
            final(self)@ == declared(old(self)@, name@, value, mutable),
    {
        self.bindings.push(Binding { name: chars_of(name), value, mutable });
        proof {
            assert(self@.0 =~= declared(old(self)@, name@, value, mutable).0);
            assert(self@.1 =~= old(self)@.1);
        }
    }

    fn find(&self, name: &Vec<char>) -> (r: Option<usize>)
        ensures
            r matches Some(k) ==> resolve(self@.0, name@) == Some(k as int),
            r is None ==> resolve(self@.0, name@) is None,
    {
        let mut k = self.bindings.len();
        assert(self@.0.take(k as int) =~= self@.0);
        while k > 0
            invariant
                k <= self@.0.len(),
                resolve(self@.0, name@) == resolve(self@.0.take(k as int), name@),
            decreases k,
        {
            let ghost pre = self@.0.take(k as int);
            assert(pre.drop_last() =~= self@.0.take(k - 1));
            if same_name(&self.bindings[k - 1].name, name) {
                return Some(k - 1);
            }
            k = k - 1;
        }
        None
    }

    /// The value that `name` resolves to.
    pub fn get(&self, name: &str) -> (r: Option<i128>)
        ensures
            r == value_named(self@, name@),
    {
        proof {
            lemma_resolve_bound(self@.0, name@);
        }
        match self.find(&chars_of(name)) {
            Some(k) => Some(self.bindings[k].value),
            None => None,
        }
    }

    /// Gives `value` to the binding that `name` resolves to. Refused, with
    /// nothing changed, when there is none or it was not declared mutable.
    pub fn assign(&mut self, name: &str, value: i128) -> (r: Result<(), ScopeError>)
        requires
            old(self).wf(),
        ensures
            final(self).wf(),
            r is Ok ==> assigned(old(self)@, name@, value) == Ok::<ScopeView, ScopeError>(final(self)@),
            r matches Err(e) ==> assigned(old(self)@, name@, value) == Err::<ScopeView, ScopeError>(e)
                && final(self)@ == old(self)@,
    {
        proof {
            lemma_resolve_bound(self@.0, name@);
        }
        let k = match self.find(&chars_of(name)) {
            None => return Err(ScopeError::Unbound),
            Some(k) => k,
        };
        if !self.bindings[k].mutable {
            return Err(ScopeError::Immutable);
        }
        let n = self.bindings[k].name.clone();
        self.bindings.set(k, Binding { name: n, value, mutable: true });
        proof {
            assert(self@.0 =~= old(self)@.0.update(k as int, (old(self)@.0[k as int].0, value, true)));
            assert(self@.1 =~= old(self)@.1);
        }
        Ok(())
    }
}

/// Binding a name twice leaves only the later binding reachable by it.
pub proof fn lemma_shadowing(v: ScopeView, name: Seq<char>, first: i128, second: i128, m1: bool, m2: bool)
    ensures
        value_named(declared(declared(v, name, first, m1), name, second, m2), name) == Some(second),
{
}

/// Leaving a scope in which only declarations were made gives back every
/// binding of the enclosing scope, with its value unchanged.
pub proof fn lemma_scope_exit_restores(v: ScopeView, inner: Seq<BindingView>, name: Seq<char>)
    requires
        well_formed(v),
    ensures
        exited((entered(v).0 + inner, entered(v).1)) == v,
        value_named(exited((entered(v).0 + inner, entered(v).1)), name) == value_named(v, name),
{
    let w = (entered(v).0 + inner, entered(v).1);
    assert(w.1.last() == v.0.len());
    assert(w.0.take(v.0.len() as int) =~= v.0);
    assert(w.1.drop_last() =~= v.1);
}

/// A binding that was not declared mutable cannot be reassigned: the attempt
/// is refused and nothing changes.
pub proof fn lemma_immutable_refused(v: ScopeView, name: Seq<char>, value: i128, initial: i128)
    ensures
        assigned(declared(v, name, initial, false), name, value) == Err::<ScopeView, ScopeError>(ScopeError::Immutable),
{
}

} // verus!
