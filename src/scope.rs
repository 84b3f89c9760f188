//! Variable scopes: the bindings of one block, and the stack of the blocks
//! being evaluated.

use vstd::prelude::*;

verus! {

/// The bindings that an association list holds, a later entry over an earlier one.
pub open spec fn entries_map<V>(s: Seq<(String, V)>) -> Map<Seq<char>, V>
    decreases s.len(),
{
    if s.len() == 0 {
        Map::empty()
    } else {
        entries_map(s.drop_last()).insert(s.last().0@, s.last().1)
    }
}

pub open spec fn keys_unique<V>(s: Seq<(String, V)>) -> bool {
    forall|i: int, j: int| 0 <= i < j < s.len() ==> s[i].0@ != s[j].0@
}

proof fn lemma_entries_has<V>(s: Seq<(String, V)>, j: int)
    requires
        keys_unique(s),
        0 <= j < s.len(),
    ensures
        entries_map(s).contains_key(s[j].0@),
        entries_map(s)[s[j].0@] == s[j].1,
    decreases s.len(),
{
    if j < s.len() - 1 {
        lemma_entries_has(s.drop_last(), j);
    }
}

proof fn lemma_entries_lacks<V>(s: Seq<(String, V)>, k: Seq<char>)
    requires
        forall|j: int| 0 <= j < s.len() ==> s[j].0@ != k,
    ensures
        !entries_map(s).contains_key(k),
    decreases s.len(),
{
    if s.len() > 0 {
        lemma_entries_lacks(s.drop_last(), k);
    }
}

proof fn lemma_entries_update<V>(s: Seq<(String, V)>, j: int, k: String, v: V)
    requires
        keys_unique(s),
        0 <= j < s.len(),
        k@ == s[j].0@,
    ensures
        entries_map(s.update(j, (k, v))) == entries_map(s).insert(k@, v),
    decreases s.len(),
{
    let t = s.update(j, (k, v));
    if j == s.len() - 1 {
        assert(t.drop_last() =~= s.drop_last());
        assert(entries_map(t) =~= entries_map(s).insert(k@, v));
    } else {
        assert(t.drop_last() =~= s.drop_last().update(j, (k, v)));
        lemma_entries_update(s.drop_last(), j, k, v);
        assert(entries_map(t) =~= entries_map(s).insert(k@, v));
    }
}

/// The bindings of one block, in the order in which they were made.
pub struct Scope<V> {
    entries: Vec<(String, V)>,
}

impl<V> View for Scope<V> {
    type V = Map<Seq<char>, V>;

    closed spec fn view(&self) -> Map<Seq<char>, V> {
        entries_map(self.entries@)
    }
}

impl<V: Copy> Scope<V> {
    /// Each name is bound once.
    pub closed spec fn wf(&self) -> bool {
        keys_unique(self.entries@)
    }

    /// A scope without bindings.
    pub fn new() -> (r: Scope<V>)
        ensures
            r.wf(),
            r@ == Map::<Seq<char>, V>::empty(),
    {
        let r = Scope { entries: Vec::new() };
        assert(r@ =~= Map::<Seq<char>, V>::empty());
        r
    }

    fn position(&self, name: &String) -> (r: Option<usize>)
        requires
            self.wf(),
        ensures
            match r {
                Some(j) => j < self.entries@.len() && self.entries@[j as int].0@ == name@
                    && self@.contains_key(name@) && self@[name@] == self.entries@[j as int].1,
                None => !self@.contains_key(name@) && forall|i: int|
                    0 <= i < self.entries@.len() ==> self.entries@[i].0@ != name@,
            },
    {
        let mut j: usize = 0;
        while j < self.entries.len()
            invariant
                self.wf(),
                j <= self.entries@.len(),
                forall|i: int| 0 <= i < j ==> self.entries@[i].0@ != name@,
            decreases self.entries@.len() - j,
        {
            if self.entries[j].0 == *name {
                proof {
                    lemma_entries_has(self.entries@, j as int);
                }
                return Some(j);
            }
            j = j + 1;
        }
        proof {
            lemma_entries_lacks(self.entries@, name@);
        }
        None
    }

    /// Whether `name` is bound here.
    pub fn contains(&self, name: &String) -> (r: bool)
        requires
            self.wf(),
        ensures
            r == self@.contains_key(name@),
    {
        self.position(name).is_some()
    }

    /// The value bound to `name` here, if any.
    pub fn get(&self, name: &String) -> (r: Option<V>)
        requires
            self.wf(),
        ensures
            r == (if self@.contains_key(name@) {
                Some(self@[name@])
            } else {
                None::<V>
            }),
    {
        match self.position(name) {
            Some(j) => Some(self.entries[j].1),
            None => None,
        }
    }

    /// Binds `name` to `value`, in place if it is bound already, else as a new
    /// binding after the others.
    pub fn set(&mut self, name: String, value: V)
        requires
            old(self).wf(),
        ensures
            final(self).wf(),
            final(self)@ == old(self)@.insert(name@, value),
    {
        match self.position(&name) {
            Some(j) => {
                proof {
                    lemma_entries_update(self.entries@, j as int, name, value);
                }
                self.entries.set(j, (name, value));
            },
            None => {
                proof {
                    lemma_entries_lacks(self.entries@, name@);
                }
                let ghost s = self.entries@;
                self.entries.push((name, value));
                assert(self.entries@.drop_last() =~= s);
            },
        }
    }

    /// The bindings, in the order in which they were made.
    pub fn into_entries(self) -> (r: Vec<(String, V)>)
        requires
            self.wf(),
        ensures
            entries_map(r@) == self@,
            keys_unique(r@),
    {
        self.entries
    }
}

/// The innermost scope of `stack` (the last one) that binds `name`.
pub open spec fn innermost_holding<V>(stack: Seq<Map<Seq<char>, V>>, name: Seq<char>) -> Option<
    int,
>
    decreases stack.len(),
{
    if stack.len() == 0 {
        None
    } else if stack.last().contains_key(name) {
        Some(stack.len() - 1)
    } else {
        innermost_holding(stack.drop_last(), name)
    }
}

/// The value of `name` in the innermost scope that binds it.
pub open spec fn resolve<V>(stack: Seq<Map<Seq<char>, V>>, name: Seq<char>) -> Option<V> {
    match innermost_holding(stack, name) {
        Some(i) => Some(stack[i][name]),
        None => None,
    }
}

/// The stack after `name := value`: the innermost scope that binds `name`
/// rebinds it; where none does, the innermost scope gains it.
pub open spec fn assigned<V>(stack: Seq<Map<Seq<char>, V>>, name: Seq<char>, value: V) -> Seq<
    Map<Seq<char>, V>,
> {
    match innermost_holding(stack, name) {
        Some(i) => stack.update(i, stack[i].insert(name, value)),
        None => stack.update(stack.len() - 1, stack.last().insert(name, value)),
    }
}

pub proof fn lemma_innermost_holding<V>(stack: Seq<Map<Seq<char>, V>>, name: Seq<char>)
    ensures
        match innermost_holding(stack, name) {
            Some(i) => 0 <= i < stack.len() && stack[i].contains_key(name) && forall|j: int|
                i < j < stack.len() ==> !stack[j].contains_key(name),
            None => forall|j: int| 0 <= j < stack.len() ==> !stack[j].contains_key(name),
        },
    decreases stack.len(),
{
    if stack.len() > 0 && !stack.last().contains_key(name) {
        let rest = stack.drop_last();
        lemma_innermost_holding(rest, name);
        assert(forall|j: int| 0 <= j < rest.len() ==> rest[j] == stack[j]);
    }
}

/// Assigning to a name that an enclosing scope binds changes that binding, in
/// that scope, and no other scope; in particular no inner scope gains the name.
pub proof fn lemma_assign_bound<V>(stack: Seq<Map<Seq<char>, V>>, name: Seq<char>, value: V)
    requires
        innermost_holding(stack, name) is Some,
    ensures
        ({
            let i = innermost_holding(stack, name)->0;
            let after = assigned(stack, name, value);
            &&& after.len() == stack.len()
            &&& after[i] == stack[i].insert(name, value)
            &&& after[i].dom() == stack[i].dom()
            &&& forall|j: int| 0 <= j < stack.len() && j != i ==> after[j] == stack[j]
        }),
{
    lemma_innermost_holding(stack, name);
    let i = innermost_holding(stack, name)->0;
    assert(stack[i].insert(name, value).dom() =~= stack[i].dom());
}

/// Assigning to a name that no scope binds binds it in the innermost scope and
/// leaves every enclosing scope as it was.
pub proof fn lemma_assign_fresh<V>(stack: Seq<Map<Seq<char>, V>>, name: Seq<char>, value: V)
    requires
        innermost_holding(stack, name) is None,
        stack.len() > 0,
    ensures
        ({
            let after = assigned(stack, name, value);
            &&& after.len() == stack.len()
            &&& after.last() == stack.last().insert(name, value)
            &&& forall|j: int| 0 <= j < stack.len() - 1 ==> after[j] == stack[j]
        }),
{
}

} // verus!
