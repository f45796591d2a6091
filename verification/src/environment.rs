//! The lowering environment: a scope stack of bound-variable names and
//! anonymous wildcard markers, pushed and popped in strict LIFO order.
use vstd::prelude::*;

verus! {

/// One scope-stack entry: a named bound variable or a wildcard marker.
#[derive(Debug)]
pub enum Binding {
    Named(String),
    Wildcard,
}

/// Mathematical view of a `Binding`: the name as a character sequence.
#[verifier::ext_equal]
pub enum BindV {
    Named(Seq<char>),
    Wildcard,
}

pub open spec fn bind_view(b: Binding) -> BindV {
    match b {
        Binding::Named(s) => BindV::Named(s@),
        Binding::Wildcard => BindV::Wildcard,
    }
}

/// The scope stack. The last element of the view is the top of the stack
/// (the innermost binding, at depth 0).
pub struct LowerEnvironment {
    bindings: Vec<Binding>,
}

impl View for LowerEnvironment {
    type V = Seq<BindV>;

    closed spec fn view(&self) -> Seq<BindV> {
        self.bindings@.map_values(|b: Binding| bind_view(b))
    }
}

/// Binding depth of `name` in the stack `env`: the distance from the top
/// of the stack to the topmost `Named` entry carrying `name`, or `None`
/// when no entry does. Wildcard markers are skipped but counted.
pub open spec fn lookup_v(env: Seq<BindV>, name: Seq<char>) -> Option<int>
    decreases env.len(),
{
    if env.len() == 0 {
        None
    } else if env.last() == BindV::Named(name) {
        Some(0)
    } else {
        match lookup_v(env.drop_last(), name) {
            Some(d) => Some(d + 1),
            None => None,
        }
    }
}

/// The sequence of `n` wildcard markers pushed for one application.
pub open spec fn wilds(n: int) -> Seq<BindV> {
    Seq::new(n as nat, |i: int| BindV::Wildcard)
}

impl LowerEnvironment {
    pub fn new() -> (env: LowerEnvironment)
        ensures
            env@ == Seq::<BindV>::empty(),
    {
        let env = LowerEnvironment { bindings: Vec::new() };
        proof {
            assert(env@ =~= Seq::<BindV>::empty());
        }
        env
    }

    pub fn len(&self) -> (n: usize)
        ensures
            n == self@.len(),
    {
        self.bindings.len()
    }

    /// Append one named entry at depth 0, shifting all existing entries one
    /// level deeper; used when entering a `forall`/`exists` binder.
    pub fn push_bound_name(&mut self, name: String)
        ensures
            final(self)@ == old(self)@.push(BindV::Named(name@)),
    {
        let ghost before = self.bindings@;
        self.bindings.push(Binding::Named(name));
        proof {
            assert(self@ =~= before.map_values(|b: Binding| bind_view(b)).push(
                bind_view(self.bindings@.last()),
            ));
        }
    }

    /// Remove the most recently pushed entry, which the caller must know to
    /// be a named one: push and pop pair lexically.
    pub fn pop_bound_name(&mut self)
        requires
            old(self)@.len() > 0,
            old(self)@.last() is Named,
        ensures
            final(self)@ == old(self)@.drop_last(),
    {
        let ghost before = self.bindings@;
        let _ = self.bindings.pop();
        proof {
            assert(self@ =~= before.map_values(|b: Binding| bind_view(b)).drop_last());
        }
    }

    /// Push `count` wildcard markers, immediately before lowering an
    /// application's arguments.
    pub fn push_wildcards(&mut self, count: usize)
        ensures
            final(self)@ == old(self)@ + wilds(count as int),
    {
        let mut i: usize = 0;
        while i < count
            invariant
                i <= count,
                self@ == old(self)@ + wilds(i as int),
            decreases count - i,
        {
            let ghost before = self.bindings@;
            self.bindings.push(Binding::Wildcard);
            i = i + 1;
            proof {
                assert(self@ =~= before.map_values(|b: Binding| bind_view(b)).push(
                    BindV::Wildcard,
                ));
                assert(self@ =~= old(self)@ + wilds(i as int));
            }
        }
        proof {
            assert(self@ =~= old(self)@ + wilds(count as int));
        }
    }

    /// Pop the `count` wildcard markers pushed by the matching
    /// `push_wildcards` call, immediately after the application is lowered.
    pub fn pop_wildcards(&mut self, count: usize)
        requires
            count <= old(self)@.len(),
            forall|i: int|
                old(self)@.len() - count <= i < old(self)@.len() ==> old(self)@[i] is Wildcard,
        ensures
            final(self)@ == old(self)@.take(old(self)@.len() - count as int),
    {
        let ghost before = self.bindings@;
        proof {
            assert(before.len() == self@.len());
        }
        let new_len = self.bindings.len() - count;
        self.bindings.truncate(new_len);
        proof {
            assert(self@ =~= before.map_values(|b: Binding| bind_view(b)).take(
                before.len() - count as int,
            ));
        }
    }

    /// Resolve a name to its binding depth: the distance from the top of
    /// the stack to the topmost matching named entry.
    pub fn lookup(&self, name: &String) -> (r: Option<usize>)
        ensures
            match r {
                Some(d) => lookup_v(self@, name@) == Some(d as int),
                None => lookup_v(self@, name@) is None,
            },
    {
        let n = self.bindings.len();
        proof {
            assert(n == self@.len());
            assert(self@.take(n as int) =~= self@);
        }
        let mut j: usize = 0;
        while j < n
            invariant
                j <= n,
                n == self@.len(),
                lookup_v(self@, name@) == match lookup_v(self@.take(n - j as int), name@) {
                    Some(d) => Some(d + j),
                    None => None::<int>,
                },
            decreases n - j,
        {
            let ghost pre = self@.take(n - j as int);
            let entry = &self.bindings[n - 1 - j];
            proof {
                assert(pre.len() == n - j);
                assert(pre.last() == self@[n - 1 - j as int]);
                assert(self@[n - 1 - j as int] == bind_view(self.bindings@[n - 1 - j as int]));
                assert(pre.drop_last() =~= self@.take(n - (j + 1) as int));
            }
            proof {
                assert(*entry == self.bindings@[n - 1 - j as int]);
                assert(pre.last() == bind_view(*entry));
            }
            let matched: bool;
            match entry {
                Binding::Named(m) => {
                    matched = *m == *name;
                    proof {
                        assert(*entry == Binding::Named(*m));
                        assert(bind_view(*entry) == BindV::Named(m@));
                        assert(matched ==> pre.last() == BindV::Named(name@));
                        assert(!matched ==> pre.last() != BindV::Named(name@));
                    }
                },
                Binding::Wildcard => {
                    matched = false;
                    proof {
                        assert(pre.last() != BindV::Named(name@));
                    }
                },
            }
            if matched {
                proof {
                    assert(lookup_v(pre, name@) == Some(0int));
                }
                return Some(j);
            }
            j = j + 1;
        }
        proof {
            assert(self@.take(0) =~= Seq::<BindV>::empty());
            assert(lookup_v(Seq::<BindV>::empty(), name@) is None);
        }
        None
    }
}

/// The depth a lookup returns is always below the stack's length.
pub proof fn lemma_lookup_in_range(env: Seq<BindV>, name: Seq<char>)
    ensures
        match lookup_v(env, name) {
            Some(d) => 0 <= d < env.len(),
            None => true,
        },
    decreases env.len(),
{
    if env.len() > 0 && env.last() != BindV::Named(name) {
        lemma_lookup_in_range(env.drop_last(), name);
    }
}

} // verus!
