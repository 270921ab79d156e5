//! A scope: the variables bound in it, and the scope that contains it.

use crate::ast::{SpecValue, Value};
use vstd::hash_map::StringHashMap;
use vstd::prelude::*;
use vstd::string::StringExecFns;

verus! {

broadcast use vstd::hash_map::group_hash_map_axioms;

/// The variables of one scope, by name.
pub type Bindings = Map<Seq<char>, SpecValue>;

/// The number of variables bound in all the scopes of `chain` together.
pub open spec fn chain_len(chain: Seq<Bindings>) -> nat
    decreases chain.len(),
{
    if chain.len() == 0 {
        0
    } else {
        chain[0].len() + chain_len(chain.drop_first())
    }
}

pub struct Scope {
    /// Maps variable names to values.
    pub map: StringHashMap<Value>,
    /// The scope containing this one.
    pub parent: Option<Box<Scope>>,
}

impl Scope {
    /// The variables bound in this scope itself.
    pub open spec fn bindings(&self) -> Bindings {
        self.map@.map_values(|v: Value| v@)
    }

    /// The variables of this scope, then those of each containing scope,
    /// innermost first.
    pub open spec fn chain(&self) -> Seq<Bindings>
        decreases self,
    {
        match self.parent {
            Some(p) => seq![self.bindings()] + p.chain(),
            None => seq![self.bindings()],
        }
    }

    /// An empty scope inside `parent`.
    pub fn new(parent: Option<Scope>) -> (s: Scope)
        ensures
            s.bindings() == Bindings::empty(),
            match parent {
                Some(p) => s.parent == Some(Box::new(p)),
                None => s.parent is None,
            },
    {
        let s = Scope {
            map: StringHashMap::new(),
            parent: match parent {
                Some(p) => Some(Box::new(p)),
                None => None,
            },
        };
        assert(s.bindings() =~= Bindings::empty());
        s
    }

    /// Binds `var` to `val` in this scope, in place of any earlier binding.
    pub fn assign(&mut self, var: &str, val: Value)
        ensures
            final(self).bindings() == old(self).bindings().insert(var@, val@),
            final(self).parent == old(self).parent,
    {
        self.map.insert(String::from_str(var), val);
        assert(final(self).bindings() =~= old(self).bindings().insert(var@, val@));
    }

    /// The value bound to `var` in this scope.
    pub fn lookup(&self, var: &str) -> (r: Option<&Value>)
        ensures
            match r {
                Some(v) => self.bindings().contains_key(var@) && self.bindings()[var@] == v@,
                None => !self.bindings().contains_key(var@),
            },
    {
        self.map.get(var)
    }

    /// Whether `var` is bound in this scope.
    pub fn contains_var(&self, var: &str) -> (b: bool)
        ensures
            b == self.bindings().contains_key(var@),
    {
        self.map.contains_key(var)
    }

    /// The number of variables bound in this scope.
    pub fn len(&self) -> (n: usize)
        ensures
            n == self.bindings().len(),
    {
        assert(self.bindings().dom() =~= self.map@.dom());
        self.map.len()
    }

    /// The variables bound in this scope itself are no more than the
    /// machine can count.
    pub proof fn lemma_len_fits(&self)
        ensures
            self.bindings().len() <= usize::MAX,
    {
        assert(self.bindings().dom() =~= self.map@.dom());
        assert(self.map.spec_len() == self.map@.len());
    }

    /// The containing scope.
    pub fn parent(&self) -> (p: Option<&Box<Scope>>)
        ensures
            match p {
                Some(b) => self.parent == Some(*b),
                None => self.parent is None,
            },
    {
        self.parent.as_ref()
    }

    /// The number of variables bound in this scope and in the scopes that
    /// contain it.
    pub fn chain_len(&self) -> (n: usize)
        requires
            chain_len(self.chain()) <= usize::MAX,
        ensures
            n == chain_len(self.chain()),
        decreases self,
    {
        let own = self.len();
        match &self.parent {
            Some(p) => {
                assert(self.chain().drop_first() =~= p.chain());
                assert(self.chain()[0] == self.bindings());
                own + p.chain_len()
            },
            None => {
                assert(self.chain().drop_first() =~= Seq::<Bindings>::empty());
                assert(chain_len(self.chain().drop_first()) == 0);
                own
            },
        }
    }

    /// The number of variables bound in this scope and in the scopes that
    /// contain it, or `None` where they are more than the machine can count.
    pub fn checked_chain_len(&self) -> (r: Option<usize>)
        ensures
            r == if chain_len(self.chain()) <= usize::MAX {
                Some(chain_len(self.chain()) as usize)
            } else {
                None
            },
        decreases self,
    {
        let own = self.len();
        match &self.parent {
            Some(p) => {
                assert(self.chain().drop_first() =~= p.chain());
                assert(self.chain()[0] == self.bindings());
                match p.checked_chain_len() {
                    Some(rest) => if rest <= usize::MAX - own {
                        Some(own + rest)
                    } else {
                        None
                    },
                    None => None,
                }
            },
            None => {
                assert(self.chain().drop_first() =~= Seq::<Bindings>::empty());
                assert(chain_len(self.chain().drop_first()) == 0);
                Some(own)
            },
        }
    }

    /// A scope that no other contains binds no more variables than the
    /// machine can count.
    pub proof fn lemma_chain_len_fits(&self)
        requires
            self.parent is None,
        ensures
            chain_len(self.chain()) <= usize::MAX,
    {
        self.lemma_len_fits();
        assert(self.chain().drop_first() =~= Seq::<Bindings>::empty());
        assert(chain_len(self.chain().drop_first()) == 0);
    }
}

} // verus!
