//! The runtime state: global variables, the chain of function-local scopes,
//! and the function table.

pub mod function;
pub mod scope;

use crate::ast::{SpecValue, Statement, Type, Value};
use crate::error::{Error, ErrorType};
use crate::state::function::{Function, SpecFunction};
use crate::state::scope::{chain_len, Bindings, Scope};
use vstd::hash_map::StringHashMap;
use vstd::prelude::*;
use vstd::string::StringExecFns;

verus! {

broadcast use vstd::hash_map::group_hash_map_axioms;

/// Mathematical model of the runtime state.
pub struct SpecState {
    /// The variables of the global scope.
    pub global: Bindings,
    /// The variables of each open function-local scope, innermost first.
    pub locals: Seq<Bindings>,
    /// The functions defined so far, by name.
    pub functions: Map<Seq<char>, SpecFunction>,
}

impl SpecState {
    /// The state in which nothing is defined.
    pub open spec fn empty() -> SpecState {
        SpecState { global: Map::empty(), locals: Seq::empty(), functions: Map::empty() }
    }

    /// Whether `var` is bound in the innermost local scope.
    pub open spec fn bound_locally(self, var: Seq<char>) -> bool {
        self.locals.len() > 0 && self.locals[0].contains_key(var)
    }

    /// Whether `var` is visible: bound in the innermost local scope or in the
    /// global scope.
    pub open spec fn contains_var(self, var: Seq<char>) -> bool {
        self.bound_locally(var) || self.global.contains_key(var)
    }

    /// The value of `var`: that of the innermost local scope if it binds
    /// `var`, else that of the global scope.
    pub open spec fn lookup(self, var: Seq<char>) -> Option<SpecValue> {
        if self.bound_locally(var) {
            Some(self.locals[0][var])
        } else if self.global.contains_key(var) {
            Some(self.global[var])
        } else {
            None
        }
    }

    /// The state after `var`, which is visible, has been given the value
    /// `val` in the scope where it was found.
    pub open spec fn assign(self, var: Seq<char>, val: SpecValue) -> SpecState {
        if self.bound_locally(var) {
            SpecState { locals: self.locals.update(0, self.locals[0].insert(var, val)), ..self }
        } else {
            SpecState { global: self.global.insert(var, val), ..self }
        }
    }

    /// The state after `var` has been bound to `val` in the innermost scope:
    /// the innermost local scope if one is open, else the global scope.
    pub open spec fn define_var(self, var: Seq<char>, val: SpecValue) -> SpecState {
        if self.locals.len() > 0 {
            SpecState { locals: self.locals.update(0, self.locals[0].insert(var, val)), ..self }
        } else {
            SpecState { global: self.global.insert(var, val), ..self }
        }
    }

    /// The state after a new, empty local scope has been opened.
    pub open spec fn enter_scope(self) -> SpecState {
        SpecState { locals: seq![Bindings::empty()] + self.locals, ..self }
    }

    /// The state after the innermost local scope, if any, has been closed.
    pub open spec fn exit_scope(self) -> SpecState {
        if self.locals.len() == 0 {
            self
        } else {
            SpecState { locals: self.locals.drop_first(), ..self }
        }
    }

    /// The state after `f` has been entered in the function table as `name`.
    pub open spec fn define_func(self, name: Seq<char>, f: SpecFunction) -> SpecState {
        SpecState { functions: self.functions.insert(name, f), ..self }
    }

    /// The number of variables bound in the global scope and in the open
    /// local scopes together.
    pub open spec fn len(self) -> nat {
        self.global.len() + chain_len(self.locals)
    }
}

/// The message of the error for an assignment to a variable that is not visible.
pub open spec fn undeclared_message(var: Seq<char>) -> Seq<char> {
    "The variable `"@ + var
        + "` has not been declared, so it can't have a value assigned to it"@
}

/// The message of the error for a second definition of a function.
pub open spec fn redefined_message(name: Seq<char>) -> Seq<char> {
    "The function "@ + name + " has already been defined, so it can't be defined again"@
}

pub struct State {
    // The global scope
    global: Scope,
    // The current evaluation scope
    current: Option<Scope>,
    // Maps function names to functions.
    functions: StringHashMap<Function>,
}

impl View for State {
    type V = SpecState;

    closed spec fn view(&self) -> SpecState {
        SpecState {
            global: self.global.bindings(),
            locals: match self.current {
                Some(s) => s.chain(),
                None => Seq::empty(),
            },
            functions: self.functions@.map_values(|f: Function| f@),
        }
    }
}

impl State {
    /// The state in which nothing is defined.
    pub fn new() -> (s: State)
        ensures
            s@ == SpecState::empty(),
    {
        let s = State { global: Scope::new(None), current: None, functions: StringHashMap::new() };
        assert(s@.functions =~= Map::empty());
        s
    }

    /// Assigns a value to a variable, returning an error if the variable is not already defined.
    pub fn assign(&mut self, var: &str, val: Value) -> (r: Result<(), Error>)
        ensures
            match r {
                Ok(_) => old(self)@.contains_var(var@) && final(self)@ == old(self)@.assign(
                    var@,
                    val@,
                ),
                Err(e) => !old(self)@.contains_var(var@) && final(self)@ == old(self)@ && e.err
                    == ErrorType::UndefinedVariable && e.message@ == undeclared_message(var@),
            },
    {
        // Check current scope
        if self.contains_local(var) {
            self.define_var(var, val);
            return Ok(());
        }
        // Check global scope
        if self.global.contains_var(var) {
            self.global.assign(var, val);
            assert(final(self)@.functions == old(self)@.functions);
            return Ok(());
        }
        let message = String::from_str("The variable `").concat(var).concat(
            "` has not been declared, so it can't have a value assigned to it",
        );
        Error::undef_var_error(message.as_str())
    }

    /// Whether `var` is bound in the innermost local scope.
    fn contains_local(&self, var: &str) -> (b: bool)
        ensures
            b == self@.bound_locally(var@),
    {
        match &self.current {
            Some(scope) => scope.contains_var(var),
            None => false,
        }
    }

    /// Whether `var` is visible.
    pub fn contains_var(&self, var: &str) -> (b: bool)
        ensures
            b == self@.contains_var(var@),
    {
        self.contains_local(var) || self.global.contains_var(var)
    }

    /// Defines a new function given its return type, name, parameters, and body, returning an error
    /// if a function of that name is already defined.
    pub fn define_func(
        &mut self,
        return_type: &Type,
        name: &str,
        params: &[String],
        body: &[Statement],
    ) -> (r: Result<(), Error>)
        ensures
            match r {
                Ok(_) => !old(self)@.functions.contains_key(name@) && final(self)@ == old(
                    self,
                )@.define_func(name@, Function::new_spec(*return_type, params@, body@)),
                Err(e) => old(self)@.functions.contains_key(name@) && final(self)@ == old(self)@
                    && e.err == ErrorType::RedefinedFunction && e.message@ == redefined_message(
                    name@,
                ),
            },
    {
        if self.functions.contains_key(name) {
            let message = String::from_str("The function ").concat(name).concat(
                " has already been defined, so it can't be defined again",
            );
            return Error::redef_func_error(message.as_str());
        }
        self.functions.insert(String::from_str(name), Function::new(return_type, params, body));
        assert(final(self)@.functions =~= old(self)@.functions.insert(
            name@,
            Function::new_spec(*return_type, params@, body@),
        ));
        Ok(())
    }

    /// The function defined as `name`.
    pub fn function(&self, name: &str) -> (r: Option<&Function>)
        ensures
            match r {
                Some(f) => self@.functions.contains_key(name@) && self@.functions[name@] == f@,
                None => !self@.functions.contains_key(name@),
            },
    {
        self.functions.get(name)
    }

    /// Defines a new variable in the current scope.
    pub fn define_var(&mut self, var: &str, val: Value)
        ensures
            final(self)@ == old(self)@.define_var(var@, val@),
    {
        match &mut self.current {
            Some(scope) => {
                scope.assign(var, val);
            },
            None => {
                self.global.assign(var, val);
            },
        }
        assert(final(self)@.locals =~= old(self)@.define_var(var@, val@).locals);
    }

    /// Opens a new, empty local scope inside the current one.
    pub fn enter_scope(&mut self)
        ensures
            final(self)@ == old(self)@.enter_scope(),
    {
        let outer = self.current.take();
        self.current = Some(Scope::new(outer));
        assert(final(self)@.locals =~= old(self)@.enter_scope().locals);
    }

    /// Closes the innermost local scope, if one is open.
    pub fn exit_scope(&mut self)
        ensures
            final(self)@ == old(self)@.exit_scope(),
    {
        let inner = self.current.take();
        self.current = match inner {
            Some(scope) => match scope.parent {
                Some(outer) => Some(*outer),
                None => None,
            },
            None => None,
        };
        assert(final(self)@.locals =~= old(self)@.exit_scope().locals);
    }

    /// Looks up the value of a variable.
    pub fn lookup(&self, var: &str) -> (r: Option<&Value>)
        ensures
            match r {
                Some(v) => self@.lookup(var@) == Some(v@),
                None => self@.lookup(var@) is None,
            },
    {
        // Check the current scope
        match &self.current {
            Some(scope) => {
                match scope.lookup(var) {
                    Some(val) => {
                        return Some(val);
                    },
                    None => {},
                }
            },
            None => {},
        }
        // Check the global scope
        self.global.lookup(var)
    }

    /// Returns the number of variables currently defined in the program:
    /// those of the global scope and of every open local scope. They must
    /// be no more than the machine can count, which `lemma_len_fits` shows of
    /// a state with no open local scope.
    pub fn len(&self) -> (n: usize)
        requires
            self@.len() <= usize::MAX,
        ensures
            n == self@.len(),
    {
        let len = self.global.len();
        match &self.current {
            Some(s) => len + s.chain_len(),
            None => {
                assert(chain_len(Seq::<Bindings>::empty()) == 0);
                len
            },
        }
    }

    /// The number of variables currently defined in the program, or `None`
    /// where they are more than the machine can count.
    pub fn checked_len(&self) -> (r: Option<usize>)
        ensures
            r == if self@.len() <= usize::MAX {
                Some(self@.len() as usize)
            } else {
                None
            },
    {
        let len = self.global.len();
        match &self.current {
            Some(s) => match s.checked_chain_len() {
                Some(rest) => if rest <= usize::MAX - len {
                    Some(len + rest)
                } else {
                    None
                },
                None => None,
            },
            None => {
                assert(chain_len(Seq::<Bindings>::empty()) == 0);
                Some(len)
            },
        }
    }

    /// With no local scope open, the variables of the state are those of
    /// the global scope, and no more than the machine can count.
    pub proof fn lemma_len_fits(&self)
        requires
            self@.locals.len() == 0,
        ensures
            self@.len() == self@.global.len(),
            self@.len() <= usize::MAX,
    {
        self.global.lemma_len_fits();
        assert(self@.locals =~= Seq::<Bindings>::empty());
        assert(chain_len(Seq::<Bindings>::empty()) == 0);
    }
}

} // verus!
