//! A user-defined function.

use crate::ast::{
    group_ast_views, stmts_view, strings_view, SpecStatement, Statement, Type,
};
use vstd::prelude::*;

verus! {

broadcast use group_ast_views;

/// Mathematical model of a function.
pub struct SpecFunction {
    pub return_type: Type,
    pub params: Seq<Seq<char>>,
    pub body: Seq<SpecStatement>,
}

pub struct Function {
    pub return_type: Type,
    pub params: Vec<String>,
    pub body: Vec<Statement>,
}

impl View for Function {
    type V = SpecFunction;

    open spec fn view(&self) -> SpecFunction {
        SpecFunction {
            return_type: self.return_type,
            params: strings_view(self.params@),
            body: stmts_view(self.body@),
        }
    }
}

impl Function {
    /// The model of the function that `new` makes.
    pub open spec fn new_spec(
        return_type: Type,
        params: Seq<String>,
        body: Seq<Statement>,
    ) -> SpecFunction {
        SpecFunction {
            return_type,
            params: strings_view(params),
            body: stmts_view(body),
        }
    }

    /// A function with copies of the given parameters and body.
    pub fn new(return_type: &Type, params: &[String], body: &[Statement]) -> (f: Function)
        ensures
            f@ == Function::new_spec(*return_type, params@, body@),
    {
        let mut own_params: Vec<String> = Vec::new();
        let mut i: usize = 0;
        while i < params.len()
            invariant
                i <= params.len(),
                own_params.len() == i,
                forall|j: int| 0 <= j < i ==> own_params@[j]@ == params@[j]@,
            decreases params.len() - i,
        {
            own_params.push(params[i].clone());
            i += 1;
        }
        let mut own_body: Vec<Statement> = Vec::new();
        let mut k: usize = 0;
        while k < body.len()
            invariant
                k <= body.len(),
                own_body.len() == k,
                forall|j: int| 0 <= j < k ==> own_body@[j]@ == body@[j]@,
            decreases body.len() - k,
        {
            own_body.push(body[k].clone());
            k += 1;
        }
        assert(strings_view(own_params@) =~= strings_view(params@));
        assert(stmts_view(own_body@) =~= stmts_view(body@));
        Function { return_type: *return_type, params: own_params, body: own_body }
    }
}

} // verus!
