//! Runtime errors of the evaluator.

use vstd::prelude::*;
use vstd::string::StringExecFns;

verus! {

/// The kinds of runtime error.
#[derive(Clone, Copy, Debug, PartialEq, Eq, Structural)]
pub enum ErrorType {
    Argument,
    ArrayIndexOutOfBounds,
    RedefinedFunction,
    Step,
    Type,
    UndefinedFunction,
    UndefinedVariable,
}

impl ErrorType {
    /// The name under which the kind is reported.
    pub open spec fn spec_name(self) -> Seq<char> {
        match self {
            ErrorType::Argument => "ArgumentError"@,
            ErrorType::ArrayIndexOutOfBounds => "ArrayIndexOutOfBoundsError"@,
            ErrorType::RedefinedFunction => "RedefinedFunctionError"@,
            ErrorType::Step => "StepError"@,
            ErrorType::Type => "TypeError"@,
            ErrorType::UndefinedFunction => "UndefinedFunctionError"@,
            ErrorType::UndefinedVariable => "UndefinedVariableError"@,
        }
    }

    /// The name under which the kind is reported.
    pub fn name(&self) -> (s: &'static str)
        ensures
            s@ == self.spec_name(),
    {
        match self {
            ErrorType::Argument => "ArgumentError",
            ErrorType::ArrayIndexOutOfBounds => "ArrayIndexOutOfBoundsError",
            ErrorType::RedefinedFunction => "RedefinedFunctionError",
            ErrorType::Step => "StepError",
            ErrorType::Type => "TypeError",
            ErrorType::UndefinedFunction => "UndefinedFunctionError",
            ErrorType::UndefinedVariable => "UndefinedVariableError",
        }
    }

    /// Appends the kind's name to `out`.
    pub fn fmt(&self, out: &mut String)
        ensures
            final(out)@ == old(out)@ + self.spec_name(),
    {
        out.append(self.name());
    }

    /// The kind's name.
    pub fn to_string(&self) -> (s: String)
        ensures
            s@ == self.spec_name(),
    {
        String::from_str(self.name())
    }
}

/// Mathematical model of a runtime error.
pub struct SpecError {
    pub err: ErrorType,
    pub message: Seq<char>,
}

/// A runtime error: its kind and a message for the user.
#[derive(Debug)]
pub struct Error {
    pub err: ErrorType,
    pub message: String,
}

impl View for Error {
    type V = SpecError;

    open spec fn view(&self) -> SpecError {
        SpecError { err: self.err, message: self.message@ }
    }
}

impl Error {
    /// The error's text: the kind's name, a colon and the message.
    pub open spec fn spec_text(self) -> Seq<char> {
        self.err.spec_name() + ": "@ + self.message@
    }

    pub fn new(t: ErrorType, s: &str) -> (e: Error)
        ensures
            e.err == t,
            e.message@ == s@,
    {
        Error { err: t, message: String::from_str(s) }
    }

    /// The kind of the error.
    pub fn err_type(&self) -> (t: ErrorType)
        ensures
            t == self.err,
    {
        self.err
    }

    pub fn argument_error<T>(s: &str) -> (r: Result<T, Error>)
        ensures
            r matches Err(e) && e.err == ErrorType::Argument && e.message@ == s@,
    {
        Err(Self::new(ErrorType::Argument, s))
    }

    pub fn array_index_out_of_bounds_error<T>(s: &str) -> (r: Result<T, Error>)
        ensures
            r matches Err(e) && e.err == ErrorType::ArrayIndexOutOfBounds && e.message@ == s@,
    {
        Err(Self::new(ErrorType::ArrayIndexOutOfBounds, s))
    }

    pub fn redef_func_error<T>(s: &str) -> (r: Result<T, Error>)
        ensures
            r matches Err(e) && e.err == ErrorType::RedefinedFunction && e.message@ == s@,
    {
        Err(Self::new(ErrorType::RedefinedFunction, s))
    }

    pub fn step_error<T>(s: &str) -> (r: Result<T, Error>)
        ensures
            r matches Err(e) && e.err == ErrorType::Step && e.message@ == s@,
    {
        Err(Self::new(ErrorType::Step, s))
    }

    pub fn type_error<T>(s: &str) -> (r: Result<T, Error>)
        ensures
            r matches Err(e) && e.err == ErrorType::Type && e.message@ == s@,
    {
        Err(Self::new(ErrorType::Type, s))
    }

    pub fn undef_func_error<T>(s: &str) -> (r: Result<T, Error>)
        ensures
            r matches Err(e) && e.err == ErrorType::UndefinedFunction && e.message@ == s@,
    {
        Err(Self::new(ErrorType::UndefinedFunction, s))
    }

    pub fn undef_var_error<T>(s: &str) -> (r: Result<T, Error>)
        ensures
            r matches Err(e) && e.err == ErrorType::UndefinedVariable && e.message@ == s@,
    {
        Err(Self::new(ErrorType::UndefinedVariable, s))
    }

    /// Appends the error's text to `out`.
    pub fn fmt(&self, out: &mut String)
        ensures
            final(out)@ == old(out)@ + self.spec_text(),
    {
        out.append(self.err.name());
        out.append(": ");
        out.append(self.message.as_str());
        assert(final(out)@ =~= old(out)@ + self.spec_text());
    }

    /// The error's text.
    pub fn to_string(&self) -> (s: String)
        ensures
            s@ == self.spec_text(),
    {
        let mut s = String::new();
        self.fmt(&mut s);
        assert(s@ =~= self.spec_text());
        s
    }
}

} // verus!
