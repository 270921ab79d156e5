//! The messages of the runtime errors.

use crate::ast::{SpecExpr, SpecValue, Type};
use crate::display::{expr_text, value_text};
use crate::error::{Error, ErrorType, SpecError};
use crate::text::{int_text, nat_text, push_int, push_nat};
use vstd::prelude::*;
use vstd::string::StringExecFns;

verus! {

/// The message that `subject` is `what`, so that `construct` makes no sense.
pub open spec fn senseless_message(
    subject: Seq<char>,
    what: Seq<char>,
    construct: Seq<char>,
) -> Seq<char> {
    "`"@ + subject + "` is "@ + what + ", so `"@ + construct + "` doesn't make sense"@
}

/// The message for an index that lies outside the array it is applied to.
pub open spec fn out_of_bounds_message(
    index: Seq<char>,
    value: int,
    len: nat,
    construct: Seq<char>,
) -> Seq<char> {
    "`"@ + index + "` is "@ + int_text(value) + " and the array has "@ + nat_text(len)
        + " elements in it, so `"@ + construct + "` doesn't make sense"@
}

/// The message for an index that is applied to a cell that is no array.
pub open spec fn cell_message(what: Seq<char>, construct: Seq<char>) -> Seq<char> {
    "a cell of the array is "@ + what + ", so `"@ + construct + "` doesn't make sense"@
}

/// The message for a variable that is not defined where `construct` indexes it.
pub open spec fn undefined_message(var: Seq<char>, construct: Seq<char>) -> Seq<char> {
    "The variable `"@ + var + "` is not defined, so "@ + construct + " doesn't make sense"@
}

/// The message for a variable that is not defined where it is read.
pub open spec fn unknown_variable_message(var: Seq<char>) -> Seq<char> {
    "The variable `"@ + var + "` is not defined, so it can't be used in an expression"@
}

/// The message for a call, used as an expression, that gives no value.
pub open spec fn no_value_message(name: Seq<char>, construct: Seq<char>) -> Seq<char> {
    "The function "@ + name + " doesn't return anything, so "@ + construct
        + " doesn't make sense"@
}

/// The message for a `step` that cannot be followed.
pub open spec fn step_message(
    construct: Seq<char>,
    start: int,
    end: int,
    step: int,
    why: Seq<char>,
) -> Seq<char> {
    "In `"@ + construct + "` the start is "@ + int_text(start) + ", the end is "@ + int_text(end)
        + " and the step is "@ + int_text(step) + "; "@ + why
}

/// The message for a call of a function that is not defined.
pub open spec fn unknown_function_message(name: Seq<char>) -> Seq<char> {
    "The function `"@ + name + "` has not been defined, so it can't be called"@
}

/// The message for a call with another number of arguments than the
/// function has parameters.
pub open spec fn arity_message(name: Seq<char>, expected: nat, given: nat) -> Seq<char> {
    "The function "@ + name + " takes "@ + nat_text(expected) + " arguments, but "@ + nat_text(
        given,
    ) + " were given"@
}

/// The message for a function that returns `found` where it is declared
/// to return `declared`.
pub open spec fn return_message(name: Seq<char>, declared: Type, found: Seq<char>) -> Seq<char> {
    "The function "@ + name + " is supposed to return "@ + declared.spec_article()
        + ", but instead it returns "@ + found
}

/// The message for an operand `v` of `e` that is not `what` ("a boolean", "an int").
pub open spec fn invalid_operand_message(v: SpecValue, what: Seq<char>, e: SpecExpr) -> Seq<char> {
    "`"@ + value_text(v) + "` is not "@ + what + ", so `"@ + expr_text(e) + "` is invalid"@
}

/// The message for two operands of `e` that cannot be compared for equality.
pub open spec fn mismatch_message(v1: SpecValue, v2: SpecValue, e: SpecExpr) -> Seq<char> {
    "`"@ + value_text(v1) + "` is "@ + v1.type_of().spec_article() + " and `"@ + value_text(v2)
        + "` is "@ + v2.type_of().spec_article() + ", so `"@ + expr_text(e)
        + "` doesn't make sense"@
}

/// The error of the given kind with the given message.
pub open spec fn error_of(err: ErrorType, message: Seq<char>) -> SpecError {
    SpecError { err, message }
}

/// The error that `subject` is `what`, so that `construct` makes no sense.
pub fn senseless(kind: ErrorType, subject: &str, what: &str, construct: &str) -> (e: Error)
    ensures
        e@ == error_of(kind, senseless_message(subject@, what@, construct@)),
{
    let message = String::from_str("`").concat(subject).concat("` is ").concat(what).concat(
        ", so `",
    ).concat(construct).concat("` doesn't make sense");
    Error { err: kind, message }
}

/// The error for an index that lies outside the array it is applied to.
pub fn out_of_bounds(index: &str, value: i64, len: usize, construct: &str) -> (e: Error)
    ensures
        e@ == error_of(
            ErrorType::ArrayIndexOutOfBounds,
            out_of_bounds_message(index@, value as int, len as nat, construct@),
        ),
{
    let mut value_text = String::new();
    push_int(&mut value_text, value);
    assert(value_text@ =~= int_text(value as int));
    let mut len_text = String::new();
    push_nat(&mut len_text, len as u64);
    assert(len_text@ =~= nat_text(len as nat));
    let message = String::from_str("`").concat(index).concat("` is ").concat(
        value_text.as_str(),
    ).concat(" and the array has ").concat(len_text.as_str()).concat(
        " elements in it, so `",
    ).concat(construct).concat("` doesn't make sense");
    Error { err: ErrorType::ArrayIndexOutOfBounds, message }
}

/// The error for an index that is applied to a cell that is no array.
pub fn cell_error(what: &str, construct: &str) -> (e: Error)
    ensures
        e@ == error_of(ErrorType::Type, cell_message(what@, construct@)),
{
    let message = String::from_str("a cell of the array is ").concat(what).concat(
        ", so `",
    ).concat(construct).concat("` doesn't make sense");
    Error { err: ErrorType::Type, message }
}

/// The error for a variable that is not defined where `construct` indexes it.
pub fn undefined(var: &str, construct: &str) -> (e: Error)
    ensures
        e@ == error_of(ErrorType::UndefinedVariable, undefined_message(var@, construct@)),
{
    let message = String::from_str("The variable `").concat(var).concat(
        "` is not defined, so ",
    ).concat(construct).concat(" doesn't make sense");
    Error { err: ErrorType::UndefinedVariable, message }
}

/// The error for a variable that is not defined where it is read.
pub fn unknown_variable(var: &str) -> (e: Error)
    ensures
        e@ == error_of(ErrorType::UndefinedVariable, unknown_variable_message(var@)),
{
    let message = String::from_str("The variable `").concat(var).concat(
        "` is not defined, so it can't be used in an expression",
    );
    Error { err: ErrorType::UndefinedVariable, message }
}

/// The error for a call, used as an expression, that gives no value.
pub fn no_value(name: &str, construct: &str) -> (e: Error)
    ensures
        e@ == error_of(ErrorType::Type, no_value_message(name@, construct@)),
{
    let message = String::from_str("The function ").concat(name).concat(
        " doesn't return anything, so ",
    ).concat(construct).concat(" doesn't make sense");
    Error { err: ErrorType::Type, message }
}

/// The error for a `step` that cannot be followed.
pub fn step_refused(construct: &str, start: i64, end: i64, step: i64, why: &str) -> (e: Error)
    ensures
        e@ == error_of(
            ErrorType::Step,
            step_message(construct@, start as int, end as int, step as int, why@),
        ),
{
    let mut start_text = String::new();
    push_int(&mut start_text, start);
    assert(start_text@ =~= int_text(start as int));
    let mut end_text = String::new();
    push_int(&mut end_text, end);
    assert(end_text@ =~= int_text(end as int));
    let mut step_text = String::new();
    push_int(&mut step_text, step);
    assert(step_text@ =~= int_text(step as int));
    let message = String::from_str("In `").concat(construct).concat("` the start is ").concat(
        start_text.as_str(),
    ).concat(", the end is ").concat(end_text.as_str()).concat(" and the step is ").concat(
        step_text.as_str(),
    ).concat("; ").concat(why);
    Error { err: ErrorType::Step, message }
}

/// The error for a call of a function that is not defined.
pub fn unknown_function(name: &str) -> (e: Error)
    ensures
        e@ == error_of(ErrorType::UndefinedFunction, unknown_function_message(name@)),
{
    let message = String::from_str("The function `").concat(name).concat(
        "` has not been defined, so it can't be called",
    );
    Error { err: ErrorType::UndefinedFunction, message }
}

/// The error for a call with another number of arguments than the function
/// has parameters.
pub fn arity(name: &str, expected: usize, given: usize) -> (e: Error)
    ensures
        e@ == error_of(ErrorType::Argument, arity_message(name@, expected as nat, given as nat)),
{
    let mut expected_text = String::new();
    push_nat(&mut expected_text, expected as u64);
    assert(expected_text@ =~= nat_text(expected as nat));
    let mut given_text = String::new();
    push_nat(&mut given_text, given as u64);
    assert(given_text@ =~= nat_text(given as nat));
    let message = String::from_str("The function ").concat(name).concat(" takes ").concat(
        expected_text.as_str(),
    ).concat(" arguments, but ").concat(given_text.as_str()).concat(" were given");
    Error { err: ErrorType::Argument, message }
}

/// The error for a function that returns `found` where it is declared to
/// return `declared`.
pub fn wrong_return(name: &str, declared: Type, found: &str) -> (e: Error)
    ensures
        e@ == error_of(ErrorType::Type, return_message(name@, declared, found@)),
{
    let message = String::from_str("The function ").concat(name).concat(
        " is supposed to return ",
    ).concat(declared.as_string_with_article()).concat(", but instead it returns ").concat(found);
    Error { err: ErrorType::Type, message }
}

} // verus!
