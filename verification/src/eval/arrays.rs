//! Arrays: cells addressed by a chain of indexes, and the arrays that
//! `range`, `step` and `letters` make.

use crate::ast::{group_ast_views, values_view, SpecValue, Value};
use crate::error::ErrorType;
use crate::eval::semantics::{
    check_index, count_down, count_up, get_at, int_array, letters_of, remove_at, set_at,
    step_numbers, strip_newline, valid_path,
};
use crate::text::{chars_of, string_of};
use vstd::pervasive::unreached;
use vstd::prelude::*;

verus! {

broadcast use group_ast_views;

/// The indexes of a path as mathematical integers.
pub open spec fn path_ints(path: Seq<usize>) -> Seq<int> {
    Seq::new(path.len(), |i: int| path[i] as int)
}

/// A valid path that leads to an array can be extended by an index of that array.
pub proof fn lemma_path_extend(root: Seq<SpecValue>, path: Seq<int>, j: int)
    requires
        valid_path(root, path),
        get_at(root, path) matches SpecValue::Array(next) && 0 <= j < next.len(),
    ensures
        valid_path(root, path.push(j)),
        get_at(root, path.push(j)) == get_at(root, path)->Array_0[j],
    decreases path.len(),
{
    let longer = path.push(j);
    if path.len() == 1 {
        assert(longer.drop_first() =~= seq![j]);
        let inner = root[path[0]]->Array_0;
        assert(valid_path(inner, seq![j]));
        assert(get_at(inner, seq![j]) == inner[j]);
    } else {
        let inner = root[path[0]]->Array_0;
        assert(longer.drop_first() =~= path.drop_first().push(j));
        lemma_path_extend(inner, path.drop_first(), j);
    }
}

/// The index that `v` denotes in an array of `len` items.
pub fn index_of(v: &Value, len: usize) -> (r: Result<usize, ErrorType>)
    ensures
        match r {
            Ok(i) => check_index(v@, len as nat) == Ok::<int, ErrorType>(i as int) && i < len,
            Err(kind) => check_index(v@, len as nat) == Err::<int, ErrorType>(kind),
        },
{
    match v {
        Value::Int(i) => {
            if *i < 0 {
                Err(ErrorType::ArrayIndexOutOfBounds)
            } else if (*i as u64) >= (len as u64) {
                Err(ErrorType::ArrayIndexOutOfBounds)
            } else {
                Ok(*i as usize)
            }
        },
        _ => Err(ErrorType::Type),
    }
}

/// The cell of `root` that `path` leads to.
pub fn cell_at<'a>(root: &'a Vec<Value>, path: &Vec<usize>) -> (cell: &'a Value)
    requires
        valid_path(values_view(root@), path_ints(path@)),
    ensures
        cell@ == get_at(values_view(root@), path_ints(path@)),
{
    let ghost whole = path_ints(path@);
    let mut array: &'a Vec<Value> = root;
    let mut k: usize = 0;
    assert(whole.skip(0) =~= whole);
    while k + 1 < path.len()
        invariant
            k < path.len(),
            whole == path_ints(path@),
            valid_path(values_view(array@), whole.skip(k as int)),
            get_at(values_view(array@), whole.skip(k as int)) == get_at(
                values_view(root@),
                whole,
            ),
        decreases path.len() - k,
    {
        let ghost rest = whole.skip(k as int);
        proof {
            assert(rest.drop_first() =~= whole.skip(k + 1));
            assert(rest[0] == path@[k as int]);
        }
        match &array[path[k]] {
            Value::Array(inner) => {
                array = inner;
            },
            _ => unreached(),
        }
        k += 1;
    }
    proof {
        assert(whole.skip(k as int)[0] == path@[k as int]);
    }
    &array[path[k]]
}

/// Replaces the cell of `root` that `path[k..]` leads to by `v`.
pub fn store_at(root: &mut Vec<Value>, path: &Vec<usize>, k: usize, v: Value)
    requires
        k < path.len(),
        valid_path(values_view(old(root)@), path_ints(path@).skip(k as int)),
    ensures
        values_view(final(root)@) == set_at(
            values_view(old(root)@),
            path_ints(path@).skip(k as int),
            v@,
        ),
    decreases path.len() - k,
{
    let ghost rest = path_ints(path@).skip(k as int);
    let ghost before = values_view(root@);
    proof {
        assert(rest.drop_first() =~= path_ints(path@).skip(k + 1));
        assert(rest[0] == path@[k as int]);
    }
    let i = path[k];
    if k + 1 == path.len() {
        root[i] = v;
        assert(values_view(root@) =~= before.update(i as int, v@));
    } else {
        let ghost inner_before = before[i as int]->Array_0;
        match &mut root[i] {
            Value::Array(inner) => {
                store_at(inner, path, k + 1, v);
            },
            _ => unreached(),
        }
        assert(values_view(root@) =~= before.update(
            i as int,
            SpecValue::Array(set_at(inner_before, rest.drop_first(), v@)),
        ));
    }
}

/// Removes the cell of `root` that `path[k..]` leads to.
pub fn delete_at(root: &mut Vec<Value>, path: &Vec<usize>, k: usize)
    requires
        k < path.len(),
        valid_path(values_view(old(root)@), path_ints(path@).skip(k as int)),
    ensures
        values_view(final(root)@) == remove_at(
            values_view(old(root)@),
            path_ints(path@).skip(k as int),
        ),
    decreases path.len() - k,
{
    let ghost rest = path_ints(path@).skip(k as int);
    let ghost before = values_view(root@);
    proof {
        assert(rest.drop_first() =~= path_ints(path@).skip(k + 1));
        assert(rest[0] == path@[k as int]);
    }
    let i = path[k];
    if k + 1 == path.len() {
        let _ = root.remove(i);
        assert(values_view(root@) =~= before.remove(i as int));
    } else {
        let ghost inner_before = before[i as int]->Array_0;
        match &mut root[i] {
            Value::Array(inner) => {
                delete_at(inner, path, k + 1);
            },
            _ => unreached(),
        }
        assert(values_view(root@) =~= before.update(
            i as int,
            SpecValue::Array(remove_at(inner_before, rest.drop_first())),
        ));
    }
}

/// The array of the numbers from `a` to `b` in steps of `s`.
pub fn numbers(a: i64, b: i64, s: i64) -> (out: Vec<Value>)
    requires
        s != 0,
    ensures
        Value::Array(out)@ == int_array(step_numbers(a as int, b as int, s as int)),
{
    let ghost all = step_numbers(a as int, b as int, s as int);
    let ghost mut done: Seq<int> = Seq::empty();
    let mut out: Vec<Value> = Vec::new();
    let mut cur = a;
    let mut more = true;
    if s > 0 {
        while more && cur <= b
            invariant
                s > 0,
                all == done + (if more {
                    count_up(cur as int, b as int, s as int)
                } else {
                    Seq::empty()
                }),
                out.len() == done.len(),
                forall|k: int|
                    0 <= k < done.len() ==> out@[k]@ == SpecValue::Int(done[k] as i64),
            decreases
                    (if more && cur <= b {
                        b - cur + 1
                    } else {
                        0
                    }),
        {
            out.push(Value::Int(cur));
            proof {
                let rest = count_up(cur + s, b as int, s as int);
                assert(all =~= done.push(cur as int) + rest);
                done = done.push(cur as int);
            }
            match cur.checked_add(s) {
                Some(next) => {
                    cur = next;
                },
                None => {
                    more = false;
                    assert(count_up(cur + s, b as int, s as int) =~= Seq::<int>::empty());
                },
            }
        }
        assert(all =~= done);
    } else {
        while more && cur >= b
            invariant
                s < 0,
                all == done + (if more {
                    count_down(cur as int, b as int, s as int)
                } else {
                    Seq::empty()
                }),
                out.len() == done.len(),
                forall|k: int|
                    0 <= k < done.len() ==> out@[k]@ == SpecValue::Int(done[k] as i64),
            decreases
                    (if more && cur >= b {
                        cur - b + 1
                    } else {
                        0
                    }),
        {
            out.push(Value::Int(cur));
            proof {
                let rest = count_down(cur + s, b as int, s as int);
                assert(all =~= done.push(cur as int) + rest);
                done = done.push(cur as int);
            }
            match cur.checked_add(s) {
                Some(next) => {
                    cur = next;
                },
                None => {
                    more = false;
                    assert(count_down(cur + s, b as int, s as int) =~= Seq::<int>::empty());
                },
            }
        }
        assert(all =~= done);
    }
    assert(values_view(out@) =~= int_array(all)->Array_0);
    out
}

/// The characters of `s`, each as a string of its own.
pub fn letters(s: &str) -> (out: Vec<Value>)
    ensures
        values_view(out@) == letters_of(s@),
{
    let chars = chars_of(s);
    let mut out: Vec<Value> = Vec::new();
    let mut i: usize = 0;
    while i < chars.len()
        invariant
            i <= chars.len(),
            out.len() == i,
            forall|k: int| 0 <= k < i ==> out@[k]@ == SpecValue::Str(seq![chars@[k]]),
        decreases chars.len() - i,
    {
        let mut letter = String::new();
        letter.push(chars[i]);
        assert(letter@ =~= seq![chars@[i as int]]);
        out.push(Value::Str(letter));
        i += 1;
    }
    assert(values_view(out@) =~= letters_of(s@));
    out
}

/// The line without its final newline, if it has one.
pub fn without_newline(line: String) -> (out: String)
    ensures
        out@ == strip_newline(line@),
{
    let chars = chars_of(line.as_str());
    let n = chars.len();
    if n > 0 && chars[n - 1] == '\n' {
        let out = string_of(&chars, 0, n - 1);
        assert(out@ =~= line@.drop_last());
        out
    } else {
        line
    }
}

} // verus!
