use vstd::prelude::*;
use crate::table::str_equal;
use crate::token::Span;

verus! {

/// An error raised while a program runs, with the place in the source where
/// it arose.
#[derive(Debug, Clone, PartialEq)]
pub struct RuntimeError {
    pub message: String,
    pub span: Span,
}

/// Whether a method with the parameter types `params` takes arguments of the
/// types `args`: there are as many of them, and each parameter is `object`
/// or names the argument's own type.
pub open spec fn accepts(params: Seq<String>, args: Seq<String>) -> bool {
    &&& params.len() == args.len()
    &&& forall|i: int| 0 <= i < params.len() ==> (#[trigger] params[i])@ == "object"@ || params[i]@ == args[i]@
}

/// Whether the parameter list `params` takes the arguments `args`.
fn accepts_args(params: &Vec<String>, args: &Vec<String>) -> (r: bool)
    ensures
        r == accepts(params@, args@),
{
    if params.len() != args.len() {
        return false;
    }
    let mut i: usize = 0;
    while i < params.len()
        invariant
            params@.len() == args@.len(),
            i <= params@.len(),
            forall|k: int| 0 <= k < i ==> (#[trigger] params@[k])@ == "object"@ || params@[k]@ == args@[k]@,
        decreases params.len() - i,
    {
        let any = str_equal(params[i].as_str(), "object");
        if !any && !str_equal(params[i].as_str(), args[i].as_str()) {
            return false;
        }
        i = i + 1;
    }
    true
}

/// How many of the parameter types are `object`: the fewer, the more
/// specific the method.
pub open spec fn object_count(params: Seq<String>) -> nat
    decreases params.len(),
{
    if params.len() == 0 {
        0
    } else {
        object_count(params.drop_last()) + (if params.last()@ == "object"@ {
            1nat
        } else {
            0nat
        })
    }
}

/// How many of the parameter types are `object`.
fn count_objects(params: &Vec<String>) -> (r: usize)
    ensures
        r == object_count(params@),
{
    let mut n: usize = 0;
    let mut i: usize = 0;
    while i < params.len()
        invariant
            i <= params@.len(),
            n == object_count(params@.take(i as int)),
            n <= i,
        decreases params.len() - i,
    {
        proof {
            assert(params@.take(i + 1).drop_last() =~= params@.take(i as int));
        }
        if str_equal(params[i].as_str(), "object") {
            n = n + 1;
        }
        i = i + 1;
    }
    proof {
        assert(params@.take(i as int) =~= params@);
    }
    n
}

/// The most specific of the registered parameter lists that takes
/// arguments of the types `arg_types`: among those that take them, one with
/// the fewest `object` parameters, and of those the first registered;
/// `None` where none takes them.
pub fn most_specific_accepting(entries: &Vec<Vec<String>>, arg_types: &Vec<String>) -> (r: Option<usize>)
    ensures
        match r {
            Some(i) => {
                &&& i < entries@.len()
                &&& accepts(entries@[i as int]@, arg_types@)
                &&& forall|j: int|
                    0 <= j < i && accepts(#[trigger] entries@[j]@, arg_types@) ==> object_count(entries@[j]@)
                        > object_count(entries@[i as int]@)
                &&& forall|j: int|
                    i < j < entries@.len() && accepts(#[trigger] entries@[j]@, arg_types@) ==> object_count(
                        entries@[j]@,
                    ) >= object_count(entries@[i as int]@)
            },
            None => forall|j: int| 0 <= j < entries@.len() ==> !accepts(#[trigger] entries@[j]@, arg_types@),
        },
{
    let mut best: Option<usize> = None;
    let mut best_count: usize = 0;
    let mut i: usize = 0;
    while i < entries.len()
        invariant
            i <= entries@.len(),
            match best {
                Some(b) => {
                    &&& b < i
                    &&& accepts(entries@[b as int]@, arg_types@)
                    &&& best_count == object_count(entries@[b as int]@)
                    &&& forall|j: int|
                        0 <= j < b && accepts(#[trigger] entries@[j]@, arg_types@) ==> object_count(entries@[j]@)
                            > best_count
                    &&& forall|j: int|
                        b < j < i && accepts(#[trigger] entries@[j]@, arg_types@) ==> object_count(entries@[j]@)
                            >= best_count
                },
                None => forall|j: int| 0 <= j < i ==> !accepts(#[trigger] entries@[j]@, arg_types@),
            },
        decreases entries.len() - i,
    {
        if accepts_args(&entries[i], arg_types) {
            let c = count_objects(&entries[i]);
            match best {
                Some(_) => {
                    if c < best_count {
                        best = Some(i);
                        best_count = c;
                    }
                },
                None => {
                    best = Some(i);
                    best_count = c;
                },
            }
        }
        i = i + 1;
    }
    best
}

} // verus!
