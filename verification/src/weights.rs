//! Checks on the names of stored tensors.

use vstd::prelude::*;
use crate::error::Error;
use crate::text::{join2, list_contains, views};

verus! {

/// Whether `name` is the first of `names` that is not among `keys`.
pub open spec fn absent_at(names: Seq<Seq<char>>, keys: Seq<Seq<char>>, name: Seq<char>) -> bool {
    exists|i: int|
        0 <= i < names.len() && #[trigger] names[i] == name && !keys.contains(name) && forall|j: int|
            0 <= j < i ==> keys.contains(#[trigger] names[j])
}

/// Checks that every name is among the keys, or tells the first that is not.
pub fn check_present(names: &Vec<String>, keys: &Vec<String>) -> (r: Result<(), Error>)
    ensures
        match r {
            Ok(()) => forall|n: Seq<char>|
                views(names@).contains(n) ==> #[trigger] views(keys@).contains(n),
            Err(e) => e matches Error::MissingTensor(k) && absent_at(
                views(names@),
                views(keys@),
                k@,
            ),
        },
{
    let mut i: usize = 0;
    while i < names.len()
        invariant
            i <= names.len(),
            forall|j: int| 0 <= j < i ==> views(keys@).contains(#[trigger] views(names@)[j]),
        decreases names.len() - i,
    {
        if !list_contains(keys, names[i].as_str()) {
            assert(views(names@)[i as int] == names@[i as int]@);
            return Err(Error::MissingTensor(names[i].clone()));
        }
        assert(views(names@)[i as int] == names@[i as int]@);
        i += 1;
    }
    assert forall|n: Seq<char>| views(names@).contains(n) implies #[trigger] views(
        keys@,
    ).contains(n) by {
        let k = choose|k: int| 0 <= k < views(names@).len() && views(names@)[k] == n;
        assert(views(keys@).contains(views(names@)[k]));
    }
    Ok(())
}

/// Appends the texts of `more` to `out`.
pub(crate) fn extend(out: &mut Vec<String>, more: Vec<String>)
    ensures
        views(final(out)@) == views(old(out)@) + views(more@),
{
    let mut more = more;
    let ghost a = out@;
    let ghost b = more@;
    out.append(&mut more);
    assert(views(out@) =~= views(a) + views(b));
}

/// The tensors of a convolution.
pub open spec fn conv_tensors(prefix: Seq<char>) -> Seq<Seq<char>> {
    seq![prefix + ".weight"@, prefix + ".bias"@]
}

/// The tensors of a convolution.
pub(crate) fn conv_names(prefix: &str) -> (r: Vec<String>)
    ensures
        views(r@) == conv_tensors(prefix@),
{
    let mut out: Vec<String> = Vec::new();
    out.push(join2(prefix, ".weight"));
    out.push(join2(prefix, ".bias"));
    assert(views(out@) =~= conv_tensors(prefix@));
    out
}

/// A list of one name.
pub(crate) fn one_name(name: String) -> (r: Vec<String>)
    ensures
        views(r@) == seq![name@],
{
    let mut out: Vec<String> = Vec::new();
    out.push(name);
    assert(views(out@) =~= seq![name@]);
    out
}

} // verus!
