use vstd::prelude::*;
use crate::analyzer::types::VariableInfo;
use crate::analyzer::text::text_eq;

verus! {

/// The variable named `name` that was bound last.
pub open spec fn scope_lookup(scope: Seq<(String, VariableInfo)>, name: Seq<char>) -> Option<
    VariableInfo,
>
    decreases scope.len(),
{
    if scope.len() == 0 {
        None
    } else if scope.last().0@ == name {
        Some(scope.last().1)
    } else {
        scope_lookup(scope.drop_last(), name)
    }
}

/// Finds the variable named `name` that was bound last.
pub fn lookup<'a>(scope: &'a Vec<(String, VariableInfo)>, name: &str) -> (r: Option<&'a VariableInfo>)
    ensures
        match r {
            Some(v) => scope_lookup(scope@, name@) == Some(*v),
            None => scope_lookup(scope@, name@) is None,
        },
{
    let mut i: usize = scope.len();
    assert(scope@.take(i as int) =~= scope@);
    while i > 0
        invariant
            i <= scope@.len(),
            scope_lookup(scope@, name@) == scope_lookup(scope@.take(i as int), name@),
        decreases i,
    {
        let ghost t = scope@.take(i as int);
        proof {
            assert(t.drop_last() =~= scope@.take(i - 1));
        }
        if text_eq(scope[i - 1].0.as_str(), name) {
            return Some(&scope[i - 1].1);
        }
        i = i - 1;
    }
    None
}

} // verus!
