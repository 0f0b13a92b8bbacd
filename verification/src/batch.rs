//! The batch executor: fans one single-target operation out over a list
//! of independent target identifiers.

use vstd::prelude::*;

verus! {

/// Runs `operation` on every target and collects the results.
///
/// Law: given K targets the operation is invoked exactly once per
/// target — one result per target, each related to its own target by the
/// operation's own contract — and no target's failure keeps any other
/// target from being invoked or from reporting its outcome: every
/// result stands in the output whatever the others are.
pub fn run_batch<R>(targets: &Vec<String>, operation: impl Fn(&String) -> R) -> (results: Vec<R>)
    requires
        forall|i: int| 0 <= i < targets@.len() ==> call_requires(operation, (&targets@[i],)),
    ensures
        results@.len() == targets@.len(),
        forall|i: int|
            0 <= i < targets@.len() ==> call_ensures(
                operation,
                (&targets@[i],),
                #[trigger] results@[i],
            ),
{
    let mut results: Vec<R> = Vec::new();
    let mut j: usize = 0;
    while j < targets.len()
        invariant
            forall|i: int| 0 <= i < targets@.len() ==> call_requires(operation, (&targets@[i],)),
            j <= targets@.len(),
            results@.len() == j,
            forall|i: int|
                0 <= i < j ==> call_ensures(operation, (&targets@[i],), #[trigger] results@[i]),
        decreases targets@.len() - j,
    {
        let r = operation(&targets[j]);
        results.push(r);
        j += 1;
    }
    results
}

} // verus!
