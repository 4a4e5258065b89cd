//! Small shared helpers.

use vstd::prelude::*;

verus! {

/// Trigger markers for existential witnesses in specification relations:
/// asserting one for concrete values makes the witness visible to the
/// prover.
pub open spec fn wit1<A>(a: A) -> bool {
    true
}

pub open spec fn wit2<A, B>(a: A, b: B) -> bool {
    true
}

pub open spec fn wit3<A, B, C>(a: A, b: B, c: C) -> bool {
    true
}

/// Clone a vector of strings, element by element, keeping the exact contents.
pub fn clone_string_vec(v: &Vec<String>) -> (r: Vec<String>)
    ensures
        r@ == v@,
{
    let mut out: Vec<String> = Vec::new();
    let mut i: usize = 0;
    while i < v.len()
        invariant
            i <= v.len(),
            out@ =~= v@.take(i as int),
        decreases v.len() - i,
    {
        out.push(v[i].clone());
        proof {
            assert(v@.take(i + 1) =~= v@.take(i as int).push(v@[i as int]));
        }
        i += 1;
    }
    proof {
        assert(out@ =~= v@);
    }
    out
}

} // verus!
