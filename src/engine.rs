use vstd::prelude::*;

use crate::assembly::NetworkError;

verus! {

/// The unit vector of length `n` with `one` at `i` and `zero` elsewhere.
pub open spec fn unit_vector<T>(n: nat, i: int, zero: T, one: T) -> Seq<T> {
    Seq::new(n, |k: int| if k == i { one } else { zero })
}

/// `value` is the `i`-th entry of a solution that `solve` can return for
/// the unit vector at `i`: the `i`-th diagonal entry of the inverse matrix.
pub open spec fn solved_at<T, F: Fn(Vec<T>) -> Option<Vec<T>>>(
    solve: F,
    n: nat,
    i: int,
    zero: T,
    one: T,
    value: T,
) -> bool {
    exists|b: Vec<T>, s: Vec<T>|
        b@ == unit_vector(n, i, zero, one) && #[trigger] solve.ensures((b,), Some(s)) && s@.len()
            == n && s@[i] == value
}

/// `solve` can fail, or return a vector of another length, on the unit
/// vector at `i`.
pub open spec fn fails_at<T, F: Fn(Vec<T>) -> Option<Vec<T>>>(
    solve: F,
    n: nat,
    i: int,
    zero: T,
    one: T,
) -> bool {
    exists|b: Vec<T>, out: Option<Vec<T>>|
        b@ == unit_vector(n, i, zero, one) && #[trigger] solve.ensures((b,), out) && !(out matches Some(
            s,
        ) && s@.len() == n)
}

/// A fresh unit vector of length `n` with `one` at `i`.
pub fn unit<T: Copy>(n: usize, i: usize, zero: T, one: T) -> (r: Vec<T>)
    ensures
        r@ == unit_vector(n as nat, i as int, zero, one),
{
    let mut r: Vec<T> = Vec::new();
    let mut k: usize = 0;
    while k < n
        invariant
            k <= n,
            r@ == unit_vector(k as nat, i as int, zero, one),
        decreases n - k,
    {
        if k == i {
            r.push(one);
        } else {
            r.push(zero);
        }
        proof {
            assert(r@ =~= unit_vector((k + 1) as nat, i as int, zero, one));
        }
        k += 1;
    }
    r
}

/// The diagonal of the inverse of an `n` by `n` matrix whose factorisation
/// `solve` applies: for each node `i`, one solve against the unit vector at
/// `i`, keeping the `i`-th entry of the solution. A solve that fails, or
/// returns a vector of another length, stops the computation as a singular
/// system.
pub fn impedance_diagonal<T: Copy, F: Fn(Vec<T>) -> Option<Vec<T>>>(
    n: usize,
    zero: T,
    one: T,
    solve: F,
) -> (r: Result<Vec<T>, NetworkError>)
    requires
        forall|b: Vec<T>| b@.len() == n ==> #[trigger] solve.requires((b,)),
    ensures
        r matches Ok(d) ==> d@.len() == n && forall|i: int|
            0 <= i < n ==> solved_at(solve, n as nat, i, zero, one, #[trigger] d@[i]),
        r matches Err(e) ==> e == NetworkError::SingularSystem && exists|i: int|
            0 <= i < n && #[trigger] fails_at(solve, n as nat, i, zero, one),
        (forall|i: int| 0 <= i < n ==> !#[trigger] fails_at(solve, n as nat, i, zero, one))
            ==> r is Ok,
{
    let mut d: Vec<T> = Vec::new();
    let mut i: usize = 0;
    while i < n
        invariant
            i <= n,
            d@.len() == i,
            forall|b: Vec<T>| b@.len() == n ==> #[trigger] solve.requires((b,)),
            forall|k: int| 0 <= k < i ==> solved_at(solve, n as nat, k, zero, one, #[trigger] d@[k]),
        decreases n - i,
    {
        let b = unit(n, i, zero, one);
        let ghost bg = b;
        let out = solve(b);
        match out {
            Some(s) => {
                if s.len() != n {
                    proof {
                        assert(fails_at(solve, n as nat, i as int, zero, one));
                    }
                    return Err(NetworkError::SingularSystem);
                }
                let v = s[i];
                proof {
                    assert(solve.ensures((bg,), Some(s)));
                    assert(solved_at(solve, n as nat, i as int, zero, one, v));
                }
                d.push(v);
            },
            None => {
                proof {
                    assert(fails_at(solve, n as nat, i as int, zero, one));
                }
                return Err(NetworkError::SingularSystem);
            },
        }
        i += 1;
    }
    Ok(d)
}

} // verus!
