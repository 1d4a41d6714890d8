//! Weighting factors of the CTE (Código Técnico de la Edificación) by location.

use vstd::prelude::*;

use crate::error::EpbdError;
use crate::text::{concat, str_eq};
use crate::wfactors::{fviews, normalized, with_user_values, Factors, UserWF};

verus! {

broadcast use vstd::string::group_string_axioms;

/// The position of the first entry of the table for the location `loc`, if any.
pub open spec fn loc_position<F>(locmap: Seq<(String, Factors<F>)>, loc: Seq<char>) -> Option<int>
    decreases locmap.len(),
{
    if locmap.len() == 0 {
        None
    } else {
        match loc_position(locmap.drop_last(), loc) {
            Some(i) => Some(i),
            None => if locmap.last().0@ == loc {
                Some(locmap.len() - 1)
            } else {
                None
            },
        }
    }
}

/// The detail of the error for an unknown location.
pub open spec fn loc_error(loc: Seq<char>) -> Seq<char> {
    "Localizacion: "@ + loc
}

/// The weighting factors of the location `loc` in the table of factors by location, with
/// the values given by the user set and normalized (see `Factors::normalize`).
///
/// `ParseError` for a location that the table does not have; `MissingFactor` when the
/// factors of the location lack a grid supply factor that normalizing needs.
pub fn wfactors_from_loc<F: Copy>(
    loc: &str,
    locmap: Vec<(String, Factors<F>)>,
    user: UserWF<Option<F>>,
    userdefaults: &UserWF<F>,
    renewable: F,
    zero: F,
) -> (r: Result<Factors<F>, EpbdError>)
    ensures
        match loc_position(locmap@, loc@) {
            None => r matches Err(EpbdError::ParseError(m)) && m@ == loc_error(loc@),
            Some(i) => match normalized(
                with_user_values(fviews(locmap@[i].1.wdata@), user),
                *userdefaults,
                renewable,
                zero,
            ) {
                Ok(s) => r matches Ok(x) && fviews(x.wdata@) == s && x.wmeta == locmap@[i].1.wmeta,
                Err(m) => r matches Err(EpbdError::MissingFactor(x)) && x@ == m,
            },
        },
        // A location that the table does not have is refused
        (forall|j: int| 0 <= j < locmap@.len() ==> (#[trigger] locmap@[j]).0@ != loc@) ==> (r matches Err(
            EpbdError::ParseError(m),
        ) && m@ == loc_error(loc@)),
        // otherwise the factors of its first entry are taken
        forall|i: int|
            0 <= i < locmap@.len() && (#[trigger] locmap@[i]).0@ == loc@ && (forall|j: int|
                0 <= j < i ==> (#[trigger] locmap@[j]).0@ != loc@) ==> match normalized(
                with_user_values(fviews(locmap@[i].1.wdata@), user),
                *userdefaults,
                renewable,
                zero,
            ) {
                Ok(s) => r matches Ok(x) && fviews(x.wdata@) == s && x.wmeta == locmap@[i].1.wmeta,
                Err(m) => r matches Err(EpbdError::MissingFactor(x)) && x@ == m,
            },
{
    let mut table = locmap;
    let ghost t = table@;
    let mut i: usize = 0;
    while i < table.len()
        invariant
            table@ == t,
            t == locmap@,
            i <= t.len(),
            loc_position(t.take(i as int), loc@) is None,
        decreases t.len() - i,
    {
        proof {
            assert(t.take(i as int + 1).drop_last() =~= t.take(i as int));
            assert(t.take(i as int + 1).last() == t[i as int]);
        }
        if str_eq(table[i].0.as_str(), loc) {
            proof {
                assert(t[i as int].0@ == loc@);
                assert(loc_position(t.take(i as int + 1), loc@) == Some(i as int));
                lemma_loc_position_prefix(t, i as int + 1, loc@);
            }
            let (_, wf) = table.remove(i);
            assert(wf == t[i as int].1);
            proof {
                lemma_loc_position(t, loc@);
                assert forall|p: int|
                    0 <= p < t.len() && (#[trigger] t[p]).0@ == loc@ && (forall|j: int|
                        0 <= j < p ==> (#[trigger] t[j]).0@ != loc@) implies loc_position(t, loc@) == Some(
                    p,
                ) by {
                    let k = loc_position(t, loc@)->0;
                    assert(t[k].0@ == loc@);
                }
            }
            return wf.set_user_wfactors(user).normalize(userdefaults, renewable, zero);
        }
        i = i + 1;
    }
    proof {
        assert(t.take(i as int) =~= t);
        lemma_loc_position(t, loc@);
    }
    Err(EpbdError::ParseError(concat("Localizacion: ", loc)))
}

/// The position of a location in the table is that of its first entry: there is none
/// exactly when no entry has the location.
pub proof fn lemma_loc_position<F>(t: Seq<(String, Factors<F>)>, loc: Seq<char>)
    ensures
        loc_position(t, loc) is None <==> forall|j: int| 0 <= j < t.len() ==> (#[trigger] t[j]).0@ != loc,
        match loc_position(t, loc) {
            Some(i) => 0 <= i < t.len() && t[i].0@ == loc && forall|j: int|
                0 <= j < i ==> (#[trigger] t[j]).0@ != loc,
            None => true,
        },
    decreases t.len(),
{
    if t.len() > 0 {
        let u = t.drop_last();
        lemma_loc_position(u, loc);
        assert forall|j: int| 0 <= j < u.len() implies #[trigger] u[j] == t[j] by {}
        if loc_position(u, loc) is None && t.last().0@ != loc {
            assert forall|j: int| 0 <= j < t.len() implies (#[trigger] t[j]).0@ != loc by {
                if j < u.len() {
                    assert(u[j] == t[j]);
                }
            }
        }
        if loc_position(u, loc) is Some {
            let j = choose|j: int| 0 <= j < u.len() && (#[trigger] u[j]).0@ == loc;
            assert(t[j] == u[j]);
            let i = loc_position(u, loc)->0;
            assert(t[i] == u[i]);
            assert forall|j: int| 0 <= j < i implies (#[trigger] t[j]).0@ != loc by {
                assert(u[j] == t[j]);
            }
        } else if t.last().0@ == loc {
            assert forall|j: int| 0 <= j < t.len() - 1 implies (#[trigger] t[j]).0@ != loc by {
                assert(u[j] == t[j]);
            }
        }
    }
}

/// A position found in a prefix of the table is the position in the whole table.
proof fn lemma_loc_position_prefix<F>(t: Seq<(String, Factors<F>)>, n: int, loc: Seq<char>)
    requires
        0 <= n <= t.len(),
        loc_position(t.take(n), loc) is Some,
    ensures
        loc_position(t, loc) == loc_position(t.take(n), loc),
    decreases t.len() - n,
{
    if n < t.len() {
        assert(t.take(n + 1).drop_last() =~= t.take(n));
        lemma_loc_position_prefix(t, n + 1, loc);
    } else {
        assert(t.take(n) =~= t);
    }
}

} // verus!
