//! The kinds of lesson that a school teaches.

use vstd::prelude::*;
use crate::grid::ID;

verus! {

/// One entry of the lesson catalog.
#[derive(Clone, Copy, Debug, PartialEq, Eq, Structural)]
pub struct Lesson {
    /// Identifier of the lesson, written into the slots it occupies.
    pub id: ID,
    /// Occurrences of the lesson per week.
    pub amount: u8,
    /// Most occurrences of the lesson on one day.
    pub max_per_day: u8,
}

/// No two lessons of the catalog share an identifier.
pub open spec fn ids_distinct(catalog: Seq<Lesson>) -> bool {
    forall|i: int, j: int|
        0 <= i < catalog.len() && 0 <= j < catalog.len() && i != j ==> (#[trigger] catalog[i]).id
            != (#[trigger] catalog[j]).id
}

/// The occurrences per week that the first `n` lessons of the catalog ask
/// for under the identifier `id`.
pub open spec fn weekly_amount(catalog: Seq<Lesson>, id: ID, n: int) -> nat
    decreases n,
{
    if n <= 0 {
        0
    } else {
        weekly_amount(catalog, id, n - 1) + if catalog[n - 1].id == id {
            catalog[n - 1].amount as nat
        } else {
            0nat
        }
    }
}

/// In a catalog without repeated identifiers, the amount asked for under the
/// identifier of a lesson is that lesson's own.
pub proof fn lemma_weekly_amount_of_distinct(catalog: Seq<Lesson>, i: int, n: int)
    requires
        ids_distinct(catalog),
        0 <= i < catalog.len(),
        0 <= n <= catalog.len(),
    ensures
        weekly_amount(catalog, catalog[i].id, n) == (if i < n {
            catalog[i].amount as nat
        } else {
            0nat
        }),
    decreases n,
{
    if n > 0 {
        lemma_weekly_amount_of_distinct(catalog, i, n - 1);
    }
}

} // verus!
