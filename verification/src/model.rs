//! The rating data model: a tagged measurement and the record that places it
//! in the discipline / path / area / competency hierarchy.

use vstd::prelude::*;

verus! {

/// A tagged measurement: either an interest score or a competency score.
/// Any signed value is accepted; no range validation belongs to the core.
#[derive(Copy, Clone, PartialEq, Eq, Structural, Debug)]
pub enum Rating {
    Interest(i32),
    Competency(i32),
}

/// One recorded rating plus its position in the hierarchy. Ids are opaque
/// non-negative identifiers; no referential integrity is checked here.
/// Equality is structural: all four ids, the tag and the value must match.
#[derive(Copy, Clone, PartialEq, Eq, Structural, Debug)]
pub struct CompetencyRating {
    pub discipline_id: usize,
    pub path_id: usize,
    pub area_id: usize,
    pub comp_id: usize,
    pub rating: Rating,
}

/// The fixed record that an append without a caller-supplied record stores.
pub open spec fn spec_placeholder_record() -> CompetencyRating {
    CompetencyRating {
        discipline_id: 1,
        path_id: 1,
        area_id: 1,
        comp_id: 1,
        rating: Rating::Interest(4),
    }
}

/// Builds the placeholder record appended when a caller supplies none.
pub fn placeholder_record() -> (r: CompetencyRating)
    ensures
        r == spec_placeholder_record(),
{
    CompetencyRating {
        discipline_id: 1,
        path_id: 1,
        area_id: 1,
        comp_id: 1,
        rating: Rating::Interest(4),
    }
}

} // verus!
