//! The project roots that Codex Desktop saved in its state database.
use vstd::prelude::*;

use crate::index::{norm_ws, WorkspaceFact, WorkspaceFacts};
use crate::paths::{is_absolute, is_absolute_str};
use crate::sets::{set_of, sorted_set, views};

verus! {

/// Why the saved project roots could not be read: the database did not
/// open, or the query on it failed.
#[derive(Debug, Clone, PartialEq, Eq)]
pub enum ProjectRootsError {
    Open { path: String, message: String },
    Query { message: String },
}

/// The normalized paths of the absolute rows, in row order.
pub open spec fn absolute_roots(rows: Seq<Seq<char>>, facts: Seq<WorkspaceFact>) -> Seq<Seq<char>>
    decreases rows.len(),
{
    if rows.len() == 0 {
        Seq::empty()
    } else if is_absolute(rows.last()) {
        absolute_roots(rows.drop_last(), facts).push(norm_ws(facts, rows.last()))
    } else {
        absolute_roots(rows.drop_last(), facts)
    }
}

/// The project roots of the rows the project query returned: relative
/// paths are skipped, the others normalized, and the result is their
/// ordered set by path.
pub fn project_roots(rows: &Vec<String>, facts: &WorkspaceFacts) -> (res: Vec<String>)
    ensures
        set_of(true, views(res@), absolute_roots(views(rows@), facts.facts@)),
{
    let mut found: Vec<String> = Vec::new();
    let mut i: usize = 0;
    while i < rows.len()
        invariant
            i <= rows.len(),
            views(found@) =~= absolute_roots(views(rows@).take(i as int), facts.facts@),
        decreases rows.len() - i,
    {
        proof {
            assert(views(rows@).take(i + 1).drop_last() =~= views(rows@).take(i as int));
            assert(views(rows@).take(i + 1).last() == rows@[i as int]@);
        }
        if is_absolute_str(rows[i].as_str()) {
            found.push(facts.normalize(rows[i].as_str()));
        }
        i = i + 1;
    }
    assert(views(rows@).take(i as int) =~= views(rows@));
    sorted_set(&found, true)
}

/// The saved project roots, or none where the database could not be read:
/// a missing, locked or older database must not stop the caller.
pub fn load_saved_project_roots(read: Result<Vec<String>, ProjectRootsError>, facts: &WorkspaceFacts) -> (res: Vec<String>)
    ensures
        match read {
            Ok(rows) => set_of(true, views(res@), absolute_roots(views(rows@), facts.facts@)),
            Err(_) => res@.len() == 0,
        },
{
    match read {
        Ok(rows) => project_roots(&rows, facts),
        Err(_) => Vec::new(),
    }
}

} // verus!
