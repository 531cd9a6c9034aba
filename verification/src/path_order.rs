//! The order in which files are searched: the closest first.

use std::cmp::Ordering;
use vstd::prelude::*;
use crate::closeness::{shared_count, shared_lead};
use crate::text::texts;

verus! {

impl crate::closeness::FilePathIterator {
    /// Tells which of two paths is to be searched first: the one that
    /// shares more leading components with the start.
    pub fn compare_paths(start_path: &Vec<String>, a: &Vec<String>, b: &Vec<String>) -> (order:
        Ordering)
        ensures
            (order == Ordering::Less) == (shared_lead(texts(start_path@), texts(a@)) > shared_lead(
                texts(start_path@),
                texts(b@),
            )),
            (order == Ordering::Equal) == (shared_lead(texts(start_path@), texts(a@))
                == shared_lead(texts(start_path@), texts(b@))),
            (order == Ordering::Greater) == (shared_lead(texts(start_path@), texts(a@))
                < shared_lead(texts(start_path@), texts(b@))),
    {
        let a_distance = shared_count(start_path, a);
        let b_distance = shared_count(start_path, b);
        if a_distance > b_distance {
            Ordering::Less
        } else if a_distance == b_distance {
            Ordering::Equal
        } else {
            Ordering::Greater
        }
    }
}

} // verus!
