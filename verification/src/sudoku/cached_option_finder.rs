//! The caching candidate finder: it asks the standard finder once for each
//! cell and afterwards answers from what it kept.

use std::collections::HashMap;
use vstd::prelude::*;
use vstd::std_specs::hash::group_hash_axioms;
use crate::sudoku::board::Board;
use crate::sudoku::option_finder::{is_option_list, OptionFinder, OptionList, StandardOptionFinder};
use crate::sudoku::reference::GridReference;

verus! {

/// A standard finder together with the lists it has handed out, kept under
/// the position of their cell. The finder reads a grid that cannot change
/// while the finder borrows it, so a list that was kept stays right.
#[derive(Debug)]
pub struct CachedOptionFinder<'problem> {
    finder: StandardOptionFinder<'problem>,
    option_cache: HashMap<usize, OptionList>,
}

impl<'problem> CachedOptionFinder<'problem> {
    /// The positions of the cells whose list is kept.
    pub closed spec fn kept(&self) -> Set<usize> {
        self.option_cache@.dom()
    }

    /// Wraps a finder; nothing is kept yet.
    pub fn new(finder: StandardOptionFinder<'problem>) -> (cached: Self)
        ensures
            cached.problem() == finder.problem(),
            cached.kept() == Set::<usize>::empty(),
            finder.wf() ==> cached.wf(),
    {
        Self { finder, option_cache: HashMap::new() }
    }
}

impl<'problem> OptionFinder for CachedOptionFinder<'problem> {
    /// The wrapped finder may be asked, and every list kept is the list of
    /// candidates of its cell.
    closed spec fn wf(&self) -> bool {
        &&& self.finder.wf()
        &&& forall|key: usize| #[trigger]
            self.option_cache@.contains_key(key) ==> key < 81 && is_option_list(
                self.finder.problem(),
                key as int,
                self.option_cache@[key]@,
            )
    }

    /// The board of the grid that the wrapped finder reads.
    closed spec fn problem(&self) -> Board {
        self.finder.problem()
    }

    /// The candidates of the cell on the finder's board: worked out at the
    /// first call for the cell, which keeps them, and a copy of the kept
    /// list afterwards.
    fn find_for_cell(&mut self, grid_ref: &GridReference) -> (options: OptionList)
        ensures
            final(self).kept() == old(self).kept().insert(grid_ref.index() as usize),
    {
        broadcast use group_hash_axioms;

        let key: usize = grid_ref.to_index();
        if !self.option_cache.contains_key(&key) {
            let found = self.finder.find_for_cell(grid_ref);
            self.option_cache.insert(key, found);
        }
        match self.option_cache.get(&key) {
            Some(kept) => {
                let options = kept.clone();
                proof {
                    assert(options@ =~= kept@);
                }
                options
            },
            None => vstd::pervasive::unreached(),
        }
    }
}

} // verus!
