//! The working grocery list.

use vstd::prelude::*;

verus! {

/// The items on the working list, in the order they were added.
pub struct GroceryList {
    pub items: Vec<String>,
}

impl GroceryList {
    /// An empty list.
    pub fn new() -> (l: GroceryList)
        ensures
            l.items@.len() == 0,
    {
        GroceryList { items: Vec::new() }
    }

    /// Appends `item` to the end of the list.
    pub fn add(&mut self, item: String)
        ensures
            final(self).items.deep_view() == old(self).items.deep_view().push(item@),
    {
        let ghost pre = self.items.deep_view();
        self.items.push(item);
        assert(self.items.deep_view() =~= pre.push(item@));
    }
}

impl Default for GroceryList {
    fn default() -> (l: GroceryList)
        ensures
            l.items@.len() == 0,
    {
        GroceryList::new()
    }
}

} // verus!
