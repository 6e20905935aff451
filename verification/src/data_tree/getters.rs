use super::DataTree;
use vstd::prelude::*;

verus! {

impl<Name> DataTree<Name> {
    /// Extract name.
    pub fn name(&self) -> (name: &Name)
        ensures
            *name == self.spec_name(),
    {
        &self.name
    }

    /// Get mutable reference to name.
    pub fn name_mut(&mut self) -> (name: &mut Name)
        ensures
            *name == old(self).spec_name(),
            final(self).is_node(*final(name), old(self).spec_size() as int, old(self).spec_children()),
    {
        &mut self.name
    }

    /// Extract total disk usage.
    pub fn size(&self) -> (size: u64)
        ensures
            size == self.spec_size(),
    {
        self.size
    }

    /// Extract children.
    pub fn children(&self) -> (children: &Vec<Self>)
        ensures
            children@ == self.spec_children(),
    {
        &self.children
    }
}

} // verus!
