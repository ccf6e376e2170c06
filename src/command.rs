use vstd::prelude::*;

verus! {

/// One searchable entry: a name and the source it was found in
/// (`bin`, `homebrew`, `cask`, `pip`, `npm`, `yarn`, `cargo`, `go`, `alias`
/// or `function`).
#[derive(Debug, Clone)]
pub struct BentoCommand {
    pub name: String,
    pub category: String,
}

impl BentoCommand {
    pub fn new(name: String, category: String) -> (r: Self)
        ensures
            r.name == name,
            r.category == category,
    {
        Self { name, category }
    }

    /// A field-for-field copy.
    pub(crate) fn duplicate(&self) -> (r: Self)
        ensures
            r == *self,
    {
        Self { name: self.name.clone(), category: self.category.clone() }
    }
}

} // verus!
