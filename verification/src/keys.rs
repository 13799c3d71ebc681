use vstd::prelude::*;

verus! {

/// Handle of one task slot.
///
/// A key is nothing but the index of the slot; two keys are the same handle
/// exactly when their indices agree. Keys are never recycled: once the task
/// behind a key has completed, the key names an empty slot for good.
#[derive(Debug, PartialEq, Eq, Hash, Clone, Copy, Structural)]
pub struct Key {
    pub id: usize,
}

impl Key {
    /// The handle of slot `id`.
    pub fn new(id: usize) -> (key: Key)
        ensures
            key.id == id,
    {
        Key { id }
    }

    /// The index of the slot this handle names.
    #[must_use]
    pub fn id(self) -> (id: usize)
        ensures
            id == self.id,
    {
        self.id
    }

    /// A placeholder handle for values that are filled in later. It names the
    /// last representable slot, which no container ever fills.
    pub fn dummy() -> (key: Key)
        ensures
            key.id == usize::MAX,
    {
        Key { id: usize::MAX }
    }
}

} // verus!
