use vstd::prelude::*;

verus! {

/// Which kind of access a registered native view grants. Read-only views
/// back state hashing and the post-commit hook; mutable views back
/// initialization, execution and the pre-commit hook. Using the wrong
/// kind for a call is a correctness bug, so the two are distinguished.
#[derive(Clone, Copy, Debug, PartialEq, Eq, Structural)]
pub enum ViewKind {
    ReadOnly,
    Mutable,
}

/// The resource handle bridge: a table that wraps native view references
/// into opaque integer handles the foreign side can hold and pass back
/// unchanged. An entry lives only for the duration of the native call
/// that created it; handles are never reused, so a stale handle resolves
/// to nothing instead of to a newer entry.
pub struct HandleRegistry {
    entries: Vec<Option<ViewKind>>,
}

impl HandleRegistry {
    /// The live handles and the kind of view each one wraps.
    pub closed spec fn view(&self) -> Map<i64, ViewKind> {
        Map::new(
            |h: i64| 0 <= h < self.entries@.len() && self.entries@[h as int] is Some,
            |h: i64| self.entries@[h as int]->Some_0,
        )
    }

    /// How many handles were ever issued.
    pub closed spec fn issued(&self) -> nat {
        self.entries@.len()
    }

    pub fn new() -> (r: HandleRegistry)
        ensures
            r@ == Map::<i64, ViewKind>::empty(),
            r.issued() == 0,
    {
        let r = HandleRegistry { entries: Vec::new() };
        proof {
            assert(r@ =~= Map::<i64, ViewKind>::empty());
        }
        r
    }

    /// Wraps a native view reference of the given kind into a fresh
    /// opaque handle. The bound on issued handles is forced by the handle
    /// type: more handles than that cannot be represented.
    pub fn to_handle(&mut self, kind: ViewKind) -> (h: i64)
        requires
            old(self).issued() < 0x7fff_ffff_ffff_ffff,
        ensures
            0 <= h,
            !old(self)@.dom().contains(h),
            final(self)@ == old(self)@.insert(h, kind),
            final(self).issued() == old(self).issued() + 1,
    {
        let h = self.entries.len() as i64;
        self.entries.push(Some(kind));
        proof {
            assert(self@ =~= old(self)@.insert(h, kind));
        }
        h
    }

    /// The kind of view a handle wraps, when the handle is live.
    pub fn kind_of(&self, h: i64) -> (r: Option<ViewKind>)
        ensures
            r == if self@.dom().contains(h) {
                Some(self@[h])
            } else {
                None::<ViewKind>
            },
    {
        if h >= 0 && (h as u64) < (self.entries.len() as u64) {
            let idx: usize = h as usize;
            self.entries[idx]
        } else {
            None
        }
    }

    /// Drops a handle's entry once the native call that created it has
    /// returned. The handle itself is never reissued.
    pub fn remove(&mut self, h: i64)
        ensures
            final(self)@ == old(self)@.remove(h),
            final(self).issued() == old(self).issued(),
    {
        if h >= 0 && (h as u64) < (self.entries.len() as u64) {
            let idx: usize = h as usize;
            self.entries[idx] = None;
            proof {
                assert(self.entries@ =~= old(self).entries@.update(h as int, None));
                assert(self@ =~= old(self)@.remove(h));
            }
        } else {
            proof {
                assert(!old(self)@.dom().contains(h));
                assert(self@ =~= old(self)@.remove(h));
            }
        }
    }
}

} // verus!

