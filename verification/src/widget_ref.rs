//! Shared, late-bound references to widget identifiers.

use std::sync::{Arc, RwLock};
use vstd::prelude::*;

use crate::widget_id::WidgetId;

verus! {

#[verifier::external_type_specification]
#[verifier::external_body]
#[verifier::reject_recursive_types(T)]
pub struct ExRwLock<T: ?Sized>(RwLock<T>);

/// A new lock holding `value` (`RwLock::new`).
///
/// Nothing is claimed of the lock's later contents: it is meant to be
/// shared, and every holder can write to it.
#[verifier::external_body]
pub(crate) fn new_rwlock<T>(value: T) -> RwLock<T> {
    RwLock::new(value)
}

/// A new slot holding `id`, shared through an `Arc`.
fn new_shared_id(id: Option<WidgetId>) -> Arc<RwLock<Option<WidgetId>>> {
    Arc::new(new_rwlock(id))
}

/// Another handle to the same slot (`Arc::clone`, which points to the same
/// allocation). Verus compares `Arc`s by the value they point to, which
/// both handles share.
#[verifier::external_body]
fn share_slot(slot: &Arc<RwLock<Option<WidgetId>>>) -> (r: Arc<RwLock<Option<WidgetId>>>)
    ensures
        r == *slot,
{
    slot.clone()
}

/// Reads a copy of the identifier in the lock (`RwLock::read`); `None` when
/// the lock is poisoned.
///
/// Nothing is claimed of the result: it is whatever was last written
/// through any clone of the `Arc`.
#[verifier::external_body]
fn read_shared_id(cell: &Arc<RwLock<Option<WidgetId>>>) -> Option<WidgetId> {
    match cell.read() {
        Ok(data) => data.clone(),
        Err(_) => None,
    }
}

/// Stores `id` in the lock (`RwLock::write`); does nothing when the lock is
/// poisoned.
#[verifier::external_body]
fn write_shared_id(cell: &Arc<RwLock<Option<WidgetId>>>, id: WidgetId) {
    if let Ok(mut data) = cell.write() {
        *data = Some(id);
    }
}

/// A reference to a widget, filled in when the widget is built; clones share
/// the same slot.
#[derive(Debug)]
pub struct WidgetRef(Arc<RwLock<Option<WidgetId>>>);

impl Clone for WidgetRef {
    /// Another handle to the same slot.
    fn clone(&self) -> (r: Self)
        ensures
            r == *self,
    {
        WidgetRef(share_slot(&self.0))
    }
}

impl Default for WidgetRef {
    /// A reference with an empty slot.
    fn default() -> (r: Self) {
        WidgetRef(new_shared_id(None))
    }
}

impl WidgetRef {
    /// A reference whose slot holds `id`.
    pub fn new(id: WidgetId) -> (r: Self) {
        WidgetRef(new_shared_id(Some(id)))
    }

    /// Stores `id` in the shared slot.
    pub(crate) fn write(&mut self, id: WidgetId) {
        write_shared_id(&self.0, id);
    }

    /// The identifier in the shared slot, if any.
    pub fn read(&self) -> (r: Option<WidgetId>) {
        read_shared_id(&self.0)
    }

    /// Whether the shared slot holds an identifier.
    pub fn is_set(&self) -> (r: bool) {
        read_shared_id(&self.0).is_some()
    }
}

/// The serialized form of a [`WidgetRef`]: the identifier it held.
#[derive(Debug, Clone, Default)]
pub struct WidgetRefDef(pub Option<WidgetId>);

impl WidgetRefDef {
    /// What the reference holds now.
    pub fn from_ref(data: &WidgetRef) -> (r: Self) {
        WidgetRefDef(data.read())
    }

    /// A reference whose slot holds what was serialized.
    pub fn into_ref(self) -> (r: WidgetRef) {
        WidgetRef(new_shared_id(self.0))
    }
}

/// Either nothing, a fixed identifier, or a shared reference.
#[derive(Debug)]
pub enum WidgetIdOrRef {
    Unset,
    Id(WidgetId),
    Ref(WidgetRef),
}

impl WidgetIdOrRef {
    /// Both are nothing, identifiers with the same text, or handles to the
    /// same slot.
    pub open spec fn same_as(self, other: WidgetIdOrRef) -> bool {
        match (self, other) {
            (WidgetIdOrRef::Unset, WidgetIdOrRef::Unset) => true,
            (WidgetIdOrRef::Id(a), WidgetIdOrRef::Id(b)) => a@ == b@,
            (WidgetIdOrRef::Ref(a), WidgetIdOrRef::Ref(b)) => a == b,
            _ => false,
        }
    }
}

impl Clone for WidgetIdOrRef {
    fn clone(&self) -> (r: Self)
        ensures
            r.same_as(*self),
    {
        match self {
            WidgetIdOrRef::Unset => WidgetIdOrRef::Unset,
            WidgetIdOrRef::Id(id) => WidgetIdOrRef::Id(id.clone()),
            WidgetIdOrRef::Ref(r) => WidgetIdOrRef::Ref(r.clone()),
        }
    }
}

impl Default for WidgetIdOrRef {
    fn default() -> (r: Self)
        ensures
            r is Unset,
    {
        WidgetIdOrRef::Unset
    }
}

impl WidgetIdOrRef {
    /// A fresh reference with an empty slot.
    pub fn new_ref() -> (r: Self)
        ensures
            r is Ref,
    {
        WidgetIdOrRef::Ref(WidgetRef::default())
    }

    /// Whether this is nothing.
    pub fn is_none(&self) -> (r: bool)
        ensures
            r == (*self is Unset),
    {
        match self {
            WidgetIdOrRef::Unset => true,
            _ => false,
        }
    }

    /// Whether this is an identifier or a reference.
    pub fn is_some(&self) -> (r: bool)
        ensures
            r == !(*self is Unset),
    {
        !self.is_none()
    }

    /// The identifier: none for nothing, the identifier itself, or what the
    /// reference holds.
    pub fn read(&self) -> (r: Option<WidgetId>)
        ensures
            *self is Unset ==> r is None,
            *self matches WidgetIdOrRef::Id(id) ==> r matches Some(x) && x@ == id@,
    {
        match self {
            WidgetIdOrRef::Unset => None,
            WidgetIdOrRef::Id(id) => Some(id.clone()),
            WidgetIdOrRef::Ref(idref) => idref.read(),
        }
    }
}

impl From<()> for WidgetIdOrRef {
    fn from(_v: ()) -> (r: Self) {
        WidgetIdOrRef::Unset
    }
}

impl vstd::std_specs::convert::FromSpecImpl<()> for WidgetIdOrRef {
    open spec fn obeys_from_spec() -> bool {
        true
    }

    open spec fn from_spec(v: ()) -> Self {
        WidgetIdOrRef::Unset
    }
}

impl From<WidgetId> for WidgetIdOrRef {
    fn from(v: WidgetId) -> (r: Self) {
        WidgetIdOrRef::Id(v)
    }
}

impl vstd::std_specs::convert::FromSpecImpl<WidgetId> for WidgetIdOrRef {
    open spec fn obeys_from_spec() -> bool {
        true
    }

    open spec fn from_spec(v: WidgetId) -> Self {
        WidgetIdOrRef::Id(v)
    }
}

impl From<WidgetRef> for WidgetIdOrRef {
    fn from(v: WidgetRef) -> (r: Self) {
        WidgetIdOrRef::Ref(v)
    }
}

impl vstd::std_specs::convert::FromSpecImpl<WidgetRef> for WidgetIdOrRef {
    open spec fn obeys_from_spec() -> bool {
        true
    }

    open spec fn from_spec(v: WidgetRef) -> Self {
        WidgetIdOrRef::Ref(v)
    }
}

} // verus!
