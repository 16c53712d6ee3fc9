//! Data bindings: external data shared with the UI, raising the
//! application's change flag when it is written.

use std::sync::{Arc, RwLock};
use vstd::prelude::*;

use crate::application::ChangeNotifier;
use crate::widget_ref::new_rwlock;

verus! {

/// A new lock holding `data`, shared through an `Arc`.
fn new_lock<T>(data: T) -> Arc<RwLock<T>> {
    Arc::new(new_rwlock(data))
}

/// A copy of the data under a read lock (`RwLock::read`, then `Clone::clone`);
/// `None` when the lock is poisoned. Claims that a result is what `T::clone`
/// returned; neither the data it copied (any holder of the lock may have
/// written it) nor whether the lock is poisoned is stated.
#[verifier::external_body]
fn read_locked_clone<T: Clone>(lock: &Arc<RwLock<T>>) -> (r: Option<T>)
    ensures
        r matches Some(v) ==> exists|x: &T| call_ensures(T::clone, (x,), v),
{
    match lock.read() {
        Ok(guard) => Some((*guard).clone()),
        Err(_) => None,
    }
}

/// Replaces the data under a write lock (`RwLock::write`); `false`, with the
/// data untouched, when the lock is poisoned. Whether it is poisoned is not stated.
#[verifier::external_body]
fn write_locked_replace<T>(lock: &Arc<RwLock<T>>, v: T) -> bool {
    match lock.write() {
        Ok(mut guard) => {
            *guard = v;
            true
        },
        Err(_) => false,
    }
}

/// Shared data and, optionally, the application flag to raise when it is written.
#[derive(Clone)]
#[verifier::reject_recursive_types(T)]
pub struct DataBinding<T> {
    data: Arc<RwLock<T>>,
    notifier: Option<ChangeNotifier>,
}

impl<T: Default + Send + Sync> Default for DataBinding<T> {
    /// Default data, not bound.
    fn default() -> (r: Self)
        ensures
            r.notifier() is None,
    {
        DataBinding { data: new_lock(T::default()), notifier: None }
    }
}

impl<T: Default + Send + Sync> DataBinding<T> {
    /// The flag raised on writes, if bound.
    pub closed spec fn notifier(&self) -> Option<ChangeNotifier> {
        self.notifier
    }

    /// Wraps `data`, not bound to any application.
    pub fn new(data: T) -> (r: Self)
        ensures
            r.notifier() is None,
    {
        DataBinding { data: new_lock(data), notifier: None }
    }

    /// Wraps `data`, bound to `notifier`.
    pub fn new_bound(data: T, notifier: ChangeNotifier) -> (r: Self)
        ensures
            r.notifier() == Some(notifier),
    {
        DataBinding { data: new_lock(data), notifier: Some(notifier) }
    }

    /// Binds to `notifier`.
    pub fn bind(&mut self, notifier: ChangeNotifier)
        ensures
            final(self).notifier() == Some(notifier),
    {
        self.notifier = Some(notifier);
    }

    /// Stops raising any flag on writes.
    pub fn unbind(&mut self)
        ensures
            final(self).notifier() is None,
    {
        self.notifier = None;
    }

    /// `f` of a copy of the data; `None` (and `f` not run) when the lock is
    /// poisoned. The lock is released before `f` runs, so `f` may use the
    /// binding itself.
    pub fn access<F: Fn(&T) -> R, R>(&self, f: F) -> (r: Option<R>)
        where T: Clone,
        requires
            forall|x: &T| f.requires((x,)),
        ensures
            r matches Some(v) ==> exists|x: &T| f.ensures((x,), v),
    {
        match read_locked_clone(&self.data) {
            Some(data) => {
                let v = f(&data);
                assert(exists|x: &T| f.ensures((x,), v));
                let r = Some(v);
                assert(r->Some_0 == v);
                assert(exists|x: &T| f.ensures((x,), r->Some_0));
                r
            },
            None => None,
        }
    }

    /// A copy of the data; `None` when the lock is poisoned.
    pub fn read_cloned(&self) -> (r: Option<T>)
        where T: Clone,
        ensures
            r matches Some(v) ==> exists|x: &T| call_ensures(T::clone, (x,), v),
    {
        read_locked_clone(&self.data)
    }

    /// A copy of the data, or `T::default()` when the lock is poisoned.
    pub fn read_cloned_or_default(&self) -> (r: T)
        where T: Clone,
        ensures
            (exists|x: &T| call_ensures(T::clone, (x,), r)) || call_ensures(T::default, (), r),
    {
        match self.read_cloned() {
            Some(v) => v,
            None => T::default(),
        }
    }

    /// Raises the bound flag, if any.
    fn notify(&mut self)
        ensures
            final(self).notifier() == old(self).notifier(),
    {
        match &mut self.notifier {
            Some(notifier) => notifier.change(),
            None => {},
        }
    }

    /// Changes a copy of the data with `f`, stores it and raises the bound
    /// flag; `None` (nothing stored, no flag raised) when the lock is
    /// poisoned. The lock is not held while `f` runs, so `f` may use the
    /// binding itself.
    pub fn mutate<F: Fn(&mut T) -> R, R>(&mut self, f: F) -> (r: Option<R>)
        where T: Clone,
        requires
            forall|x: &mut T| f.requires((x,)),
        ensures
            final(self).notifier() == old(self).notifier(),
            r matches Some(v) ==> exists|x: &mut T| f.ensures((x,), v),
    {
        match read_locked_clone(&self.data) {
            Some(data) => {
                let mut data = data;
                let v = f(&mut data);
                assert(exists|x: &mut T| f.ensures((x,), v));
                if write_locked_replace(&self.data, data) {
                    self.notify();
                    let r = Some(v);
                    assert(r->Some_0 == v);
                    assert(exists|x: &mut T| f.ensures((x,), r->Some_0));
                    r
                } else {
                    None
                }
            },
            None => None,
        }
    }

    /// Replaces the data with `v` and raises the bound flag; nothing happens
    /// when the lock is poisoned.
    pub fn write(&mut self, v: T)
        ensures
            final(self).notifier() == old(self).notifier(),
    {
        if write_locked_replace(&self.data, v) {
            self.notify();
        }
    }
}

} // verus!
