//! Widget state: the widget's current property bag and a channel for the
//! next one.

use std::any::TypeId;
use std::sync::mpsc::Sender;
use vstd::prelude::*;

use crate::messenger::clone_sender;
use crate::props::{props_key_of, Props, PropsData, PropsError, PropsValue};

verus! {

/// Why a state could not be read or written.
#[derive(Debug, Clone)]
pub enum StateError {
    Props(PropsError),
    CouldNotWriteData,
}

/// Sends a property bag over a channel (`Sender::send`); false when the
/// receiving end is gone.
///
/// Nothing is claimed of the result: it depends on the receiver.
#[verifier::external_body]
fn send_props(sender: &Sender<Props>, props: Props) -> bool {
    sender.send(props).is_ok()
}

/// Sends the next state of a widget.
pub struct StateUpdate(Sender<Props>);

impl Clone for StateUpdate {
    fn clone(&self) -> Self {
        StateUpdate(clone_sender(&self.0))
    }
}

impl StateUpdate {
    /// The channel the next states go to.
    pub closed spec fn channel(&self) -> Sender<Props> {
        self.0
    }

    /// An updater over the channel `sender`.
    pub fn new(sender: Sender<Props>) -> (r: Self)
        ensures
            r.channel() == sender,
    {
        StateUpdate(sender)
    }

    /// Sends `data` as the next state; fails with `CouldNotWriteData` when
    /// nobody receives.
    pub fn write(&self, data: Props) -> (r: Result<(), StateError>)
        ensures
            r is Err ==> r == Err::<(), StateError>(StateError::CouldNotWriteData),
    {
        if send_props(&self.0, data) {
            Ok(())
        } else {
            Err(StateError::CouldNotWriteData)
        }
    }
}

/// A widget's state: its current bag (read-only) and the updater.
pub struct State<'a> {
    data: &'a Props,
    update: StateUpdate,
}

impl<'a> State<'a> {
    /// The current bag.
    pub closed spec fn current(&self) -> Props {
        *self.data
    }

    /// The updater.
    pub closed spec fn updater(&self) -> StateUpdate {
        self.update
    }

    /// A state over `data` and `update`.
    pub fn new(data: &'a Props, update: StateUpdate) -> (r: Self)
        ensures
            r.current() == *data,
            r.updater() == update,
    {
        State { data, update }
    }

    /// The current bag.
    pub fn data(&self) -> (r: &Props)
        ensures
            *r == self.current(),
    {
        self.data
    }

    /// Whether the current bag holds a value of type `T`.
    pub fn has<T: PropsData>(&self) -> (r: bool)
        ensures
            exists|k: TypeId| r == self.current()@.contains_key(k),
            r ==> self.current()@.dom().len() > 0,
    {
        let r = self.data.has::<T>();
        let ghost k = choose|k: TypeId| r == self.data@.contains_key(k);
        assert(r == self.current()@.contains_key(k));
        r
    }

    /// The value of type `T` in the current bag.
    pub fn read<T: PropsData>(&self) -> (r: Result<&'a T, StateError>)
        ensures
            exists|k: TypeId| {
                &&& (r is Ok ==> self.current()@.contains_key(k))
                &&& (r matches Err(StateError::Props(PropsError::HasNoDataOfType(_)))
                    <==> !self.current()@.contains_key(k))
            },
    {
        let res = self.data.read::<T>();
        let ghost k = choose|k: TypeId| {
            &&& (res is Ok ==> self.data@.contains_key(k))
            &&& (res matches Err(PropsError::HasNoDataOfType(_)) <==> !self.data@.contains_key(k))
        };
        let r = match res {
            Ok(v) => Ok(v),
            Err(e) => Err(StateError::Props(e)),
        };
        assert(r matches Err(StateError::Props(PropsError::HasNoDataOfType(_))) <==> !self.current()@.contains_key(k));
        r
    }

    /// `f` applied to the value of type `T`, or `R::default()`.
    pub fn map_or_default<T: PropsData, R: Default, F: Fn(&T) -> R>(&self, f: F) -> (r: R)
        requires
            forall|x: &T| f.requires((x,)),
        ensures
            exists|k: TypeId| {
                &&& (!self.current()@.contains_key(k) ==> call_ensures(R::default, (), r))
                &&& (self.current()@.contains_key(k) ==> (exists|x: &T| f.ensures((x,), r))
                    || call_ensures(R::default, (), r))
            },
    {
        let r = self.data.map_or_default(f);
        let ghost k = choose|k: TypeId| {
            &&& (!self.data@.contains_key(k) ==> call_ensures(R::default, (), r))
            &&& (self.data@.contains_key(k) ==> (exists|x: &T| f.ensures((x,), r)) || call_ensures(
                R::default,
                (),
                r,
            ))
        };
        assert(self.current()@.contains_key(k) == self.data@.contains_key(k));
        r
    }

    /// `f` applied to the value of type `T`, or `e()`.
    pub fn map_or_else<T: PropsData, R, F: Fn(&T) -> R, E: Fn() -> R>(&self, f: F, e: E) -> (r: R)
        requires
            forall|x: &T| f.requires((x,)),
            e.requires(()),
        ensures
            (exists|x: &T| f.ensures((x,), r)) || e.ensures((), r),
    {
        self.data.map_or_else(f, e)
    }

    /// A copy of the value of type `T`.
    pub fn read_cloned<T: PropsData>(&self) -> (r: Result<T, StateError>)
        ensures
            exists|k: TypeId| {
                &&& (r is Ok ==> self.current()@.contains_key(k))
                &&& (r matches Err(StateError::Props(PropsError::HasNoDataOfType(_)))
                    <==> !self.current()@.contains_key(k))
            },
    {
        let res = self.data.read_cloned::<T>();
        let ghost k = choose|k: TypeId| {
            &&& (res is Ok ==> self.data@.contains_key(k))
            &&& (res matches Err(PropsError::HasNoDataOfType(_)) <==> !self.data@.contains_key(k))
        };
        let r = match res {
            Ok(v) => Ok(v),
            Err(e) => Err(StateError::Props(e)),
        };
        assert(r matches Err(StateError::Props(PropsError::HasNoDataOfType(_))) <==> !self.current()@.contains_key(k));
        r
    }

    /// A copy of the value of type `T`, or `T::default()`.
    pub fn read_cloned_or_default<T: PropsData + Default>(&self) -> (r: T)
        ensures
            exists|k: TypeId| {
                &&& (!self.current()@.contains_key(k) ==> call_ensures(T::default, (), r))
                &&& (self.current()@.contains_key(k) ==> (exists|x: &T| call_ensures(T::clone, (x,), r))
                    || call_ensures(T::default, (), r))
            },
    {
        let r = self.data.read_cloned_or_default();
        let ghost k = choose|k: TypeId| {
            &&& (!self.data@.contains_key(k) ==> call_ensures(T::default, (), r))
            &&& (self.data@.contains_key(k) ==> (exists|x: &T| call_ensures(T::clone, (x,), r))
                || call_ensures(T::default, (), r))
        };
        assert(self.current()@.contains_key(k) == self.data@.contains_key(k));
        r
    }

    /// A copy of the value of type `T`, or `f()`.
    pub fn read_cloned_or_else<T: PropsData + Default, F: Fn() -> T>(&self, f: F) -> (r: T)
        requires
            f.requires(()),
        ensures
            exists|k: TypeId| {
                &&& (!self.current()@.contains_key(k) ==> f.ensures((), r))
                &&& (self.current()@.contains_key(k) ==> (exists|x: &T| call_ensures(T::clone, (x,), r))
                    || f.ensures((), r))
            },
    {
        let r = self.data.read_cloned_or_else(f);
        let ghost k = choose|k: TypeId| {
            &&& (!self.data@.contains_key(k) ==> f.ensures((), r))
            &&& (self.data@.contains_key(k) ==> (exists|x: &T| call_ensures(T::clone, (x,), r))
                || f.ensures((), r))
        };
        assert(self.current()@.contains_key(k) == self.data@.contains_key(k));
        r
    }

    /// Sends a bag holding only `data` as the next state.
    pub fn write<T: PropsData>(&self, data: T) -> (r: Result<(), StateError>)
        ensures
            r is Err ==> r == Err::<(), StateError>(StateError::CouldNotWriteData),
    {
        self.update.write(Props::new(data))
    }

    /// Sends the current bag with `data` stored as the next state.
    pub fn write_with<T: PropsData>(&self, data: T) -> (r: Result<(), StateError>)
        ensures
            r is Err ==> r == Err::<(), StateError>(StateError::CouldNotWriteData),
    {
        self.update.write(self.data.clone().with(data))
    }

    /// Sends the current bag without the value of type `T` as the next state.
    pub fn write_without<T: PropsData>(&self) -> (r: Result<(), StateError>)
        ensures
            r is Err ==> r == Err::<(), StateError>(StateError::CouldNotWriteData),
    {
        self.update.write(self.data.clone().without::<T>())
    }

    /// Sends `f` of the value of type `T` as the next state; fails when
    /// there is no such value.
    pub fn mutate<T: PropsData, F: Fn(&T) -> T>(&self, f: F) -> (r: Result<(), StateError>)
        requires
            forall|x: &T| f.requires((x,)),
        ensures
            exists|k: TypeId| {
                &&& (r is Ok ==> self.current()@.contains_key(k))
                &&& (r matches Err(StateError::Props(PropsError::HasNoDataOfType(_)))
                    <==> !self.current()@.contains_key(k))
            },
    {
        let res = self.read::<T>();
        let ghost k = choose|k: TypeId| {
            &&& (res is Ok ==> self.current()@.contains_key(k))
            &&& (res matches Err(StateError::Props(PropsError::HasNoDataOfType(_)))
                <==> !self.current()@.contains_key(k))
        };
        let r = match res {
            Ok(data) => {
                let data = f(data);
                self.write(data)
            },
            Err(error) => Err(error),
        };
        assert(r matches Err(StateError::Props(PropsError::HasNoDataOfType(_))) <==> !self.current()@.contains_key(k));
        r
    }

    /// Sends a copy of the value of type `T`, changed by `f`, as the next
    /// state; fails when there is no such value.
    pub fn mutate_cloned<T: PropsData, F: Fn(&mut T)>(&self, f: F) -> (r: Result<(), StateError>)
        requires
            forall|x: &mut T| f.requires((x,)),
        ensures
            exists|k: TypeId| {
                &&& (r is Ok ==> self.current()@.contains_key(k))
                &&& (r matches Err(StateError::Props(PropsError::HasNoDataOfType(_)))
                    <==> !self.current()@.contains_key(k))
            },
    {
        let res = self.read::<T>();
        let ghost k = choose|k: TypeId| {
            &&& (res is Ok ==> self.current()@.contains_key(k))
            &&& (res matches Err(StateError::Props(PropsError::HasNoDataOfType(_)))
                <==> !self.current()@.contains_key(k))
        };
        let r = match res {
            Ok(data) => {
                let mut data = data.clone();
                f(&mut data);
                self.write(data)
            },
            Err(error) => Err(error),
        };
        assert(r matches Err(StateError::Props(PropsError::HasNoDataOfType(_))) <==> !self.current()@.contains_key(k));
        r
    }

    /// The updater.
    pub fn update(&self) -> (r: &StateUpdate)
        ensures
            *r == self.updater(),
    {
        &self.update
    }
}

} // verus!
