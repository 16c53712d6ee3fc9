//! Property bags: at most one value of each type, looked up by type.
//!
//! The bag is a map from a type's `TypeId` to a boxed value. The map logic
//! works on the keys and is exact; the typed methods find the key of a type
//! with `TypeId::of` and turn a stored value back into its type with `Any`.

use std::any::{Any, TypeId};
use vstd::prelude::*;

verus! {

#[verifier::external_type_specification]
#[verifier::external_body]
pub struct ExTypeId(TypeId);

/// A value of some property type, boxed with what is needed to copy it and
/// to read it back as its own type.
///
/// Verus cannot take `dyn Any` (it has no model of `core::any::Any`), so the
/// boxed value is hidden in this type and reached only through the trusted
/// functions below.
#[verifier::external_body]
pub struct PropsValue {
    value: Box<dyn Any + Send + Sync>,
    copy: std::sync::Arc<dyn Fn(&(dyn Any + Send + Sync)) -> PropsValue + Send + Sync>,
}

impl PropsValue {
    /// Boxes `data` (`Box::new`, then unsizing to `dyn Any`).
    ///
    /// Nothing is claimed of the result: a boxed value has no spec relation
    /// to the value it was made from.
    #[verifier::external_body]
    pub fn new<T: PropsData>(data: T) -> PropsValue {
        PropsValue {
            value: Box::new(data),
            copy: std::sync::Arc::new(|v| PropsValue::new(v.downcast_ref::<T>().unwrap().clone())),
        }
    }

    /// A boxed copy of the value (`Clone::clone` of the value's own type).
    ///
    /// Nothing is claimed of the result.
    #[verifier::external_body]
    pub fn duplicate(&self) -> PropsValue {
        (self.copy)(&*self.value)
    }

    /// The value as a `T` (`Any::downcast_ref`); `None` when it holds another type.
    ///
    /// Nothing is claimed of the result.
    #[verifier::external_body]
    pub fn downcast_ref<T: 'static>(&self) -> Option<&T> {
        self.value.downcast_ref::<T>()
    }
}

impl Clone for PropsValue {
    fn clone(&self) -> Self {
        self.duplicate()
    }
}

/// A type whose values can be stored in [`Props`].
pub trait PropsData: Clone + Send + Sync + 'static {

}

/// The `TypeId` of `T` (`TypeId::of`).
///
/// Nothing is claimed of the result: it is a function of the type alone,
/// which a contract here could only say with a generic name.
#[verifier::external_body]
pub(crate) fn props_key_of<T: 'static>() -> (r: TypeId) {
    TypeId::of::<T>()
}

/// Compares two type keys (`TypeId == TypeId`).
#[verifier::external_body]
pub(crate) fn same_key(a: &TypeId, b: &TypeId) -> (r: bool)
    ensures
        r == (*a == *b),
{
    *a == *b
}

/// A debug rendering of a type key (`Debug` for `TypeId`), used to name a
/// missing type.
///
/// Nothing is claimed of the result: std documents the rendering as
/// unspecified.
#[verifier::external_body]
fn key_text(k: &TypeId) -> String {
    format!("{:?}", k)
}

impl PropsData for i8 {

}

impl PropsData for i16 {

}

impl PropsData for i32 {

}

impl PropsData for i64 {

}

impl PropsData for i128 {

}

impl PropsData for u8 {

}

impl PropsData for u16 {

}

impl PropsData for u32 {

}

impl PropsData for u64 {

}

impl PropsData for u128 {

}

impl PropsData for bool {

}

impl PropsData for String {

}

/// Why a property could not be read.
#[derive(Debug, Clone)]
pub enum PropsError {
    CouldNotReadData,
    HasNoDataOfType(String),
}

/// The map that a sequence of entries stands for; later entries win.
pub open spec fn entries_map(s: Seq<(TypeId, PropsValue)>) -> Map<TypeId, PropsValue>
    decreases s.len(),
{
    if s.len() == 0 {
        Map::empty()
    } else {
        entries_map(s.drop_last()).insert(s.last().0, s.last().1)
    }
}

/// No key occurs twice.
pub open spec fn distinct_keys(s: Seq<(TypeId, PropsValue)>) -> bool {
    forall|i: int, j: int| 0 <= i < j < s.len() ==> (#[trigger] s[i]).0 != (#[trigger] s[j]).0
}

/// With distinct keys, the map holds exactly the entries.
pub proof fn lemma_entries_map(s: Seq<(TypeId, PropsValue)>)
    requires
        distinct_keys(s),
    ensures
        forall|k: TypeId|
            entries_map(s).contains_key(k) <==> exists|i: int| 0 <= i < s.len() && (#[trigger] s[i]).0 == k,
        forall|i: int| 0 <= i < s.len() ==> entries_map(s)[(#[trigger] s[i]).0] == s[i].1,
        entries_map(s).dom().finite(),
        entries_map(s).dom().len() == s.len(),
    decreases s.len(),
{
    if s.len() > 0 {
        let p = s.drop_last();
        assert(distinct_keys(p)) by {
            assert forall|i: int, j: int| 0 <= i < j < p.len() implies (#[trigger] p[i]).0
                != (#[trigger] p[j]).0 by {
                assert(p[i] == s[i] && p[j] == s[j]);
            }
        }
        lemma_entries_map(p);
        assert forall|k: TypeId|
            entries_map(s).contains_key(k) <==> exists|i: int| 0 <= i < s.len() && (#[trigger] s[i]).0 == k by {
            if entries_map(s).contains_key(k) && k != s.last().0 {
                let i = choose|i: int| 0 <= i < p.len() && (#[trigger] p[i]).0 == k;
                assert(s[i] == p[i]);
            }
            if exists|i: int| 0 <= i < s.len() && (#[trigger] s[i]).0 == k {
                let i = choose|i: int| 0 <= i < s.len() && (#[trigger] s[i]).0 == k;
                if i < s.len() - 1 {
                    assert(p[i] == s[i]);
                }
            }
        }
        assert forall|i: int| 0 <= i < s.len() implies entries_map(s)[(#[trigger] s[i]).0] == s[i].1 by {
            if i < s.len() - 1 {
                assert(p[i] == s[i]);
                assert(s[i].0 != s[s.len() - 1].0);
            }
        }
        assert(!entries_map(p).contains_key(s.last().0)) by {
            if entries_map(p).contains_key(s.last().0) {
                let i = choose|i: int| 0 <= i < p.len() && (#[trigger] p[i]).0 == s.last().0;
                assert(p[i] == s[i]);
            }
        }
    }
}

/// A bag of properties: at most one value per type.
pub struct Props {
    entries: Vec<(TypeId, PropsValue)>,
}

impl View for Props {
    type V = Map<TypeId, PropsValue>;

    closed spec fn view(&self) -> Map<TypeId, PropsValue> {
        entries_map(self.entries@)
    }
}

impl Clone for Props {
    fn clone(&self) -> (r: Self)
        ensures
            r@.dom() == self@.dom(),
    {
        self.duplicate()
    }
}

impl Default for Props {
    /// The empty bag.
    fn default() -> (r: Self)
        ensures
            r@ == Map::<TypeId, PropsValue>::empty(),
    {
        Props { entries: Vec::new() }
    }
}

impl Props {
    /// Each key occurs at most once.
    #[verifier::type_invariant]
    closed spec fn wf(&self) -> bool {
        distinct_keys(self.entries@)
    }

    /// Position of `key`, if present.
    fn find_key(&self, key: &TypeId) -> (r: Option<usize>)
        ensures
            match r {
                Some(i) => i < self.entries@.len() && self.entries@[i as int].0 == *key,
                None => forall|i: int| 0 <= i < self.entries@.len() ==> (#[trigger] self.entries@[i]).0 != *key,
            },
    {
        let mut i: usize = 0;
        while i < self.entries.len()
            invariant
                i <= self.entries@.len(),
                forall|j: int| 0 <= j < i ==> (#[trigger] self.entries@[j]).0 != *key,
            decreases self.entries@.len() - i,
        {
            if same_key(&self.entries[i].0, key) {
                return Some(i);
            }
            i = i + 1;
        }
        None
    }

    /// Whether a value is stored under `key`.
    pub fn has_key(&self, key: &TypeId) -> (r: bool)
        ensures
            r == self@.contains_key(*key),
    {
        proof {
            use_type_invariant(self);
            lemma_entries_map(self.entries@);
        }
        self.find_key(key).is_some()
    }

    /// The value stored under `key`, if any.
    pub fn read_key(&self, key: &TypeId) -> (r: Option<&PropsValue>)
        ensures
            match r {
                Some(v) => self@.contains_key(*key) && *v == self@[*key],
                None => !self@.contains_key(*key),
            },
    {
        proof {
            use_type_invariant(self);
            lemma_entries_map(self.entries@);
        }
        match self.find_key(key) {
            Some(i) => Some(&self.entries[i].1),
            None => None,
        }
    }

    /// Stores `value` under `key`, replacing what was there.
    pub fn write_key(&mut self, key: TypeId, value: PropsValue)
        ensures
            final(self)@ == old(self)@.insert(key, value),
    {
        proof {
            use_type_invariant(&*self);
            lemma_entries_map(self.entries@);
        }
        let ghost olds = self.entries@;
        match self.find_key(&key) {
            Some(i) => {
                let mut entries = Vec::new();
                std::mem::swap(&mut entries, &mut self.entries);
                entries.set(i, (key, value));
                proof {
                    let s = entries@;
                    assert(distinct_keys(s)) by {
                        assert forall|a: int, b: int| 0 <= a < b < s.len() implies (#[trigger] s[a]).0
                            != (#[trigger] s[b]).0 by {
                            assert(olds[a].0 != olds[b].0);
                        }
                    }
                    lemma_entries_map(s);
                    assert(entries_map(s) =~= entries_map(olds).insert(key, value)) by {
                        assert forall|k: TypeId| #[trigger] entries_map(s).contains_key(k)
                            == entries_map(olds).insert(key, value).contains_key(k) by {
                            if k == key {
                                assert(s[i as int].0 == key);
                            }
                            if k != key && entries_map(olds).contains_key(k) {
                                let j = choose|j: int| 0 <= j < olds.len() && (#[trigger] olds[j]).0 == k;
                                assert(s[j] == olds[j]);
                            }
                            if entries_map(s).contains_key(k) && k != key {
                                let j = choose|j: int| 0 <= j < s.len() && (#[trigger] s[j]).0 == k;
                                assert(s[j] == olds[j]);
                            }
                        }
                        assert forall|k: TypeId| #[trigger] entries_map(s).contains_key(k) implies
                            entries_map(s)[k] == entries_map(olds).insert(key, value)[k] by {
                            let j = choose|j: int| 0 <= j < s.len() && (#[trigger] s[j]).0 == k;
                            if j != i {
                                assert(s[j] == olds[j]);
                            }
                        }
                    }
                }
                self.entries = entries;
            },
            None => {
                let mut entries = Vec::new();
                std::mem::swap(&mut entries, &mut self.entries);
                entries.push((key, value));
                proof {
                    let s = entries@;
                    assert(s.drop_last() =~= olds);
                    assert(distinct_keys(s)) by {
                        assert forall|a: int, b: int| 0 <= a < b < s.len() implies (#[trigger] s[a]).0
                            != (#[trigger] s[b]).0 by {
                            if b < s.len() - 1 {
                                assert(olds[a].0 != olds[b].0);
                            } else {
                                assert(olds[a] == s[a]);
                            }
                        }
                    }
                }
                self.entries = entries;
            },
        }
    }

    /// Takes the value stored under `key` out of the bag.
    pub fn remove_key(&mut self, key: &TypeId) -> (r: Option<PropsValue>)
        ensures
            final(self)@ == old(self)@.remove(*key),
            match r {
                Some(v) => old(self)@.contains_key(*key) && v == old(self)@[*key],
                None => !old(self)@.contains_key(*key),
            },
    {
        proof {
            use_type_invariant(&*self);
            lemma_entries_map(self.entries@);
        }
        let ghost olds = self.entries@;
        match self.find_key(key) {
            Some(i) => {
                let mut entries = Vec::new();
                std::mem::swap(&mut entries, &mut self.entries);
                let (_, v) = entries.remove(i);
                proof {
                    let s = entries@;
                    assert(s =~= olds.remove(i as int));
                    assert(distinct_keys(s)) by {
                        assert forall|a: int, b: int| 0 <= a < b < s.len() implies (#[trigger] s[a]).0
                            != (#[trigger] s[b]).0 by {
                            let a2 = if a < i { a } else { a + 1 };
                            let b2 = if b < i { b } else { b + 1 };
                            assert(s[a] == olds[a2] && s[b] == olds[b2]);
                            assert(olds[a2].0 != olds[b2].0);
                        }
                    }
                    lemma_entries_map(s);
                    assert(entries_map(s) =~= entries_map(olds).remove(*key)) by {
                        assert forall|k: TypeId| #[trigger] entries_map(s).contains_key(k)
                            == entries_map(olds).remove(*key).contains_key(k) by {
                            if entries_map(olds).contains_key(k) && k != *key {
                                let j = choose|j: int| 0 <= j < olds.len() && (#[trigger] olds[j]).0 == k;
                                let j2 = if j < i { j } else { j - 1 };
                                assert(s[j2] == olds[j]);
                            }
                            if entries_map(s).contains_key(k) {
                                let j = choose|j: int| 0 <= j < s.len() && (#[trigger] s[j]).0 == k;
                                let j2 = if j < i { j } else { j + 1 };
                                assert(s[j] == olds[j2]);
                                assert(olds[j2].0 != olds[i as int].0);
                            }
                        }
                        assert forall|k: TypeId| #[trigger] entries_map(s).contains_key(k) implies
                            entries_map(s)[k] == entries_map(olds).remove(*key)[k] by {
                            let j = choose|j: int| 0 <= j < s.len() && (#[trigger] s[j]).0 == k;
                            let j2 = if j < i { j } else { j + 1 };
                            assert(s[j] == olds[j2]);
                        }
                    }
                }
                self.entries = entries;
                Some(v)
            },
            None => {
                proof {
                    assert(entries_map(olds).remove(*key) =~= entries_map(olds));
                }
                None
            },
        }
    }

    /// Moves every entry of `other` into this bag; `other`'s values win.
    pub fn merge_from(&mut self, other: Self)
        ensures
            final(self)@ == old(self)@.union_prefer_right(other@),
    {
        let Props { entries: mut rest } = other;
        let ghost s = rest@;
        let ghost start = self@;
        let mut j: usize = 0;
        let total = rest.len();
        proof {
            assert(s.take(0) =~= Seq::<(TypeId, PropsValue)>::empty());
            assert(start.union_prefer_right(entries_map(s.take(0))) =~= start);
            assert(s.skip(0) =~= s);
        }
        while rest.len() > 0
            invariant
                j <= s.len(),
                j + rest@.len() == s.len(),
                s.len() == total,
                rest@ == s.skip(j as int),
                self@ == start.union_prefer_right(entries_map(s.take(j as int))),
            decreases rest@.len(),
        {
            let (k, v) = rest.remove(0);
            proof {
                assert(s[j as int] == (k, v));
                assert(rest@ =~= s.skip(j as int + 1));
                assert(s.take(j as int + 1).drop_last() =~= s.take(j as int));
            }
            self.write_key(k, v);
            proof {
                assert(self@ =~= start.union_prefer_right(entries_map(s.take(j as int + 1))));
            }
            j = j + 1;
        }
        proof {
            assert(s.take(j as int) =~= s);
        }
    }

    /// The two bags together; `other`'s values win.
    pub fn merge(self, other: Self) -> (r: Self)
        ensures
            r@ == self@.union_prefer_right(other@),
    {
        let mut result = self;
        result.merge_from(other);
        result
    }

    /// The entries of the bag, each key once.
    pub(crate) fn into_inner(self) -> (r: Vec<(TypeId, PropsValue)>)
        ensures
            entries_map(r@) == self@,
            distinct_keys(r@),
    {
        proof {
            use_type_invariant(&self);
        }
        let Props { entries } = self;
        entries
    }

    /// A copy of the bag: the same types, each value copied.
    pub fn duplicate(&self) -> (r: Self)
        ensures
            r@.dom() == self@.dom(),
    {
        proof {
            use_type_invariant(self);
        }
        let mut entries: Vec<(TypeId, PropsValue)> = Vec::new();
        let mut i: usize = 0;
        while i < self.entries.len()
            invariant
                i <= self.entries@.len(),
                distinct_keys(self.entries@),
                entries@.len() == i,
                forall|j: int| 0 <= j < i ==> (#[trigger] entries@[j]).0 == self.entries@[j].0,
            decreases self.entries@.len() - i,
        {
            let k = self.entries[i].0;
            let v = self.entries[i].1.duplicate();
            entries.push((k, v));
            i = i + 1;
        }
        proof {
            let s = entries@;
            assert(distinct_keys(s)) by {
                assert forall|a: int, b: int| 0 <= a < b < s.len() implies (#[trigger] s[a]).0
                    != (#[trigger] s[b]).0 by {
                    assert(self.entries@[a].0 != self.entries@[b].0);
                }
            }
            lemma_entries_map(s);
            lemma_entries_map(self.entries@);
            assert forall|k: TypeId| #[trigger] entries_map(s).contains_key(k) == entries_map(self.entries@).contains_key(k) by {
                if entries_map(s).contains_key(k) {
                    let j = choose|j: int| 0 <= j < s.len() && (#[trigger] s[j]).0 == k;
                    assert(self.entries@[j].0 == k);
                }
                if entries_map(self.entries@).contains_key(k) {
                    let j = choose|j: int| 0 <= j < self.entries@.len() && (#[trigger] self.entries@[j]).0 == k;
                    assert(s[j].0 == k);
                }
            }
            assert(entries_map(s).dom() =~= entries_map(self.entries@).dom());
        }
        Props { entries }
    }

    /// A bag holding `data`.
    pub fn new<T: PropsData>(data: T) -> (r: Self)
        ensures
            exists|k: TypeId, v: PropsValue| r@ == Map::<TypeId, PropsValue>::empty().insert(k, v),
    {
        let mut r = Props::default();
        r.write(data);
        r
    }

    /// Whether a value of type `T` is stored.
    pub fn has<T: PropsData>(&self) -> (r: bool)
        ensures
            exists|k: TypeId| r == self@.contains_key(k),
            r ==> self@.dom().len() > 0,
    {
        proof {
            use_type_invariant(self);
            lemma_entries_map(self.entries@);
        }
        let key = props_key_of::<T>();
        let r = self.has_key(&key);
        proof {
            if r {
                let i = choose|i: int| 0 <= i < self.entries@.len() && (#[trigger] self.entries@[i]).0 == key;
            }
        }
        r
    }

    /// Takes the value of type `T` out of the bag.
    pub fn consume<T: PropsData>(&mut self) -> (r: Result<PropsValue, PropsError>)
        ensures
            exists|k: TypeId| {
                &&& final(self)@ == old(self)@.remove(k)
                &&& (r is Ok <==> old(self)@.contains_key(k))
                &&& (r matches Ok(v) ==> v == old(self)@[k])
            },
    {
        let key = props_key_of::<T>();
        match self.remove_key(&key) {
            Some(v) => Ok(v),
            None => Err(PropsError::HasNoDataOfType(key_text(&key))),
        }
    }

    /// The value stored under `key`, as a `T`.
    fn read_as<T: PropsData>(&self, key: &TypeId) -> (r: Result<&T, PropsError>)
        ensures
            r is Ok ==> self@.contains_key(*key),
            r matches Err(PropsError::HasNoDataOfType(_)) <==> !self@.contains_key(*key),
    {
        match self.read_key(key) {
            Some(v) => match v.downcast_ref::<T>() {
                Some(data) => Ok(data),
                None => Err(PropsError::CouldNotReadData),
            },
            None => Err(PropsError::HasNoDataOfType(key_text(key))),
        }
    }

    /// The value of type `T`.
    pub fn read<T: PropsData>(&self) -> (r: Result<&T, PropsError>)
        ensures
            exists|k: TypeId| {
                &&& (r is Ok ==> self@.contains_key(k))
                &&& (r matches Err(PropsError::HasNoDataOfType(_)) <==> !self@.contains_key(k))
            },
    {
        let key = props_key_of::<T>();
        self.read_as::<T>(&key)
    }

    /// `f` applied to the value of type `T`, or `R::default()`.
    pub fn map_or_default<T: PropsData, R: Default, F: Fn(&T) -> R>(&self, f: F) -> (r: R)
        requires
            forall|x: &T| f.requires((x,)),
        ensures
            exists|k: TypeId| {
                &&& (!self@.contains_key(k) ==> call_ensures(R::default, (), r))
                &&& (self@.contains_key(k) ==> (exists|x: &T| f.ensures((x,), r)) || call_ensures(
                    R::default,
                    (),
                    r,
                ))
            },
    {
        let res = self.read::<T>();
        let ghost k = choose|k: TypeId| {
            &&& (res is Ok ==> self@.contains_key(k))
            &&& (res matches Err(PropsError::HasNoDataOfType(_)) <==> !self@.contains_key(k))
        };
        match res {
            Ok(data) => f(data),
            Err(_) => R::default(),
        }
    }

    /// `f` applied to the value of type `T`, or `e()`.
    pub fn map_or_else<T: PropsData, R, F: Fn(&T) -> R, E: Fn() -> R>(&self, f: F, e: E) -> (r: R)
        requires
            forall|x: &T| f.requires((x,)),
            e.requires(()),
        ensures
            (exists|x: &T| f.ensures((x,), r)) || e.ensures((), r),
    {
        match self.read::<T>() {
            Ok(data) => f(data),
            Err(_) => e(),
        }
    }

    /// A copy of the value of type `T`.
    pub fn read_cloned<T: PropsData + Clone>(&self) -> (r: Result<T, PropsError>)
        ensures
            exists|k: TypeId| {
                &&& (r is Ok ==> self@.contains_key(k))
                &&& (r matches Err(PropsError::HasNoDataOfType(_)) <==> !self@.contains_key(k))
            },
            r matches Ok(v) ==> exists|x: &T| call_ensures(T::clone, (x,), v),
    {
        match self.read::<T>() {
            Ok(v) => {
                let c = v.clone();
                assert(call_ensures(T::clone, (v,), c));
                assert(exists|x: &T| call_ensures(T::clone, (x,), c));
                let r: Result<T, PropsError> = Ok(c);
                assert(r->Ok_0 == c);
                assert(exists|x: &T| call_ensures(T::clone, (x,), r->Ok_0));
                r
            },
            Err(e) => Err(e),
        }
    }

    /// A copy of the value of type `T`, or `T::default()`.
    pub fn read_cloned_or_default<T: PropsData + Clone + Default>(&self) -> (r: T)
        ensures
            exists|k: TypeId| {
                &&& (!self@.contains_key(k) ==> call_ensures(T::default, (), r))
                &&& (self@.contains_key(k) ==> (exists|x: &T| call_ensures(T::clone, (x,), r)) || call_ensures(
                    T::default,
                    (),
                    r,
                ))
            },
    {
        let res = self.read_cloned::<T>();
        let ghost k = choose|k: TypeId| {
            &&& (res is Ok ==> self@.contains_key(k))
            &&& (res matches Err(PropsError::HasNoDataOfType(_)) <==> !self@.contains_key(k))
        };
        match res {
            Ok(v) => v,
            Err(_) => T::default(),
        }
    }

    /// A copy of the value of type `T`, or `f()`.
    pub fn read_cloned_or_else<T: PropsData + Clone + Default, F: Fn() -> T>(&self, f: F) -> (r: T)
        requires
            f.requires(()),
        ensures
            exists|k: TypeId| {
                &&& (!self@.contains_key(k) ==> f.ensures((), r))
                &&& (self@.contains_key(k) ==> (exists|x: &T| call_ensures(T::clone, (x,), r)) || f.ensures(
                    (),
                    r,
                ))
            },
    {
        let res = self.read_cloned::<T>();
        let ghost k = choose|k: TypeId| {
            &&& (res is Ok ==> self@.contains_key(k))
            &&& (res matches Err(PropsError::HasNoDataOfType(_)) <==> !self@.contains_key(k))
        };
        match res {
            Ok(v) => v,
            Err(_) => f(),
        }
    }

    /// Stores `data`, replacing any value of its type.
    pub fn write<T: PropsData>(&mut self, data: T)
        ensures
            exists|k: TypeId, v: PropsValue| final(self)@ == old(self)@.insert(k, v),
    {
        let key = props_key_of::<T>();
        let value = PropsValue::new(data);
        self.write_key(key, value);
    }

    /// Replaces the value of type `T` with `f` of it; nothing when absent.
    pub fn mutate<T: PropsData, F: Fn(&T) -> T>(&mut self, f: F)
        requires
            forall|x: &T| f.requires((x,)),
        ensures
            exists|k: TypeId| {
                ||| final(self)@ == old(self)@
                ||| old(self)@.contains_key(k) && exists|v: PropsValue| final(self)@ == old(self)@.insert(k, v)
            },
    {
        let key = props_key_of::<T>();
        let next = match self.read_as::<T>(&key) {
            Ok(data) => Some(f(data)),
            Err(_) => None,
        };
        match next {
            Some(data) => {
                let value = PropsValue::new(data);
                self.write_key(key, value);
            },
            None => {},
        }
    }

    /// Replaces the value of type `T` with a copy changed by `f`; nothing when absent.
    pub fn mutate_cloned<T: PropsData + Clone, F: Fn(&mut T)>(&mut self, f: F)
        requires
            forall|x: &mut T| f.requires((x,)),
        ensures
            exists|k: TypeId| {
                ||| final(self)@ == old(self)@
                ||| old(self)@.contains_key(k) && exists|v: PropsValue| final(self)@ == old(self)@.insert(k, v)
            },
    {
        let key = props_key_of::<T>();
        let next = match self.read_as::<T>(&key) {
            Ok(data) => {
                let mut copy = data.clone();
                f(&mut copy);
                Some(copy)
            },
            Err(_) => None,
        };
        match next {
            Some(data) => {
                let value = PropsValue::new(data);
                self.write_key(key, value);
            },
            None => {},
        }
    }

    /// Replaces the value of type `T` with `f` of it, or stores `w()` when absent.
    pub fn mutate_or_write<T: PropsData, F: Fn(&T) -> T, W: Fn() -> T>(&mut self, f: F, w: W)
        requires
            forall|x: &T| f.requires((x,)),
            w.requires(()),
        ensures
            exists|k: TypeId, v: PropsValue| final(self)@ == old(self)@.insert(k, v),
    {
        let key = props_key_of::<T>();
        let data = match self.read_as::<T>(&key) {
            Ok(data) => f(data),
            Err(_) => w(),
        };
        let value = PropsValue::new(data);
        self.write_key(key, value);
    }

    /// This bag with `data` stored.
    pub fn with<T: PropsData>(self, data: T) -> (r: Self)
        ensures
            exists|k: TypeId, v: PropsValue| r@ == self@.insert(k, v),
    {
        let mut r = self;
        r.write(data);
        r
    }

    /// This bag without the value of type `T`.
    pub fn without<T: PropsData>(self) -> (r: Self)
        ensures
            exists|k: TypeId| r@ == self@.remove(k),
    {
        let mut r = self;
        let key = props_key_of::<T>();
        let _ = r.remove_key(&key);
        r
    }
}

/// Law: reading a key just written gives the value written, and every other
/// key reads as before.
pub proof fn law_read_after_write(m: Map<TypeId, PropsValue>, k: TypeId, v: PropsValue, j: TypeId)
    ensures
        m.insert(k, v).contains_key(k),
        m.insert(k, v)[k] == v,
        j != k ==> m.insert(k, v).contains_key(j) == m.contains_key(j),
        j != k && m.contains_key(j) ==> m.insert(k, v)[j] == m[j],
{
}

/// Law: writing a key twice keeps only the second value.
pub proof fn law_write_twice(m: Map<TypeId, PropsValue>, k: TypeId, v: PropsValue, w: PropsValue)
    ensures
        m.insert(k, v).insert(k, w) == m.insert(k, w),
{
    assert(m.insert(k, v).insert(k, w) =~= m.insert(k, w));
}

/// Law: a removed key is absent, and removing a key just written where it
/// was absent gives back the bag as it was.
pub proof fn law_remove_undoes_write(m: Map<TypeId, PropsValue>, k: TypeId, v: PropsValue)
    ensures
        !m.remove(k).contains_key(k),
        !m.contains_key(k) ==> m.insert(k, v).remove(k) == m,
{
    if !m.contains_key(k) {
        assert(m.insert(k, v).remove(k) =~= m);
    }
}

/// Law: a merge holds every key of both bags, with the second bag's value
/// where both have one.
pub proof fn law_merge_prefers_right(a: Map<TypeId, PropsValue>, b: Map<TypeId, PropsValue>, k: TypeId)
    ensures
        a.union_prefer_right(b).contains_key(k) == (a.contains_key(k) || b.contains_key(k)),
        b.contains_key(k) ==> a.union_prefer_right(b)[k] == b[k],
        a.contains_key(k) && !b.contains_key(k) ==> a.union_prefer_right(b)[k] == a[k],
{
}

} // verus!
