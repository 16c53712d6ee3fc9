//! The common root of a set of widget identifiers: the longest run of
//! leading path parts that the identifiers included so far agree on.

use vstd::prelude::*;

use crate::widget_id::{WidgetId, WidgetIdView};

verus! {

/// The abstract value of a [`WidgetIdCommon`]: the first identifier
/// included (whose parts spell the root) and how many of its parts are shared.
pub struct WidgetIdCommonView {
    pub id: Option<WidgetIdView>,
    pub count: nat,
}

/// Index of the first of the first `m` parts where `a` and `b` differ, or `m`.
pub open spec fn first_mismatch(a: Seq<Seq<char>>, b: Seq<Seq<char>>, m: int) -> int
    decreases m,
{
    if m <= 0 {
        0
    } else {
        let k = first_mismatch(a, b, m - 1);
        if k < m - 1 {
            k
        } else if a[m - 1] != b[m - 1] {
            m - 1
        } else {
            m
        }
    }
}

pub proof fn lemma_first_mismatch(a: Seq<Seq<char>>, b: Seq<Seq<char>>, m: int)
    requires
        m >= 0,
    ensures
        0 <= first_mismatch(a, b, m) <= m,
        forall|i: int| 0 <= i < first_mismatch(a, b, m) ==> a[i] == b[i],
        first_mismatch(a, b, m) < m ==> a[first_mismatch(a, b, m)] != b[first_mismatch(a, b, m)],
    decreases m,
{
    if m > 0 {
        lemma_first_mismatch(a, b, m - 1);
    }
}

/// The count after taking in an identifier with parts `other` that is known
/// to share at most `other_count` leading parts.
pub open spec fn narrowed_count(source: Seq<Seq<char>>, count: nat, other: Seq<Seq<char>>, other_count: nat) -> nat {
    let m = if count < other_count { count as int } else { other_count as int };
    let k = first_mismatch(source, other, m);
    if k < m { k as nat } else { count }
}

impl WidgetIdCommonView {
    /// The view after including the identifier `id`.
    pub open spec fn include_id(self, id: WidgetIdView) -> WidgetIdCommonView {
        match self.id {
            None => WidgetIdCommonView { id: Some(id), count: id.parts.len() },
            Some(source) => WidgetIdCommonView {
                id: Some(source),
                count: narrowed_count(source.parts, self.count, id.parts, id.parts.len()),
            },
        }
    }

    /// The view after including another common root.
    pub open spec fn include_other(self, other: WidgetIdCommonView) -> WidgetIdCommonView {
        match other.id {
            None => self,
            Some(oid) => match self.id {
                None => WidgetIdCommonView { id: Some(oid), count: other.count },
                Some(source) => WidgetIdCommonView {
                    id: Some(source),
                    count: narrowed_count(source.parts, self.count, oid.parts, other.count),
                },
            },
        }
    }

    /// The text `WidgetIdCommon::path` returns.
    pub open spec fn path(self) -> Option<Seq<char>> {
        match self.id {
            None => None,
            Some(id) => {
                let p = id.range_text(0, self.count as int);
                if p.len() == 0 {
                    None
                } else {
                    Some(p)
                }
            },
        }
    }
}

/// The view of the common root of `ids`, included in order.
pub open spec fn common_of(ids: Seq<WidgetIdView>) -> WidgetIdCommonView
    decreases ids.len(),
{
    if ids.len() == 0 {
        WidgetIdCommonView { id: None, count: usize::MAX as nat }
    } else {
        common_of(ids.drop_last()).include_id(ids.last())
    }
}

/// Law: the common root is spelled by the first identifier included, and
/// every identifier included agrees with it on the shared leading parts (as
/// far as that identifier is deep); the shared count never exceeds the first
/// identifier's depth.
pub proof fn law_common_root_is_shared_prefix(ids: Seq<WidgetIdView>)
    requires
        ids.len() > 0,
    ensures
        common_of(ids).id == Some(ids[0]),
        common_of(ids).count <= ids[0].parts.len(),
        forall|j: int, i: int|
            0 <= j < ids.len() && 0 <= i < common_of(ids).count && i < ids[j].parts.len()
                ==> ids[0].parts[i] == #[trigger] ids[j].parts[i],
    decreases ids.len(),
{
    if ids.len() == 1 {
        assert(ids.drop_last() =~= Seq::<WidgetIdView>::empty());
    } else {
        let prev = ids.drop_last();
        law_common_root_is_shared_prefix(prev);
        let c = common_of(prev);
        let last = ids.last();
        let m = if c.count < last.parts.len() { c.count as int } else { last.parts.len() as int };
        lemma_first_mismatch(ids[0].parts, last.parts, m);
        assert(prev[0] == ids[0]);
        assert forall|j: int, i: int|
            0 <= j < ids.len() && 0 <= i < common_of(ids).count && i < ids[j].parts.len()
                implies ids[0].parts[i] == #[trigger] ids[j].parts[i] by {
            if j < ids.len() - 1 {
                assert(prev[j] == ids[j]);
            }
        }
    }
}

/// Common root of the widget identifiers included so far.
#[derive(Debug)]
pub struct WidgetIdCommon {
    id: Option<WidgetId>,
    count: usize,
}

impl View for WidgetIdCommon {
    type V = WidgetIdCommonView;

    closed spec fn view(&self) -> WidgetIdCommonView {
        WidgetIdCommonView {
            id: match self.id {
                Some(id) => Some(id@),
                None => None,
            },
            count: self.count as nat,
        }
    }
}

impl Default for WidgetIdCommon {
    /// Nothing included yet.
    fn default() -> (r: Self)
        ensures
            r@ == (WidgetIdCommonView { id: None, count: usize::MAX as nat }),
    {
        WidgetIdCommon { id: None, count: usize::MAX }
    }
}

impl WidgetIdCommon {
    /// The shared count never exceeds the depth of the identifier that spells it.
    #[verifier::type_invariant]
    closed spec fn wf(&self) -> bool {
        match self.id {
            Some(id) => self.count <= id@.parts.len(),
            None => true,
        }
    }

    /// The common root of a single identifier: all of its parts.
    pub fn new(id: WidgetId) -> (r: Self)
        ensures
            r@ == (WidgetIdCommonView { id: Some(id@), count: id@.parts.len() }),
    {
        WidgetIdCommon { count: id.depth(), id: Some(id) }
    }

    /// Narrows the common root to what it shares with `id` (or starts it at `id`).
    pub fn include_id(&mut self, id: &WidgetId) -> (r: &mut Self)
        ensures
            (*r)@ == old(self)@.include_id(id@),
            *final(self) == *final(r),
    {
        proof {
            use_type_invariant(&*self);
        }
        if self.id.is_none() {
            *self = WidgetIdCommon { id: Some(id.clone()), count: id.depth() };
            return self;
        }
        let m = if self.count < id.depth() { self.count } else { id.depth() };
        let mut index: usize = 0;
        let ghost src = self.id.unwrap()@;
        proof {
            lemma_first_mismatch(src.parts, id@.parts, m as int);
        }
        while index < m
            invariant
                *self == *old(self),
                self.id is Some,
                src == self.id.unwrap()@,
                m <= self.count <= src.parts.len(),
                m <= id@.parts.len(),
                m == (if old(self).count < id@.parts.len() { old(self).count as int } else { id@.parts.len() as int }),
                index <= m,
                forall|i: int| 0 <= i < index ==> src.parts[i] == id@.parts[i],
                0 <= first_mismatch(src.parts, id@.parts, m as int) <= m,
                forall|i: int| 0 <= i < first_mismatch(src.parts, id@.parts, m as int) ==> src.parts[i] == id@.parts[i],
                first_mismatch(src.parts, id@.parts, m as int) < m ==> src.parts[first_mismatch(src.parts, id@.parts, m as int)] != id@.parts[first_mismatch(src.parts, id@.parts, m as int)],
            decreases m - index,
        {
            let a = match &self.id {
                Some(source) => source.part(index).unwrap(),
                None => "",
            };
            let b = id.part(index).unwrap();
            if !crate::text::str_eq(a, b) {
                proof {
                    assert(a@ == src.parts[index as int]);
                    assert(b@ == id@.parts[index as int]);
                    let k = first_mismatch(src.parts, id@.parts, m as int);
                    if k > index {
                        assert(src.parts[index as int] == id@.parts[index as int]);
                    }
                    assert(k == index);
                }
                self.count = index;
                assert(self@.count == index);
                assert(self@.id == old(self)@.id);
                assert(old(self)@.id == Some(src));
                assert(old(self)@.count == old(self).count);
                return self;
            }
            index = index + 1;
        }
        self
    }

    /// Narrows the common root to what it shares with `other`'s root.
    pub fn include_other(&mut self, other: &Self) -> (r: &mut Self)
        ensures
            (*r)@ == old(self)@.include_other(other@),
            *final(self) == *final(r),
    {
        proof {
            use_type_invariant(&*self);
            use_type_invariant(other);
        }
        let oid = match &other.id {
            Some(oid) => oid,
            None => return self,
        };
        if self.id.is_none() {
            *self = WidgetIdCommon { id: Some(oid.clone()), count: other.count };
            return self;
        }
        let m = if self.count < other.count { self.count } else { other.count };
        let mut index: usize = 0;
        let ghost src = self.id.unwrap()@;
        proof {
            lemma_first_mismatch(src.parts, oid@.parts, m as int);
        }
        while index < m
            invariant
                *self == *old(self),
                self.id is Some,
                src == self.id.unwrap()@,
                m <= self.count <= src.parts.len(),
                m <= other.count <= oid@.parts.len(),
                other.id == Some(*oid),
                m == (if old(self).count < other.count { old(self).count } else { other.count }),
                index <= m,
                forall|i: int| 0 <= i < index ==> src.parts[i] == oid@.parts[i],
                0 <= first_mismatch(src.parts, oid@.parts, m as int) <= m,
                forall|i: int| 0 <= i < first_mismatch(src.parts, oid@.parts, m as int) ==> src.parts[i] == oid@.parts[i],
                first_mismatch(src.parts, oid@.parts, m as int) < m ==> src.parts[first_mismatch(src.parts, oid@.parts, m as int)] != oid@.parts[first_mismatch(src.parts, oid@.parts, m as int)],
            decreases m - index,
        {
            let a = match &self.id {
                Some(source) => source.part(index).unwrap(),
                None => "",
            };
            let b = oid.part(index).unwrap();
            if !crate::text::str_eq(a, b) {
                proof {
                    assert(a@ == src.parts[index as int]);
                    assert(b@ == oid@.parts[index as int]);
                    let k = first_mismatch(src.parts, oid@.parts, m as int);
                    if k > index {
                        assert(src.parts[index as int] == oid@.parts[index as int]);
                    }
                    assert(k == index);
                }
                self.count = index;
                assert(self@.count == index);
                assert(self@.id == old(self)@.id);
                return self;
            }
            index = index + 1;
        }
        self
    }

    /// Whether any identifier has been included.
    pub fn is_valid(&self) -> (r: bool)
        ensures
            r == (self@.id is Some),
    {
        self.id.is_some()
    }

    /// The shared leading parts, if any identifier has been included.
    pub fn parts(&self) -> (r: Option<Vec<&str>>)
        ensures
            match r {
                None => self@.id is None,
                Some(v) => self@.id matches Some(id) && v@.len() == self@.count && forall|i: int|
                    0 <= i < v@.len() ==> (#[trigger] v@[i])@ == id.parts[i],
            },
    {
        proof {
            use_type_invariant(self);
        }
        match &self.id {
            None => None,
            Some(id) => {
                let mut v: Vec<&str> = Vec::new();
                let mut index: usize = 0;
                while index < self.count
                    invariant
                        self.id == Some(*id),
                        self.count <= id@.parts.len(),
                        index <= self.count,
                        v@.len() == index,
                        forall|i: int| 0 <= i < index ==> (#[trigger] v@[i])@ == id@.parts[i],
                    decreases self.count - index,
                {
                    v.push(id.part(index).unwrap());
                    index = index + 1;
                }
                Some(v)
            },
        }
    }

    /// The shared leading parts joined with `/`, unless that text is empty.
    pub fn path(&self) -> (r: Option<&str>)
        ensures
            match r {
                None => self@.path() is None,
                Some(p) => self@.path() == Some(p@),
            },
    {
        match &self.id {
            None => None,
            Some(id) => {
                let p = id.range(0, self.count);
                if p.is_empty() {
                    None
                } else {
                    Some(p)
                }
            },
        }
    }

    /// The common root of `ids`, included in order.
    pub fn from_ids(ids: &[WidgetId]) -> (r: Self)
        ensures
            r@ == common_of(ids@.map_values(|id: WidgetId| id@)),
    {
        let mut result = WidgetIdCommon::default();
        let mut index: usize = 0;
        let ghost vs = ids@.map_values(|id: WidgetId| id@);
        while index < ids.len()
            invariant
                index <= ids@.len(),
                vs == ids@.map_values(|id: WidgetId| id@),
                result@ == common_of(vs.take(index as int)),
            decreases ids@.len() - index,
        {
            result.include_id(&ids[index]);
            proof {
                assert(vs.take(index as int + 1).drop_last() =~= vs.take(index as int));
            }
            index = index + 1;
        }
        assert(vs.take(ids@.len() as int) =~= vs);
        result
    }
}

impl Clone for WidgetIdCommon {
    fn clone(&self) -> (r: Self)
        ensures
            r@ == self@,
    {
        proof {
            use_type_invariant(self);
        }
        let id = match &self.id {
            Some(id) => Some(id.clone()),
            None => None,
        };
        WidgetIdCommon { id, count: self.count }
    }
}

} // verus!
