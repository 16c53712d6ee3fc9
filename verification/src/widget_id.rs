//! Widget identifiers: a type name and a path of parts, kept as one string
//! (`type:part/part/...`) with the character ranges of each piece.

use std::collections::hash_map::DefaultHasher;
use std::hash::{Hash, Hasher};
use std::ops::Range;
use vstd::prelude::*;
use vstd::std_specs::hash::DefaultHasherAdditionalSpecFns;

use crate::text::{
    chars_of, first_index_of, join_parts, lemma_first_index_is, lemma_first_index_none,
    lemma_join_push, lemma_join_split, lemma_split_join, push_char, split_parts, str_eq,
};

verus! {

/// The abstract value of a [`WidgetId`].
///
/// `typed` is false only for identifiers grown from the invalid default
/// identifier (the empty string), whose text has no `type:` head.
pub struct WidgetIdView {
    pub typed: bool,
    pub kind: Seq<char>,
    pub parts: Seq<Seq<char>>,
}

impl WidgetIdView {
    /// The identifier's text: `type:part/part/...`.
    pub open spec fn text(self) -> Seq<char> {
        if self.typed {
            self.kind + seq![':'] + join_parts(self.parts)
        } else {
            join_parts(self.parts)
        }
    }

    /// The text `WidgetId::range(from_inclusive, to_exclusive)` returns.
    pub open spec fn range_text(self, from_inclusive: int, to_exclusive: int) -> Seq<char> {
        if self.parts.len() == 0 {
            Seq::empty()
        } else {
            let n = self.parts.len() as int;
            join_parts(
                self.parts.subrange(
                    range_first(from_inclusive, n),
                    range_last(from_inclusive, to_exclusive, n) + 1,
                ),
            )
        }
    }

    /// The view of `push(part)`.
    pub open spec fn pushed(self, part: Seq<char>) -> WidgetIdView {
        WidgetIdView { typed: self.typed, kind: self.kind, parts: self.parts.push(part) }
    }

    /// The view of `pop()`.
    pub open spec fn popped(self) -> WidgetIdView {
        WidgetIdView {
            typed: if self.parts.len() >= 2 { self.typed } else { true },
            kind: self.kind,
            parts: if self.parts.len() > 0 { self.parts.drop_last() } else { Seq::empty() },
        }
    }

    /// The last part, or nothing for an identifier without parts.
    pub open spec fn key(self) -> Seq<char> {
        if self.parts.len() == 0 {
            Seq::empty()
        } else {
            self.parts.last()
        }
    }
}

/// The view of `WidgetId::new(kind, path)`.
pub open spec fn new_view(kind: Seq<char>, path: Seq<&str>) -> WidgetIdView {
    WidgetIdView { typed: true, kind, parts: path.map_values(|p: &str| p@) }
}

/// First part index that `WidgetId::range` reads, for `n > 0` parts.
pub open spec fn range_first(from_inclusive: int, n: int) -> int {
    if from_inclusive < n - 1 { from_inclusive } else { n - 1 }
}

/// Last part index that `WidgetId::range` reads, for `n > 0` parts.
pub open spec fn range_last(from_inclusive: int, to_exclusive: int, n: int) -> int {
    let start = range_first(from_inclusive, n);
    let e = if to_exclusive > 0 { to_exclusive - 1 } else { 0 };
    let e = if e > start { e } else { start };
    if e < n - 1 { e } else { n - 1 }
}

/// The byte writes that `String::hash` makes on a hasher for a given text.
pub uninterp spec fn str_hash_writes(text: Seq<char>) -> Seq<Seq<u8>>;

/// Feeds a string to a `DefaultHasher` through `String::hash` (std's `Hash`
/// impl for `String`).
///
/// Claims only that the writes it appends are a function of the string's
/// characters; which bytes they are is left unsaid.
#[verifier::external_body]
fn hash_string_into(s: &String, hasher: &mut DefaultHasher)
    ensures
        final(hasher)@ == old(hasher)@ + str_hash_writes(s@),
{
    s.hash(hasher);
}

/// The value `WidgetId::hashed_value` reports for an identifier text: the
/// finish of a fresh `DefaultHasher` fed that text.
pub open spec fn text_hash(text: Seq<char>) -> u64 {
    DefaultHasher::spec_finish(Seq::<Seq<u8>>::empty() + str_hash_writes(text))
}

/// Identifier of a widget in the tree.
///
/// The default identifier is the empty string and is not valid.
#[derive(Debug)]
pub struct WidgetId {
    id: String,
    kind: Range<usize>,
    parts: Vec<Range<usize>>,
}

/// Copies a vector of ranges.
fn copy_ranges(v: &Vec<Range<usize>>, count: usize) -> (r: Vec<Range<usize>>)
    requires
        count <= v@.len(),
    ensures
        r@ == v@.take(count as int),
{
    let mut r: Vec<Range<usize>> = Vec::new();
    let mut i: usize = 0;
    while i < count
        invariant
            i <= count <= v@.len(),
            r@ == v@.take(i as int),
        decreases count - i,
    {
        let item = Range { start: v[i].start, end: v[i].end };
        r.push(item);
        i = i + 1;
        assert(r@ =~= v@.take(i as int));
    }
    r
}

impl WidgetId {
    /// Where the parts begin (or the end of the text when there are none).
    closed spec fn head_end(&self) -> int {
        if self.parts@.len() > 0 {
            self.parts@[0].start as int
        } else {
            self.id@.len() as int
        }
    }

    /// The ranges describe the text: type name first, then `:`, then the
    /// parts separated by `/`; or, without a head, the parts alone.
    #[verifier::type_invariant]
    closed spec fn wf(&self) -> bool {
        let t = self.id@;
        let n = self.parts@.len() as int;
        &&& self.kind.start == 0
        &&& self.kind.end <= t.len()
        &&& forall|i: int|
            0 <= i < n ==> #[trigger] self.parts@[i].start <= self.parts@[i].end <= t.len()
        &&& forall|i: int|
            1 <= i < n ==> {
                &&& #[trigger] self.parts@[i].start == self.parts@[i - 1].end + 1
                &&& t[self.parts@[i - 1].end as int] == '/'
            }
        &&& n > 0 ==> self.parts@[n - 1].end == t.len()
        &&& {
            ||| (self.head_end() == self.kind.end + 1 && t[self.kind.end as int] == ':')
            ||| (self.head_end() == 0 && self.kind.end == 0)
        }
    }

    /// Text of part `i`.
    closed spec fn part_text(&self, i: int) -> Seq<char> {
        self.id@.subrange(self.parts@[i].start as int, self.parts@[i].end as int)
    }

    proof fn lemma_span(&self, s: int, e: int)
        requires
            self.wf(),
            0 <= s <= e < self.parts@.len(),
        ensures
            self.id@.subrange(self.parts@[s].start as int, self.parts@[e].end as int)
                == join_parts(self@.parts.subrange(s, e + 1)),
            self.parts@[s].start <= self.parts@[e].end,
        decreases e - s,
    {
        let t = self.id@;
        let ps = self@.parts.subrange(s, e + 1);
        assert(self.parts@[s].start <= self.parts@[s].end);
        if s == e {
            assert(ps =~= seq![self.part_text(s)]);
        } else {
            self.lemma_span(s + 1, e);
            assert(self.parts@[s + 1].start == self.parts@[s].end + 1);
            assert(self.parts@[s + 1].start <= self.parts@[s + 1].end);
            assert(self.parts@[e].start <= self.parts@[e].end);
            let a = self.parts@[s].start as int;
            let m = self.parts@[s].end as int;
            let b = self.parts@[e].end as int;
            assert(t[m] == '/');
            assert(t.subrange(a, b) =~= t.subrange(a, m) + seq!['/'] + t.subrange(m + 1, b));
            assert(ps.drop_first() =~= self@.parts.subrange(s + 1, e + 1));
            assert(ps[0] == self.part_text(s));
        }
    }

    proof fn lemma_text(&self)
        requires
            self.wf(),
        ensures
            self.id@ == self@.text(),
            !self@.typed ==> self@.kind.len() == 0,
    {
        let t = self.id@;
        let n = self.parts@.len() as int;
        let tn = self.kind.end as int;
        if n > 0 {
            self.lemma_span(0, n - 1);
            assert(self@.parts.subrange(0, n) =~= self@.parts);
            assert(self.parts@[0].start <= self.parts@[0].end);
        }
        if self.head_end() != 0 {
            if n > 0 {
                assert(t =~= t.subrange(0, tn) + seq![':'] + t.subrange(tn + 1, t.len() as int));
            } else {
                assert(t =~= t.subrange(0, tn) + seq![':'] + Seq::<char>::empty());
            }
        } else {
            if n > 0 {
                assert(t =~= t.subrange(0, t.len() as int));
            } else {
                assert(t =~= Seq::<char>::empty());
            }
        }
    }

    /// An identifier with an empty type name and no parts (`":"`).
    pub fn empty() -> (r: Self)
        ensures
            r@ == (WidgetIdView { typed: true, kind: Seq::empty(), parts: Seq::empty() }),
    {
        let mut id = String::new();
        push_char(&mut id, ':');
        let r = WidgetId { id, kind: Range { start: 0, end: 0 }, parts: Vec::new() };
        assert(r@.parts =~= Seq::<Seq<char>>::empty());
        assert(r@.kind =~= Seq::<char>::empty());
        r
    }

    /// Builds `kind:path[0]/path[1]/...`.
    pub fn new(kind: &str, path: &[&str]) -> (r: Self)
        requires
            new_view(kind@, path@).text().len() <= usize::MAX,
        ensures
            r@ == new_view(kind@, path@),
    {
        let ghost ps = path@.map_values(|p: &str| p@);
        let ghost full = new_view(kind@, path@).text();
        let mut result = String::new();
        result.append(kind);
        let tn = kind.unicode_len();
        push_char(&mut result, ':');
        let mut len: usize = tn + 1;
        proof {
            if ps.len() > 0 {
                lemma_join_prefix_len(ps, 1);
            }
            assert(ps.take(0) =~= Seq::<Seq<char>>::empty());
        }
        let mut parts: Vec<Range<usize>> = Vec::new();
        let mut index: usize = 0;
        while index < path.len()
            invariant
                index <= path@.len() == ps.len(),
                ps == path@.map_values(|p: &str| p@),
                full == new_view(kind@, path@).text(),
                full.len() <= usize::MAX,
                tn == kind@.len(),
                result@ == kind@ + seq![':'] + join_parts(ps.take(index as int)),
                len == result@.len(),
                parts@.len() == index,
                forall|i: int|
                    0 <= i < index ==> #[trigger] parts@[i].start <= parts@[i].end <= len,
                forall|i: int|
                    0 <= i < index ==> result@.subrange(
                        #[trigger] parts@[i].start as int,
                        parts@[i].end as int,
                    ) == ps[i],
                forall|i: int|
                    1 <= i < index ==> {
                        &&& #[trigger] parts@[i].start == parts@[i - 1].end + 1
                        &&& result@[parts@[i - 1].end as int] == '/'
                    },
                index > 0 ==> parts@[0].start == tn + 1,
                index > 0 ==> parts@[index - 1].end == len,
            decreases path@.len() - index,
        {
            let ghost before = result@;
            proof {
                lemma_join_prefix_len(ps, index as int + 1);
                if index > 0 {
                    lemma_join_push(ps.take(index as int), ps[index as int]);
                    assert(ps.take(index as int + 1) =~= ps.take(index as int).push(ps[index as int]));
                } else {
                    assert(ps.take(1) =~= seq![ps[0]]);
                }
            }
            if index > 0 {
                push_char(&mut result, '/');
                len = len + 1;
            }
            let ghost after_sep = result@;
            let start = len;
            let part = path[index];
            result.append(part);
            let plen = part.unicode_len();
            len = len + plen;
            let ghost mid = result@;
            let ghost old_parts = parts@;
            parts.push(Range { start, end: len });
            proof {
                assert forall|i: int| 0 <= i < index implies result@.subrange(
                    #[trigger] parts@[i].start as int,
                    parts@[i].end as int,
                ) == ps[i] by {
                    assert(parts@[i] == old_parts[i]);
                    assert(result@.subrange(parts@[i].start as int, parts@[i].end as int)
                        =~= before.subrange(parts@[i].start as int, parts@[i].end as int));
                }
                assert(result@.subrange(start as int, len as int) =~= part@);
                assert(ps[index as int] == part@);
                assert forall|i: int| 0 <= i < index + 1 implies #[trigger] parts@[i].start
                    <= parts@[i].end <= len by {
                    if i < index {
                        assert(parts@[i] == old_parts[i]);
                        assert(old_parts[i].start <= old_parts[i].end <= before.len());
                    } else {
                        assert(parts@[i] == Range { start, end: len });
                    }
                }
                assert forall|i: int| 1 <= i < index + 1 implies {
                    &&& #[trigger] parts@[i].start == parts@[i - 1].end + 1
                    &&& result@[parts@[i - 1].end as int] == '/'
                } by {
                    assert(parts@[i - 1] == old_parts[i - 1]);
                    if i < index {
                        assert(parts@[i] == old_parts[i]);
                        assert(old_parts[i].start <= old_parts[i].end);
                        assert(parts@[i - 1].end < before.len());
                        assert(result@[parts@[i - 1].end as int] == before[parts@[i - 1].end as int]);
                    } else {
                        assert(parts@[i - 1].end == before.len());
                        assert(after_sep == before.push('/'));
                        assert(result@ == after_sep + part@);
                        assert(result@[before.len() as int] == after_sep[before.len() as int]);
                        assert(result@[before.len() as int] == '/');
                    }
                }
                assert(result@ =~= kind@ + seq![':'] + join_parts(ps.take(index as int + 1)));
            }
            index = index + 1;
        }
        let r = WidgetId { id: result, kind: Range { start: 0, end: tn }, parts };
        proof {
            assert(ps.take(index as int) =~= ps);
            assert(r.id@.subrange(0, tn as int) =~= kind@);
            assert(r@.parts =~= ps);
        }
        r
    }
}

impl WidgetId {
    /// Copies the identifier.
    pub(crate) fn duplicate(&self) -> (r: Self)
        ensures
            r@ == self@,
    {
        proof {
            use_type_invariant(self);
        }
        let r = WidgetId {
            id: self.id.clone(),
            kind: Range { start: self.kind.start, end: self.kind.end },
            parts: copy_ranges(&self.parts, self.parts.len()),
        };
        assert(self.parts@.take(self.parts@.len() as int) =~= self.parts@);
        assert(r@.parts =~= self@.parts);
        r
    }

    /// The identifier's text.
    pub fn as_str(&self) -> (r: &str)
        ensures
            r@ == self@.text(),
    {
        proof {
            use_type_invariant(self);
            self.lemma_text();
        }
        self.id.as_str()
    }

    /// The identifier's text, as an owned string.
    pub fn to_string(&self) -> (r: String)
        ensures
            r@ == self@.text(),
    {
        proof {
            use_type_invariant(self);
            self.lemma_text();
        }
        self.id.clone()
    }

    /// Appends a part to the path.
    pub fn push(&self, part: &str) -> (r: Self)
        requires
            self@.text().len() + 1 + part@.len() <= usize::MAX,
        ensures
            r@ == self@.pushed(part@),
            r@.text() == self@.text() + (if self@.parts.len() > 0 { seq!['/'] } else { Seq::empty() }) + part@,
    {
        proof {
            use_type_invariant(self);
            self.lemma_text();
        }
        let ghost t = self.id@;
        let mut result = self.id.clone();
        let mut len = self.id.as_str().unicode_len();
        if self.parts.len() > 0 {
            push_char(&mut result, '/');
            len = len + 1;
        }
        let start = len;
        result.append(part);
        len = len + part.unicode_len();
        let mut parts = copy_ranges(&self.parts, self.parts.len());
        let ghost old_parts = parts@;
        parts.push(Range { start, end: len });
        proof {
            let n = self.parts@.len() as int;
            assert(old_parts =~= self.parts@);
            assert forall|i: int| 0 <= i < n implies result@.subrange(
                #[trigger] parts@[i].start as int,
                parts@[i].end as int,
            ) == self.part_text(i) by {
                assert(parts@[i] == self.parts@[i]);
                assert(self.parts@[i].start <= self.parts@[i].end <= t.len());
                assert(result@.subrange(self.parts@[i].start as int, self.parts@[i].end as int)
                    =~= t.subrange(self.parts@[i].start as int, self.parts@[i].end as int));
            }
            assert forall|i: int| 1 <= i < n + 1 implies {
                &&& #[trigger] parts@[i].start == parts@[i - 1].end + 1
                &&& result@[parts@[i - 1].end as int] == '/'
            } by {
                assert(parts@[i - 1] == self.parts@[i - 1]);
                if i < n {
                    assert(parts@[i] == self.parts@[i]);
                    assert(self.parts@[i].start <= self.parts@[i].end);
                    assert(result@[self.parts@[i - 1].end as int] == t[self.parts@[i - 1].end as int]);
                } else {
                    assert(self.parts@[n - 1].end == t.len());
                }
            }
            assert forall|i: int| 0 <= i < n + 1 implies #[trigger] parts@[i].start
                <= parts@[i].end <= result@.len() by {
                if i < n {
                    assert(parts@[i] == self.parts@[i]);
                    assert(self.parts@[i].start <= self.parts@[i].end <= t.len());
                }
            }
            if n == 0 && self.head_end() != 0 {
                assert(result@[self.kind.end as int] == t[self.kind.end as int]);
            }
            if n > 0 {
                assert(parts@[0] == self.parts@[0]);
            }
            assert(result@.subrange(start as int, len as int) =~= part@);
            assert(result@.subrange(0, self.kind.end as int) =~= t.subrange(0, self.kind.end as int));
        }
        let r = WidgetId { id: result, kind: Range { start: self.kind.start, end: self.kind.end }, parts };
        proof {
            assert(r@.parts =~= self@.parts.push(part@));
            if self.parts@.len() > 0 {
                lemma_join_push(self@.parts, part@);
            } else {
                assert(self@.parts.push(part@) =~= seq![part@]);
            }
        }
        r
    }

    /// Drops the last part of the path.
    #[verifier::rlimit(40)]
    pub fn pop(&self) -> (r: Self)
        ensures
            r@ == self@.popped(),
    {
        proof {
            use_type_invariant(self);
            self.lemma_text();
        }
        let ghost t = self.id@;
        let n = self.parts.len();
        let keep = if n > 0 { n - 1 } else { 0 };
        let parts = copy_ranges(&self.parts, keep);
        let r = if keep > 0 {
            let end = self.parts[keep - 1].end;
            proof {
                assert(self.parts@[keep - 1].start <= end <= t.len());
            }
            let id = self.id.as_str().substring_char(0, end).to_owned();
            proof {
                assert forall|i: int| 0 <= i < keep implies id@.subrange(
                    #[trigger] parts@[i].start as int,
                    parts@[i].end as int,
                ) == self.part_text(i) by {
                    assert(parts@[i] == self.parts@[i]);
                    assert(self.parts@[i].start <= self.parts@[i].end);
                    if i < keep - 1 {
                        assert(self.parts@[i + 1].start == self.parts@[i].end + 1);
                        assert(self.parts@[i + 1].start <= self.parts@[i + 1].end);
                    }
                    self.lemma_ends_mono(i, keep as int - 1);
                    assert(id@.subrange(self.parts@[i].start as int, self.parts@[i].end as int)
                        =~= t.subrange(self.parts@[i].start as int, self.parts@[i].end as int));
                }
                assert forall|i: int| 0 <= i < keep implies #[trigger] parts@[i].start
                    <= parts@[i].end <= id@.len() by {
                    assert(parts@[i] == self.parts@[i]);
                    assert(self.parts@[i].start <= self.parts@[i].end);
                    self.lemma_ends_mono(i, keep as int - 1);
                }
                assert forall|i: int| 1 <= i < keep implies {
                    &&& #[trigger] parts@[i].start == parts@[i - 1].end + 1
                    &&& id@[parts@[i - 1].end as int] == '/'
                } by {
                    assert(parts@[i] == self.parts@[i]);
                    assert(parts@[i - 1] == self.parts@[i - 1]);
                    assert(self.parts@[i].start <= self.parts@[i].end);
                    self.lemma_ends_mono(i, keep as int - 1);
                    assert(self.parts@[i].start == self.parts@[i - 1].end + 1);
                    assert(t[self.parts@[i - 1].end as int] == '/');
                    assert(id@[parts@[i - 1].end as int] == t[self.parts@[i - 1].end as int]);
                }
                assert(id@.len() == end);
                assert(parts@[keep - 1] == self.parts@[keep - 1]);
                assert(parts@[0] == self.parts@[0]);
                assert(self.parts@[0].start <= self.parts@[0].end);
                self.lemma_ends_mono(0, keep as int - 1);
                if self.head_end() != 0 {
                    assert(self.kind.end < end);
                    assert(id@[self.kind.end as int] == t[self.kind.end as int]);
                    assert(parts@[0].start == self.kind.end + 1 && id@[self.kind.end as int] == ':');
                } else {
                    assert(parts@[0].start == 0 && self.kind.end == 0);
                }
                assert(self.kind.end <= id@.len());
                assert(parts@[keep - 1].end == id@.len());
                assert(id@.subrange(0, self.kind.end as int) =~= t.subrange(0, self.kind.end as int));
            }
            let r = WidgetId { id, kind: Range { start: self.kind.start, end: self.kind.end }, parts };
            assert(r@.parts =~= self@.parts.drop_last());
            r
        } else {
            let mut id = self.id.as_str().substring_char(0, self.kind.end).to_owned();
            push_char(&mut id, ':');
            proof {
                assert(id@.len() == self.kind.end + 1);
                assert(id@[self.kind.end as int] == ':');
            }
            let r = WidgetId { id, kind: Range { start: self.kind.start, end: self.kind.end }, parts };
            proof {
                assert(r@.parts =~= Seq::<Seq<char>>::empty());
                assert(r.id@.subrange(0, self.kind.end as int) =~= t.subrange(0, self.kind.end as int));
                if n > 0 {
                    assert(self@.parts.drop_last() =~= Seq::<Seq<char>>::empty());
                }
            }
            r
        };
        r
    }

    proof fn lemma_ends_mono(&self, i: int, j: int)
        requires
            self.wf(),
            0 <= i <= j < self.parts@.len(),
        ensures
            self.parts@[i].end <= self.parts@[j].end,
            i < j ==> self.parts@[i].end < self.parts@[j].start,
        decreases j - i,
    {
        if i < j {
            self.lemma_ends_mono(i, j - 1);
            assert(self.parts@[j].start == self.parts@[j - 1].end + 1);
            assert(self.parts@[j].start <= self.parts@[j].end);
            assert(self.parts@[j - 1].start <= self.parts@[j - 1].end);
        }
    }

    /// Whether the identifier is not the empty string.
    pub fn is_valid(&self) -> (r: bool)
        ensures
            r == (self@.text().len() > 0),
    {
        proof {
            use_type_invariant(self);
            self.lemma_text();
        }
        !self.id.as_str().is_empty()
    }

    /// Number of parts in the path.
    pub fn depth(&self) -> (r: usize)
        ensures
            r == self@.parts.len(),
    {
        self.parts.len()
    }

    /// The type name (the text before `:`).
    pub fn type_str(&self) -> (r: &str)
        ensures
            r@ == self@.kind,
    {
        proof {
            use_type_invariant(self);
        }
        self.id.as_str().substring_char(0, self.kind.end)
    }

    /// The whole path: all parts joined with `/`.
    pub fn path(&self) -> (r: &str)
        ensures
            r@ == join_parts(self@.parts),
    {
        proof {
            use_type_invariant(self);
        }
        let n = self.parts.len();
        if n == 0 {
            self.id.as_str().substring_char(0, 0)
        } else {
            proof {
                self.lemma_span(0, n - 1);
                assert(self@.parts.subrange(0, n as int) =~= self@.parts);
            }
            self.id.as_str().substring_char(self.parts[0].start, self.parts[n - 1].end)
        }
    }

    /// The last part of the path (empty when there are no parts).
    pub fn key(&self) -> (r: &str)
        ensures
            r@ == self@.key(),
    {
        proof {
            use_type_invariant(self);
        }
        let n = self.parts.len();
        if n == 0 {
            self.id.as_str().substring_char(0, 0)
        } else {
            proof {
                assert(self.parts@[n - 1].start <= self.parts@[n - 1].end);
            }
            self.id.as_str().substring_char(self.parts[n - 1].start, self.parts[n - 1].end)
        }
    }

    /// The part at `index`, if the path is that deep.
    pub fn part(&self, index: usize) -> (r: Option<&str>)
        ensures
            match r {
                Some(p) => index < self@.parts.len() && p@ == self@.parts[index as int],
                None => index >= self@.parts.len(),
            },
    {
        proof {
            use_type_invariant(self);
        }
        if index < self.parts.len() {
            proof {
                assert(self.parts@[index as int].start <= self.parts@[index as int].end);
            }
            Some(self.id.as_str().substring_char(self.parts[index].start, self.parts[index].end))
        } else {
            None
        }
    }

    /// The parts from `from_inclusive` up to `to_exclusive`, joined with `/`;
    /// both bounds are clamped so that at least one part is read.
    pub fn range(&self, from_inclusive: usize, to_exclusive: usize) -> (r: &str)
        ensures
            r@ == self@.range_text(from_inclusive as int, to_exclusive as int),
    {
        proof {
            use_type_invariant(self);
        }
        let n = self.parts.len();
        if n == 0 {
            return self.id.as_str().substring_char(0, 0);
        }
        let last = n - 1;
        let start = if from_inclusive < last { from_inclusive } else { last };
        let e = if to_exclusive > 0 { to_exclusive - 1 } else { 0 };
        let e = if e > start { e } else { start };
        let end = if e < last { e } else { last };
        proof {
            self.lemma_span(start as int, end as int);
            assert(self.parts@[end as int].start <= self.parts@[end as int].end);
        }
        self.id.as_str().substring_char(self.parts[start].start, self.parts[end].end)
    }

    /// Whether this identifier's parts are a prefix of `other`'s parts.
    pub fn is_subset_of(&self, other: &Self) -> (r: bool)
        ensures
            r == self@.parts.is_prefix_of(other@.parts),
    {
        let n = self.depth();
        let mut index: usize = 0;
        while index < n
            invariant
                n == self@.parts.len(),
                index <= n,
                index <= other@.parts.len(),
                forall|i: int| 0 <= i < index ==> self@.parts[i] == other@.parts[i],
            decreases n - index,
        {
            let a = self.part(index).unwrap();
            let b = match other.part(index) {
                Some(b) => b,
                None => return false,
            };
            if !str_eq(a, b) {
                return false;
            }
            index = index + 1;
        }
        assert(self@.parts =~= other@.parts.subrange(0, n as int));
        true
    }

    /// Whether `other`'s parts are a prefix of this identifier's parts.
    pub fn is_superset_of(&self, other: &Self) -> (r: bool)
        ensures
            r == other@.parts.is_prefix_of(self@.parts),
    {
        other.is_subset_of(self)
    }

    /// All parts of the path, in order.
    pub fn parts(&self) -> (r: Vec<&str>)
        ensures
            r@.len() == self@.parts.len(),
            forall|i: int| 0 <= i < r@.len() ==> (#[trigger] r@[i])@ == self@.parts[i],
    {
        let n = self.depth();
        let mut r: Vec<&str> = Vec::new();
        let mut index: usize = 0;
        while index < n
            invariant
                n == self@.parts.len(),
                index <= n,
                r@.len() == index,
                forall|i: int| 0 <= i < index ==> (#[trigger] r@[i])@ == self@.parts[i],
            decreases n - index,
        {
            let p = self.part(index).unwrap();
            r.push(p);
            index = index + 1;
        }
        r
    }

    /// Parses `type:part/part/...`: the type name is the text before the first
    /// `:`, the rest is split at every `/`. Fails when there is no `:`.
    pub fn from_str(s: &str) -> (r: Result<Self, ()>)
        ensures
            match r {
                Ok(id) => {
                    &&& first_index_of(s@, ':') matches Some(i)
                    &&& id@ == (WidgetIdView {
                        typed: true,
                        kind: s@.subrange(0, i),
                        parts: split_parts(s@.subrange(i + 1, s@.len() as int)),
                    })
                    &&& id@.text() == s@
                },
                Err(()) => first_index_of(s@, ':') is None,
            },
    {
        let chars = chars_of(s);
        let n = chars.len();
        let mut i: usize = 0;
        while i < n && chars[i] != ':'
            invariant
                chars@ == s@,
                n == chars@.len(),
                i <= n,
                forall|j: int| 0 <= j < i ==> s@[j] != ':',
            decreases n - i,
        {
            i = i + 1;
        }
        if i == n {
            proof {
                lemma_first_index_none(s@, ':');
            }
            return Err(());
        }
        proof {
            lemma_first_index_is(s@, ':', i as int);
        }
        let kind = s.substring_char(0, i);
        let ghost rest = s@.subrange(i + 1, n as int);
        let mut parts: Vec<&str> = Vec::new();
        let mut seg: usize = i + 1;
        let mut j: usize = i + 1;
        assert(s@.subrange(seg as int, n as int) =~= rest);
        assert(parts@.map_values(|p: &str| p@) =~= Seq::<Seq<char>>::empty());
        while j < n
            invariant
                chars@ == s@,
                n == chars@.len(),
                i + 1 <= seg <= j <= n,
                rest == s@.subrange(i + 1, n as int),
                forall|k: int| seg <= k < j ==> s@[k] != '/',
                split_parts(rest) == parts@.map_values(|p: &str| p@) + split_parts(
                    s@.subrange(seg as int, n as int),
                ),
            decreases n - j,
        {
            if chars[j] == '/' {
                let piece = s.substring_char(seg, j);
                proof {
                    let u = s@.subrange(seg as int, n as int);
                    lemma_first_index_is(u, '/', j - seg);
                    assert(u.subrange(0, j - seg) =~= s@.subrange(seg as int, j as int));
                    assert(u.subrange(j - seg + 1, u.len() as int) =~= s@.subrange(
                        j + 1,
                        n as int,
                    ));
                    assert(split_parts(u) == seq![piece@] + split_parts(
                        s@.subrange(j + 1, n as int),
                    ));
                }
                let ghost before = parts@;
                parts.push(piece);
                proof {
                    assert(parts@.map_values(|p: &str| p@) =~= before.map_values(|p: &str| p@)
                        + seq![piece@]);
                }
                seg = j + 1;
            }
            j = j + 1;
        }
        let last = s.substring_char(seg, n);
        proof {
            let u = s@.subrange(seg as int, n as int);
            lemma_first_index_none(u, '/');
            assert(split_parts(u) == seq![last@]);
        }
        let ghost before = parts@;
        parts.push(last);
        proof {
            assert(parts@.map_values(|p: &str| p@) =~= before.map_values(|p: &str| p@) + seq![
                last@,
            ]);
            lemma_join_split(rest);
            assert(s@ =~= s@.subrange(0, i as int) + seq![':'] + rest);
        }
        let r = Self::new(kind, parts.as_slice());
        Ok(r)
    }

    /// A hash of the identifier's text.
    pub fn hashed_value(&self) -> (r: u64)
        ensures
            r == text_hash(self@.text()),
    {
        proof {
            use_type_invariant(self);
            self.lemma_text();
        }
        let mut hasher = DefaultHasher::new();
        hash_string_into(&self.id, &mut hasher);
        hasher.finish()
    }
}

/// Law: popping what was just pushed gives the identifier back, for every
/// identifier but those grown from the invalid default one without parts.
pub proof fn law_pop_undoes_push(v: WidgetIdView, part: Seq<char>)
    requires
        v.typed || v.parts.len() > 0,
    ensures
        v.pushed(part).popped() == v,
{
    assert(v.pushed(part).popped().parts =~= v.parts);
}

/// Law: pushing a part extends the path, so the old identifier is a subset
/// of the new one, and the new key is the pushed part.
pub proof fn law_push_extends(v: WidgetIdView, part: Seq<char>)
    ensures
        v.parts.is_prefix_of(v.pushed(part).parts),
        v.pushed(part).key() == part,
        v.pushed(part).parts.len() == v.parts.len() + 1,
{
    assert(v.parts =~= v.pushed(part).parts.subrange(0, v.parts.len() as int));
}

/// Law: the subset relation between identifiers is reflexive and transitive.
pub proof fn law_subset_preorder(a: WidgetIdView, b: WidgetIdView, c: WidgetIdView)
    ensures
        a.parts.is_prefix_of(a.parts),
        a.parts.is_prefix_of(b.parts) && b.parts.is_prefix_of(c.parts) ==> a.parts.is_prefix_of(
            c.parts,
        ),
{
    assert(a.parts =~= a.parts.subrange(0, a.parts.len() as int));
    if a.parts.is_prefix_of(b.parts) && b.parts.is_prefix_of(c.parts) {
        assert(a.parts =~= c.parts.subrange(0, a.parts.len() as int));
    }
}

/// Law: identifiers that are equal (same text) have the same hashed value.
pub proof fn law_equal_ids_hash_alike(a: WidgetIdView, b: WidgetIdView)
    requires
        a.text() == b.text(),
    ensures
        text_hash(a.text()) == text_hash(b.text()),
{
}

/// Law: the text of an identifier built from a type name without `:` and
/// parts without `/` parses back to that type name and those parts.
pub proof fn law_parse_reads_back_new(kind: Seq<char>, parts: Seq<Seq<char>>)
    requires
        parts.len() > 0,
        forall|j: int| 0 <= j < kind.len() ==> kind[j] != ':',
        forall|i: int, j: int| 0 <= i < parts.len() && 0 <= j < parts[i].len() ==> parts[i][j] != '/',
    ensures
        ({
            let text = (WidgetIdView { typed: true, kind, parts }).text();
            &&& first_index_of(text, ':') == Some(kind.len() as int)
            &&& text.subrange(0, kind.len() as int) == kind
            &&& split_parts(text.subrange(kind.len() as int + 1, text.len() as int)) == parts
        }),
{
    let text = (WidgetIdView { typed: true, kind, parts }).text();
    assert forall|j: int| 0 <= j < kind.len() implies text[j] != ':' by {
        assert(text[j] == kind[j]);
    }
    lemma_first_index_is(text, ':', kind.len() as int);
    assert(text.subrange(0, kind.len() as int) =~= kind);
    assert(text.subrange(kind.len() as int + 1, text.len() as int) =~= join_parts(parts));
    lemma_split_join(parts);
}

/// The text of the first `k` parts is no longer than that of all of them.
proof fn lemma_join_prefix_len(ps: Seq<Seq<char>>, k: int)
    requires
        1 <= k <= ps.len(),
    ensures
        join_parts(ps.take(k)).len() <= join_parts(ps).len(),
    decreases ps.len() - k,
{
    if k < ps.len() {
        lemma_join_prefix_len(ps, k + 1);
        lemma_join_push(ps.take(k), ps[k]);
        assert(ps.take(k + 1) =~= ps.take(k).push(ps[k]));
    } else {
        assert(ps.take(k) =~= ps);
    }
}

impl View for WidgetId {
    type V = WidgetIdView;

    closed spec fn view(&self) -> WidgetIdView {
        WidgetIdView {
            typed: self.head_end() != 0,
            kind: self.id@.subrange(0, self.kind.end as int),
            parts: Seq::new(self.parts@.len(), |i: int| self.part_text(i)),
        }
    }
}

impl Default for WidgetId {
    /// The invalid identifier: the empty string.
    fn default() -> (r: Self)
        ensures
            r@ == (WidgetIdView { typed: false, kind: Seq::empty(), parts: Seq::empty() }),
    {
        let r = WidgetId { id: String::new(), kind: Range { start: 0, end: 0 }, parts: Vec::new() };
        assert(r@.kind =~= Seq::<char>::empty());
        assert(r@.parts =~= Seq::<Seq<char>>::empty());
        r
    }
}

impl Clone for WidgetId {
    fn clone(&self) -> (r: Self)
        ensures
            r@ == self@,
    {
        self.duplicate()
    }
}

impl PartialEq for WidgetId {
    /// Two identifiers are equal when their texts are.
    fn eq(&self, other: &Self) -> (r: bool) {
        proof {
            use_type_invariant(self);
            use_type_invariant(other);
            self.lemma_text();
            other.lemma_text();
        }
        self.id == other.id
    }
}

impl vstd::std_specs::cmp::PartialEqSpecImpl for WidgetId {
    open spec fn obeys_eq_spec() -> bool {
        true
    }

    open spec fn eq_spec(&self, other: &Self) -> bool {
        self@.text() == other@.text()
    }
}

impl Eq for WidgetId {

}

impl Hash for WidgetId {
    /// Feeds the identifier's text to the hasher, as `String::hash` does.
    #[verifier::external_body]
    fn hash<H: Hasher>(&self, state: &mut H) {
        self.id.hash(state);
    }
}

impl std::str::FromStr for WidgetId {
    type Err = ();

    fn from_str(s: &str) -> (r: Result<Self, ()>)
        ensures
            match r {
                Ok(id) => {
                    &&& first_index_of(s@, ':') matches Some(i)
                    &&& id@ == (WidgetIdView {
                        typed: true,
                        kind: s@.subrange(0, i),
                        parts: split_parts(s@.subrange(i + 1, s@.len() as int)),
                    })
                    &&& id@.text() == s@
                },
                Err(()) => first_index_of(s@, ':') is None,
            },
    {
        WidgetId::from_str(s)
    }
}

/// The serialized form of a [`WidgetId`]: its text.
#[derive(Debug, Clone)]
pub struct WidgetIdDef(pub String);

impl WidgetIdDef {
    /// The serialized form of an identifier.
    pub fn from_id(data: WidgetId) -> (r: Self)
        ensures
            r.0@ == data@.text(),
    {
        WidgetIdDef(data.to_string())
    }
}

impl WidgetId {
    /// Reads an identifier back from its serialized form; fails, naming the
    /// text, when it holds no `:`.
    pub fn try_from_def(id: WidgetIdDef) -> (r: Result<Self, String>)
        ensures
            match r {
                Ok(w) => first_index_of(id.0@, ':') is Some && w@.text() == id.0@,
                Err(e) => first_index_of(id.0@, ':') is None && e@ == could_not_parse_text(id.0@),
            },
    {
        match WidgetId::from_str(id.0.as_str()) {
            Ok(w) => Ok(w),
            Err(_) => Err(could_not_parse_message(id.0.as_str())),
        }
    }
}

/// The message for an identifier text that does not parse.
pub open spec fn could_not_parse_text(text: Seq<char>) -> Seq<char> {
    "Could not parse id: `"@ + text + seq!['`']
}

fn could_not_parse_message(text: &str) -> (r: String)
    ensures
        r@ == could_not_parse_text(text@),
{
    let mut r = String::from_str("Could not parse id: `");
    r.append(text);
    push_char(&mut r, '`');
    r
}

} // verus!
