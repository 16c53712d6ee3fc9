//! The widget tree and its processing: components are rendered into nodes
//! until only units remain, each component getting its identifier, its
//! stored state (or a fresh one), the messages sent to it and the shared
//! properties of its ancestors.

use std::any::TypeId;
use vstd::prelude::*;

use crate::identity::{component_id_view, component_identity, combine_shared_props, item_key, path_view, slot_key};
use crate::input_field::decimal_digits;
use crate::messenger::Message;
use crate::props::Props;
use crate::queues::{queue_of, MessageQueues, QueuesView};
use crate::text::{join_parts, lemma_join_push};
use crate::widget_id::{WidgetId, WidgetIdView};
use crate::widget_ref::WidgetRef;

verus! {

/// A component's render function, written by the library's user: from the
/// component's identifier, key, properties, shared properties, state, the
/// messages sent to it and its listed slots, the node it renders to.
///
/// Verus does not take function pointers, so the pointer is hidden in this
/// type and reached only through [`ComponentProcessor::render`].
#[verifier::external_body]
#[derive(Copy)]
pub struct ComponentProcessor(
    pub fn(&WidgetId, &str, &Props, &Props, &Props, &[Message], Vec<WidgetNode>) -> WidgetNode,
);

impl Clone for ComponentProcessor {
    fn clone(&self) -> (r: Self)
        ensures
            r == *self,
    {
        *self
    }
}

impl ComponentProcessor {
    /// Calls the render function (a plain function of the library's user).
    ///
    /// Nothing is claimed of the node it returns.
    #[verifier::external_body]
    pub(crate) fn render(
        &self,
        id: &WidgetId,
        key: &str,
        props: &Props,
        shared_props: &Props,
        state: &Props,
        messages: &[Message],
        listed_slots: Vec<WidgetNode>,
    ) -> WidgetNode {
        (self.0)(id, key, props, shared_props, state, messages, listed_slots)
    }
}

/// A component not yet rendered.
pub struct WidgetComponent {
    pub processor: ComponentProcessor,
    /// The component's type name, the head of its identifier.
    pub kind: String,
    /// Its own key; without one it takes the key its place gives.
    pub key: Option<String>,
    /// A reference that learns the component's identifier.
    pub idref: Option<WidgetRef>,
    pub props: Props,
    pub shared_props: Option<Props>,
    pub listed_slots: Vec<WidgetNode>,
}

/// The kinds of layout units.
#[derive(Debug, Clone, Copy)]
pub enum UnitKind {
    Empty,
    AreaBox,
    PortalBox,
    ContentBox,
    FlexBox,
    GridBox,
    SizeBox,
    ImageBox,
    TextBox,
}

/// A layout unit whose slots may still hold components; its layout
/// parameters are carried in `data`.
pub struct WidgetUnitNode {
    pub kind: UnitKind,
    pub id: WidgetId,
    pub data: Props,
    pub slots: Vec<WidgetNode>,
}

/// A node of the widget tree.
pub enum WidgetNode {
    Empty,
    Component(WidgetComponent),
    Unit(WidgetUnitNode),
}

/// Whether a unit kind has a single slot (its child takes the key `.`);
/// the others hold items, keyed `<index>`.
pub open spec fn single_slot(kind: UnitKind) -> bool {
    kind is AreaBox || kind is PortalBox || kind is SizeBox
}

/// The key that the child in slot `i` of a unit of kind `kind` takes when it
/// has none of its own.
pub open spec fn slot_key_view(kind: UnitKind, i: int) -> Seq<char> {
    if single_slot(kind) {
        seq!['.']
    } else {
        seq!['<'] + decimal_digits(i as nat) + seq!['>']
    }
}

/// No component is left in the tree: only units and empty nodes.
pub open spec fn is_processed(n: WidgetNode) -> bool
    decreases n,
{
    match n {
        WidgetNode::Empty => true,
        WidgetNode::Component(_) => false,
        WidgetNode::Unit(u) => slots_processed(u.slots@),
    }
}

/// No component is left in any of the nodes.
pub open spec fn slots_processed(s: Seq<WidgetNode>) -> bool
    decreases s,
{
    if s.len() == 0 {
        true
    } else {
        is_processed(s[0]) && slots_processed(s.subrange(1, s.len() as int))
    }
}

/// The nodes are processed exactly when each one is.
proof fn lemma_slots_processed(s: Seq<WidgetNode>)
    ensures
        slots_processed(s) == (forall|i: int| 0 <= i < s.len() ==> #[trigger] is_processed(s[i])),
    decreases s.len(),
{
    if s.len() > 0 {
        let t = s.subrange(1, s.len() as int);
        assert(slots_processed(s) == (is_processed(s[0]) && slots_processed(t)));
        lemma_slots_processed(t);
        if forall|i: int| 0 <= i < s.len() ==> #[trigger] is_processed(s[i]) {
            assert forall|i: int| 0 <= i < t.len() implies #[trigger] is_processed(t[i]) by {
                assert(t[i] == s[i + 1]);
            }
        }
        if slots_processed(s) {
            assert forall|i: int| 0 <= i < s.len() implies #[trigger] is_processed(s[i]) by {
                if i > 0 {
                    assert(s[i] == t[i - 1]);
                }
            }
        }
    }
}

/// The identifier a component takes under `path`.
pub open spec fn component_id_at(c: WidgetComponent, path: Seq<Seq<char>>, possible_key: Seq<char>) -> WidgetIdView {
    WidgetIdView { typed: true, kind: c.kind@, parts: path.push(taken_key(c, possible_key)) }
}

/// How a walk went: for a component, the node it rendered to and how
/// that was processed; for a unit, the components met in each slot and how
/// the slot was processed.
pub enum WalkTrace {
    Done,
    Render(Box<WidgetNode>, Box<WalkTrace>),
    Slots(Seq<(Seq<WidgetIdView>, WalkTrace)>),
}

/// The components met in the slots, slot after slot.
pub open spec fn concat_used(parts: Seq<(Seq<WidgetIdView>, WalkTrace)>) -> Seq<WidgetIdView>
    decreases parts.len(),
{
    if parts.len() == 0 {
        Seq::empty()
    } else {
        concat_used(parts.drop_last()) + parts.last().0
    }
}

/// The views of identifiers.
pub open spec fn ids_view(s: Seq<WidgetId>) -> Seq<WidgetIdView> {
    s.map_values(|w: WidgetId| w@)
}

/// Processing `node` under `path` (with `possible_key` for a component
/// without a key of its own, and `depth` levels left) gives `out` while
/// meeting the components `used`, in order, the way `trace` records:
/// nothing below the depth limit or for an empty node; for a component, its
/// identifier `kind:path/key` (unless that would not fit in memory) and
/// then what processing the node it rendered to gives under `path/key`;
/// for a unit, a unit of the same kind and identifier whose slot `i` is
/// what processing slot `i` gives, with the key `.` or `<i>`, the
/// components met slot after slot.
pub open spec fn processes_to(
    node: WidgetNode,
    path: Seq<Seq<char>>,
    possible_key: Seq<char>,
    depth: nat,
    out: WidgetNode,
    used: Seq<WidgetIdView>,
    trace: WalkTrace,
) -> bool
    decreases depth, 1nat, 0nat,
{
    if depth == 0 {
        out is Empty && used.len() == 0
    } else {
        match node {
            WidgetNode::Empty => out is Empty && used.len() == 0,
            WidgetNode::Component(c) => {
                let id = component_id_at(c, path, possible_key);
                if id.text().len() > usize::MAX {
                    out is Empty && used.len() == 0
                } else {
                    &&& used.len() > 0
                    &&& used[0] == id
                    &&& match trace {
                        WalkTrace::Render(r, t) => processes_to(
                            *r,
                            path.push(taken_key(c, possible_key)),
                            possible_key,
                            (depth - 1) as nat,
                            out,
                            used.drop_first(),
                            *t,
                        ),
                        _ => false,
                    }
                }
            },
            WidgetNode::Unit(u) => match (out, trace) {
                (WidgetNode::Unit(v), WalkTrace::Slots(parts)) => {
                    &&& v.kind == u.kind
                    &&& v.id@ == u.id@
                    &&& used == concat_used(parts)
                    &&& slots_process(u.slots@, v.slots@, parts, path, u.kind, depth)
                },
                _ => false,
            },
        }
    }
}

/// Each slot of `ins` processes (one level down from `depth`) to the slot
/// of `outs` at the same position, meeting the components and going the
/// way `parts` records.
pub open spec fn slots_process(
    ins: Seq<WidgetNode>,
    outs: Seq<WidgetNode>,
    parts: Seq<(Seq<WidgetIdView>, WalkTrace)>,
    path: Seq<Seq<char>>,
    kind: UnitKind,
    depth: nat,
) -> bool
    decreases depth, 0nat, ins.len(),
{
    if depth == 0 {
        false
    } else if ins.len() == 0 {
        outs.len() == 0 && parts.len() == 0
    } else {
        &&& outs.len() == ins.len()
        &&& parts.len() == ins.len()
        &&& slots_process(ins.drop_last(), outs.drop_last(), parts.drop_last(), path, kind, depth)
        &&& processes_to(
            ins.last(),
            path,
            slot_key_view(kind, ins.len() - 1),
            (depth - 1) as nat,
            outs.last(),
            parts.last().0,
            parts.last().1,
        )
    }
}

/// Whether the identifier text of a component of type `kind` under `path`
/// with key `key` fits in memory.
fn component_id_fits(kind: &str, path: &[String], key: &str) -> (r: bool)
    ensures
        r == (component_id_view(kind@, path@, key@).text().len() <= usize::MAX),
{
    let ghost parts = path_view(path@).push(key@);
    let ghost full = component_id_view(kind@, path@, key@).text();
    assert(full =~= kind@ + seq![':'] + join_parts(parts));
    let mut acc: usize = match kind.unicode_len().checked_add(1) {
        Some(v) => v,
        None => return false,
    };
    // `acc` counts the type name, the `:` and the parts joined so far.
    let mut i: usize = 0;
    let n = path.len();
    while i < n
        invariant
            n == path@.len(),
            i <= n,
            parts == path_view(path@).push(key@),
            acc == kind@.len() + 1 + join_parts(parts.take(i as int)).len() + (if i > 0 { 1int } else { 0int }),
        decreases n - i,
    {
        let plen = path[i].as_str().unicode_len();
        proof {
            assert(parts.take(i + 1) =~= parts.take(i as int).push(parts[i as int]));
            assert(parts[i as int] == path@[i as int]@);
            if i > 0 {
                lemma_join_push(parts.take(i as int), parts[i as int]);
            } else {
                assert(parts.take(1) =~= seq![parts[0]]);
                assert(join_parts(seq![parts[0]]) == parts[0]);
                assert(parts.take(0) =~= Seq::<Seq<char>>::empty());
            }
        }
        acc = match acc.checked_add(plen) {
            Some(v) => v,
            None => {
                proof {
                    lemma_join_take_len(parts, i as int + 1);
                }
                return false;
            },
        };
        // the separator after this part
        acc = match acc.checked_add(1) {
            Some(v) => v,
            None => {
                proof {
                    assert(parts.take(i + 2) =~= parts.take(i + 1).push(parts[i + 1]));
                    lemma_join_push(parts.take(i + 1), parts[i + 1]);
                    lemma_join_take_len(parts, i as int + 2);
                }
                return false;
            },
        };
        i = i + 1;
    }
    let klen = key.unicode_len();
    proof {
        assert(parts.take(n as int + 1) =~= parts);
        if n > 0 {
            assert(parts.take(n as int + 1) =~= parts.take(n as int).push(key@));
            lemma_join_push(parts.take(n as int), key@);
        } else {
            assert(parts =~= seq![key@]);
            assert(join_parts(seq![key@]) == key@);
        }
    }
    match acc.checked_add(klen) {
        Some(_) => true,
        None => false,
    }
}

/// The joined text of the first `k` parts is no longer than that of all.
proof fn lemma_join_take_len(parts: Seq<Seq<char>>, k: int)
    requires
        1 <= k <= parts.len(),
    ensures
        join_parts(parts.take(k)).len() <= join_parts(parts).len(),
    decreases parts.len() - k,
{
    if k < parts.len() {
        assert(parts.take(k + 1) =~= parts.take(k).push(parts[k]));
        lemma_join_push(parts.take(k), parts[k]);
        lemma_join_take_len(parts, k + 1);
    } else {
        assert(parts.take(k) =~= parts);
    }
}

/// Some identifier at position `from` or later in `ids` has the text `t`.
pub open spec fn used_from(ids: Seq<WidgetId>, from: int, t: Seq<char>) -> bool {
    exists|i: int| from <= i < ids.len() && #[trigger] ids[i]@.text() == t
}

/// A stored state exists for the identifier text `t`.
pub open spec fn has_state(states: Seq<(WidgetId, Props)>, t: Seq<char>) -> bool {
    exists|i: int| 0 <= i < states.len() && #[trigger] states[i].0@.text() == t
}

/// The identifiers from position `from` on lie strictly under `path`.
pub open spec fn all_under(ids: Seq<WidgetId>, from: int, path: Seq<Seq<char>>) -> bool {
    forall|i: int|
        from <= i < ids.len() ==> path.is_prefix_of(#[trigger] ids[i]@.parts) && ids[i]@.parts.len()
            > path.len()
}

/// The messages of the identifiers used from position `from` on are taken
/// out; every other queue is as it was.
pub open spec fn messages_taken(before: QueuesView, after: QueuesView, ids: Seq<WidgetId>, from: int) -> bool {
    forall|t: Seq<char>| #[trigger]
        queue_of(after, t) == if used_from(ids, from, t) {
            Seq::<Message>::empty()
        } else {
            queue_of(before, t)
        }
}

/// The state entries from position `nfrom` on are empty states of
/// identifiers used from position `from` on that had no stored state.
pub open spec fn fresh_states(
    states: Seq<(WidgetId, Props)>,
    new_states: Seq<(WidgetId, Props)>,
    nfrom: int,
    ids: Seq<WidgetId>,
    from: int,
) -> bool {
    forall|j: int|
        nfrom <= j < new_states.len() ==> {
            &&& used_from(ids, from, (#[trigger] new_states[j]).0@.text())
            &&& !has_state(states, new_states[j].0@.text())
            &&& new_states[j].1@.dom().len() == 0
        }
}

/// Each identifier used from position `from` on that had no stored state
/// has an entry from position `nfrom` on.
pub open spec fn states_recorded(
    states: Seq<(WidgetId, Props)>,
    new_states: Seq<(WidgetId, Props)>,
    nfrom: int,
    ids: Seq<WidgetId>,
    from: int,
) -> bool {
    forall|i: int|
        from <= i < ids.len() && !has_state(states, (#[trigger] ids[i])@.text()) ==> exists|j: int|
            nfrom <= j < new_states.len() && (#[trigger] new_states[j]).0@.text() == ids[i]@.text()
}

/// What processing a part of the tree under `path` does: it appends the
/// identifiers of the components it meets (all under `path`), takes their
/// messages out of the queues, and records an empty state for each of them
/// that had no stored one.
pub open spec fn walked(
    states: Seq<(WidgetId, Props)>,
    path: Seq<Seq<char>>,
    used_before: Seq<WidgetId>,
    used_after: Seq<WidgetId>,
    queues_before: QueuesView,
    queues_after: QueuesView,
    new_before: Seq<(WidgetId, Props)>,
    new_after: Seq<(WidgetId, Props)>,
) -> bool {
    &&& used_before.is_prefix_of(used_after)
    &&& new_before.is_prefix_of(new_after)
    &&& all_under(used_after, used_before.len() as int, path)
    &&& messages_taken(queues_before, queues_after, used_after, used_before.len() as int)
    &&& fresh_states(states, new_after, new_before.len() as int, used_after, used_before.len() as int)
    &&& states_recorded(states, new_after, new_before.len() as int, used_after, used_before.len() as int)
}

proof fn lemma_walked_refl(
    states: Seq<(WidgetId, Props)>,
    path: Seq<Seq<char>>,
    u: Seq<WidgetId>,
    q: QueuesView,
    n: Seq<(WidgetId, Props)>,
)
    ensures
        walked(states, path, u, u, q, q, n, n),
{
    assert(u =~= u.subrange(0, u.len() as int));
    assert(n =~= n.subrange(0, n.len() as int));
}

proof fn lemma_walked_trans(
    states: Seq<(WidgetId, Props)>,
    path: Seq<Seq<char>>,
    u0: Seq<WidgetId>,
    u1: Seq<WidgetId>,
    u2: Seq<WidgetId>,
    q0: QueuesView,
    q1: QueuesView,
    q2: QueuesView,
    n0: Seq<(WidgetId, Props)>,
    n1: Seq<(WidgetId, Props)>,
    n2: Seq<(WidgetId, Props)>,
)
    requires
        walked(states, path, u0, u1, q0, q1, n0, n1),
        walked(states, path, u1, u2, q1, q2, n1, n2),
    ensures
        walked(states, path, u0, u2, q0, q2, n0, n2),
{
    let a = u0.len() as int;
    let b = u1.len() as int;
    assert(u0 =~= u2.subrange(0, a)) by {
        assert forall|i: int| 0 <= i < a implies u0[i] == u2[i] by {
            assert(u0[i] == u1[i]);
            assert(u1[i] == u2[i]);
        }
    }
    assert(n0 =~= n2.subrange(0, n0.len() as int)) by {
        assert forall|i: int| 0 <= i < n0.len() implies n0[i] == n2[i] by {
            assert(n0[i] == n1[i]);
            assert(n1[i] == n2[i]);
        }
    }
    assert forall|i: int| a <= i < u2.len() implies path.is_prefix_of(#[trigger] u2[i]@.parts)
        && u2[i]@.parts.len() > path.len() by {
        if i < b {
            assert(u1[i] == u2[i]);
        }
    }
    assert forall|t: Seq<char>| used_from(u2, a, t) == (used_from(u1, a, t) || used_from(u2, b, t)) by {
        if used_from(u1, a, t) {
            let i = choose|i: int| a <= i < u1.len() && #[trigger] u1[i]@.text() == t;
            assert(u2[i] == u1[i]);
        }
        if used_from(u2, a, t) && !used_from(u2, b, t) {
            let i = choose|i: int| a <= i < u2.len() && #[trigger] u2[i]@.text() == t;
            assert(u2[i] == u1[i]);
        }
    }
    assert forall|t: Seq<char>| #[trigger]
        queue_of(q2, t) == if used_from(u2, a, t) {
            Seq::<Message>::empty()
        } else {
            queue_of(q0, t)
        } by {
        assert(queue_of(q1, t) == if used_from(u1, a, t) {
            Seq::<Message>::empty()
        } else {
            queue_of(q0, t)
        });
        assert(queue_of(q2, t) == if used_from(u2, b, t) {
            Seq::<Message>::empty()
        } else {
            queue_of(q1, t)
        });
    }
    assert forall|j: int| n0.len() <= j < n2.len() implies {
        &&& used_from(u2, a, (#[trigger] n2[j]).0@.text())
        &&& !has_state(states, n2[j].0@.text())
        &&& n2[j].1@.dom().len() == 0
    } by {
        if j < n1.len() {
            assert(n1[j] == n2[j]);
            assert(used_from(u1, a, n1[j].0@.text()));
        } else {
            assert(used_from(u2, b, n2[j].0@.text()));
        }
    }
    assert forall|i: int|
        a <= i < u2.len() && !has_state(states, (#[trigger] u2[i])@.text()) implies exists|j: int|
            n0.len() <= j < n2.len() && (#[trigger] n2[j]).0@.text() == u2[i]@.text() by {
        if i < b {
            assert(u1[i] == u2[i]);
            let j = choose|j: int| n0.len() <= j < n1.len() && (#[trigger] n1[j]).0@.text() == u1[i]@.text();
            assert(n1[j] == n2[j]);
        } else {
            let j = choose|j: int| n1.len() <= j < n2.len() && (#[trigger] n2[j]).0@.text() == u2[i]@.text();
        }
    }
}

/// Identifiers under a longer path lie under every prefix of it.
proof fn lemma_walked_widen(
    states: Seq<(WidgetId, Props)>,
    path: Seq<Seq<char>>,
    longer: Seq<Seq<char>>,
    u0: Seq<WidgetId>,
    u1: Seq<WidgetId>,
    q0: QueuesView,
    q1: QueuesView,
    n0: Seq<(WidgetId, Props)>,
    n1: Seq<(WidgetId, Props)>,
)
    requires
        walked(states, longer, u0, u1, q0, q1, n0, n1),
        path.is_prefix_of(longer),
    ensures
        walked(states, path, u0, u1, q0, q1, n0, n1),
{
    assert forall|i: int| u0.len() <= i < u1.len() implies path.is_prefix_of(#[trigger] u1[i]@.parts)
        && u1[i]@.parts.len() > path.len() by {
        assert forall|k: int| 0 <= k < path.len() implies path[k] == u1[i]@.parts[k] by {
            assert(path[k] == longer[k]);
        }
    }
}

/// The position of the stored state of `id`, if any.
fn find_state(states: &Vec<(WidgetId, Props)>, id: &WidgetId) -> (r: Option<usize>)
    ensures
        match r {
            Some(i) => i < states@.len() && states@[i as int].0@.text() == id@.text(),
            None => !has_state(states@, id@.text()),
        },
{
    let mut i: usize = 0;
    while i < states.len()
        invariant
            i <= states@.len(),
            forall|j: int| 0 <= j < i ==> (#[trigger] states@[j]).0@.text() != id@.text(),
        decreases states@.len() - i,
    {
        if states[i].0 == *id {
            return Some(i);
        }
        i = i + 1;
    }
    None
}

/// The key a component takes: its own, or else `possible_key`.
pub open spec fn taken_key(c: WidgetComponent, possible_key: Seq<char>) -> Seq<char> {
    match c.key {
        Some(k) => k@,
        None => possible_key,
    }
}

/// Renders `node` and everything it renders to, under `path`, until only
/// units are left.
///
/// A component takes the key of its own or `possible_key`, gets the
/// identifier `kind:path/key` (recorded in `used_ids` and told to its
/// `idref`), the messages waiting for it (taken out of `messages`), its
/// stored state from `states` or else a fresh empty one (recorded in
/// `new_states`), and the shared properties passed down merged with its
/// own; what it renders to is processed under its path, with those shared
/// properties passed down. A unit's slots are processed in order, each with
/// the key `.` (single-slot units) or `<index>`.
///
/// Nesting deeper than `depth` renders nothing, and so does a component
/// whose identifier text would not fit in memory.
pub fn process_node(
    node: WidgetNode,
    states: &Vec<(WidgetId, Props)>,
    path: &Vec<String>,
    possible_key: &str,
    master_shared_props: Option<Props>,
    messages: &mut MessageQueues,
    new_states: &mut Vec<(WidgetId, Props)>,
    used_ids: &mut Vec<WidgetId>,
    depth: usize,
) -> (r: WidgetNode)
    ensures
        is_processed(r),
        walked(
            states@,
            path_view(path@),
            old(used_ids)@,
            final(used_ids)@,
            old(messages)@,
            final(messages)@,
            old(new_states)@,
            final(new_states)@,
        ),
        depth == 0 || node is Empty ==> r is Empty && final(used_ids)@ == old(used_ids)@,
        depth > 0 ==> match node {
            WidgetNode::Component(c) => component_id_view(c.kind@, path@, taken_key(c, possible_key@)).text().len()
                <= usize::MAX ==> {
                let id = component_id_view(c.kind@, path@, taken_key(c, possible_key@));
                &&& final(used_ids)@.len() > old(used_ids)@.len()
                &&& final(used_ids)@[old(used_ids)@.len() as int]@ == id
                &&& !has_state(states@, id.text()) ==> final(new_states)@.len() > old(new_states)@.len()
                    && final(new_states)@[old(new_states)@.len() as int].0@ == id
            },
            WidgetNode::Unit(u) => r matches WidgetNode::Unit(v) && v.kind == u.kind && v.id@ == u.id@
                && v.slots@.len() == u.slots@.len(),
            WidgetNode::Empty => r is Empty,
        },
        exists|t: WalkTrace| #[trigger]
            processes_to(
                node,
                path_view(path@),
                possible_key@,
                depth as nat,
                r,
                ids_view(final(used_ids)@).subrange(old(used_ids)@.len() as int, final(used_ids)@.len() as int),
                t,
            ),
    decreases depth,
{
    let ghost u0 = used_ids@;
    let ghost q0 = messages@;
    let ghost n0 = new_states@;
    proof {
        lemma_walked_refl(states@, path_view(path@), u0, q0, n0);
    }
    let ghost nodev = node;
    proof {
        assert(ids_view(u0).subrange(u0.len() as int, u0.len() as int) =~= Seq::<WidgetIdView>::empty());
    }
    if depth == 0 {
        let r = WidgetNode::Empty;
        assert(is_processed(r));
        assert(processes_to(nodev, path_view(path@), possible_key@, depth as nat, r, Seq::empty(), WalkTrace::Done));
        return r;
    }
    match node {
        WidgetNode::Empty => {
            let r = WidgetNode::Empty;
            assert(is_processed(r));
            assert(processes_to(nodev, path_view(path@), possible_key@, depth as nat, r, Seq::empty(), WalkTrace::Done));
            r
        },
        WidgetNode::Component(c) => {
            let ghost cv = c;
            let WidgetComponent { processor, kind, key, idref, props, shared_props, listed_slots } = c;
            let own_key: Option<&str> = match &key {
                Some(k) => Some(k.as_str()),
                None => None,
            };
            let chosen: &str = match &key {
                Some(k) => k.as_str(),
                None => possible_key,
            };
            assert(chosen@ == taken_key(cv, possible_key@));
            if !component_id_fits(kind.as_str(), path.as_slice(), chosen) {
                let r = WidgetNode::Empty;
                assert(is_processed(r));
                assert(component_id_view(cv.kind@, path@, taken_key(cv, possible_key@)) == component_id_at(
                    cv,
                    path_view(path@),
                    possible_key@,
                ));
                assert(processes_to(nodev, path_view(path@), possible_key@, depth as nat, r, Seq::empty(), WalkTrace::Done));
                return r;
            }
            let shared = combine_shared_props(master_shared_props, shared_props);
            let (id, key, new_path) = component_identity(kind.as_str(), path.as_slice(), own_key, possible_key);
            let ghost idv = id@;
            used_ids.push(id.clone());
            match idref {
                Some(r) => {
                    let mut r = r;
                    r.write(id.clone());
                },
                None => {},
            }
            let waiting = messages.take(&id);
            let rendered = match find_state(states, &id) {
                Some(i) => processor.render(
                    &id,
                    key.as_str(),
                    &props,
                    &shared,
                    &states[i].1,
                    waiting.as_slice(),
                    listed_slots,
                ),
                None => {
                    let fresh = Props::default();
                    let n = processor.render(
                        &id,
                        key.as_str(),
                        &props,
                        &shared,
                        &fresh,
                        waiting.as_slice(),
                        listed_slots,
                    );
                    new_states.push((id.clone(), fresh));
                    n
                },
            };
            let ghost u1 = used_ids@;
            let ghost q1 = messages@;
            let ghost n1 = new_states@;
            proof {
                let pv = path_view(path@);
                assert(u1.len() == u0.len() + 1);
                assert(u1[u0.len() as int]@ == idv);
                assert(u0 =~= u1.subrange(0, u0.len() as int));
                assert(n0 =~= n1.subrange(0, n0.len() as int));
                assert(idv.parts == pv.push(key@));
                assert(pv =~= idv.parts.subrange(0, pv.len() as int));
                assert forall|t: Seq<char>| used_from(u1, u0.len() as int, t) == (t == idv.text()) by {
                    if t == idv.text() {
                        assert(u1[u0.len() as int]@.text() == t);
                    }
                }
                if !has_state(states@, idv.text()) {
                    assert(n1.len() == n0.len() + 1);
                    assert(n1[n0.len() as int].0@.text() == u1[u0.len() as int]@.text());
                } else {
                    assert(n1 =~= n0);
                }
                assert(walked(states@, pv, u0, u1, q0, q1, n0, n1));
            }
            let ghost rn = rendered;
            let r = process_node(
                rendered,
                states,
                &new_path,
                possible_key,
                Some(shared),
                messages,
                new_states,
                used_ids,
                depth - 1,
            );
            proof {
                let pv = path_view(path@);
                assert(pv.is_prefix_of(path_view(new_path@))) by {
                    assert(path_view(new_path@) == pv.push(key@));
                    assert(pv =~= path_view(new_path@).subrange(0, pv.len() as int));
                }
                lemma_walked_widen(
                    states@,
                    pv,
                    path_view(new_path@),
                    u1,
                    used_ids@,
                    q1,
                    messages@,
                    n1,
                    new_states@,
                );
                lemma_walked_trans(states@, pv, u0, u1, used_ids@, q0, q1, messages@, n0, n1, new_states@);
                assert(used_ids@[u0.len() as int] == u1[u0.len() as int]);
                if !has_state(states@, idv.text()) {
                    assert(new_states@[n0.len() as int] == n1[n0.len() as int]);
                }
                let seg = ids_view(used_ids@).subrange(u1.len() as int, used_ids@.len() as int);
                let t2 = choose|t: WalkTrace| #[trigger]
                    processes_to(rn, path_view(new_path@), possible_key@, (depth - 1) as nat, r, seg, t);
                let all = ids_view(used_ids@).subrange(u0.len() as int, used_ids@.len() as int);
                assert(all.drop_first() =~= seg);
                assert(all[0] == idv);
                assert(idv == component_id_at(cv, pv, possible_key@));
                assert(path_view(new_path@) == pv.push(taken_key(cv, possible_key@)));
                assert(processes_to(
                    nodev,
                    pv,
                    possible_key@,
                    depth as nat,
                    r,
                    all,
                    WalkTrace::Render(Box::new(rn), Box::new(t2)),
                ));
            }
            r
        },
        WidgetNode::Unit(u) => {
            let WidgetUnitNode { kind, id, data, slots } = u;
            let ghost count = slots@.len();
            let single = match kind {
                UnitKind::AreaBox | UnitKind::PortalBox | UnitKind::SizeBox => true,
                _ => false,
            };
            let ghost s0 = slots@;
            let mut rest = slots;
            let total = rest.len();
            assert(total == count);
            let mut done: Vec<WidgetNode> = Vec::new();
            let mut index: usize = 0;
            let ghost mut parts: Seq<(Seq<WidgetIdView>, WalkTrace)> = Seq::empty();
            proof {
                assert(s0.take(0) =~= Seq::<WidgetNode>::empty());
                assert(done@ =~= Seq::<WidgetNode>::empty());
                assert(slots_process(s0.take(0), done@, parts, path_view(path@), kind, depth as nat));
                assert(ids_view(used_ids@).subrange(u0.len() as int, used_ids@.len() as int) =~= concat_used(parts));
                assert(rest@ =~= s0.subrange(0, count as int));
            }
            while rest.len() > 0
                invariant
                    done@.len() + rest@.len() == count,
                    s0.len() == count,
                    rest@ == s0.subrange(index as int, count as int),
                    slots_process(s0.take(index as int), done@, parts, path_view(path@), kind, depth as nat),
                    concat_used(parts) == ids_view(used_ids@).subrange(u0.len() as int, used_ids@.len() as int),
                    single == single_slot(kind),
                    parts.len() == index,
                    count <= usize::MAX,
                    depth > 0,
                    index == done@.len(),
                    forall|k: int| 0 <= k < done@.len() ==> #[trigger] is_processed(done@[k]),
                    walked(
                        states@,
                        path_view(path@),
                        u0,
                        used_ids@,
                        q0,
                        messages@,
                        n0,
                        new_states@,
                    ),
                decreases rest@.len(),
            {
                let ghost parts0 = parts;
                let child = rest.remove(0);
                proof {
                    assert(child == s0[index as int]);
                    assert(rest@ =~= s0.subrange(index + 1, count as int));
                }
                let child_key = if single {
                    slot_key()
                } else {
                    item_key(index)
                };
                let master = match &master_shared_props {
                    Some(m) => Some(m.clone()),
                    None => None,
                };
                let ghost ub = used_ids@;
                let ghost qb = messages@;
                let ghost nb = new_states@;
                let processed = process_node(
                    child,
                    states,
                    path,
                    child_key.as_str(),
                    master,
                    messages,
                    new_states,
                    used_ids,
                    depth - 1,
                );
                proof {
                    lemma_walked_trans(
                        states@,
                        path_view(path@),
                        u0,
                        ub,
                        used_ids@,
                        q0,
                        qb,
                        messages@,
                        n0,
                        nb,
                        new_states@,
                    );
                    let seg = ids_view(used_ids@).subrange(ub.len() as int, used_ids@.len() as int);
                    let tk = choose|t: WalkTrace| #[trigger]
                        processes_to(s0[index as int], path_view(path@), child_key@, (depth - 1) as nat, processed, seg, t);
                    assert(child_key@ == slot_key_view(kind, index as int));
                    let old_parts = parts;
                    parts = parts.push((seg, tk));
                    assert(concat_used(parts) =~= ids_view(used_ids@).subrange(u0.len() as int, used_ids@.len() as int)) by {
                        assert(parts.drop_last() == old_parts);
                        assert(ub.is_prefix_of(used_ids@));
                        assert(ids_view(used_ids@).subrange(u0.len() as int, ub.len() as int) =~= ids_view(ub).subrange(
                            u0.len() as int,
                            ub.len() as int,
                        ));
                    }
                }
                let ghost done0 = done@;
                done.push(processed);
                proof {
                    assert(s0.take(index + 1).drop_last() =~= s0.take(index as int));
                    assert(s0.take(index + 1).last() == s0[index as int]);
                    assert(done@.drop_last() =~= done0);
                    assert(parts.drop_last() =~= parts0);
                    assert(done@.last() == processed);
                    let pv = path_view(path@);
                    assert(slots_process(s0.take(index as int), done0, parts0, pv, kind, depth as nat));
                    assert(processes_to(
                        s0.take(index + 1).last(),
                        pv,
                        slot_key_view(kind, index as int),
                        (depth - 1) as nat,
                        done@.last(),
                        parts.last().0,
                        parts.last().1,
                    ));
                    assert(slots_process(s0.take(index + 1), done@, parts, pv, kind, depth as nat));
                }
                index = index + 1;
            }
            let ghost final_parts = parts;
            let r = WidgetNode::Unit(WidgetUnitNode { kind, id, data, slots: done });
            proof {
                assert(s0.take(index as int) =~= s0);
                assert(processes_to(
                    nodev,
                    path_view(path@),
                    possible_key@,
                    depth as nat,
                    r,
                    ids_view(used_ids@).subrange(u0.len() as int, used_ids@.len() as int),
                    WalkTrace::Slots(final_parts),
                ));
            }
            proof {
                lemma_slots_processed(done@);
                assert(r->Unit_0.slots@ == done@);
            }
            r
        },
    }
}

/// The state stored for the identifier text `t`: that of the last entry
/// with that text.
pub open spec fn state_at(s: Seq<(WidgetId, Props)>, t: Seq<char>) -> Option<Props>
    decreases s.len(),
{
    if s.len() == 0 {
        None
    } else if s.last().0@.text() == t {
        Some(s.last().1)
    } else {
        state_at(s.drop_last(), t)
    }
}

/// No identifier text has two entries.
pub open spec fn distinct_states(s: Seq<(WidgetId, Props)>) -> bool {
    forall|i: int, j: int|
        0 <= i < j < s.len() ==> (#[trigger] s[i]).0@.text() != (#[trigger] s[j]).0@.text()
}

/// The state of `t` after `changes` are laid over `base`, later changes
/// winning.
pub open spec fn overlaid_at(base: Seq<(WidgetId, Props)>, changes: Seq<(WidgetId, Props)>, t: Seq<char>) -> Option<Props> {
    match state_at(changes, t) {
        Some(p) => Some(p),
        None => state_at(base, t),
    }
}

pub(crate) proof fn lemma_state_at(s: Seq<(WidgetId, Props)>, t: Seq<char>)
    ensures
        (state_at(s, t) is None) == !has_state(s, t),
        state_at(s, t) matches Some(p) ==> exists|i: int|
            0 <= i < s.len() && (#[trigger] s[i]).0@.text() == t && s[i].1 == p,
        distinct_states(s) ==> forall|i: int|
            0 <= i < s.len() && (#[trigger] s[i]).0@.text() == t ==> state_at(s, t) == Some(s[i].1),
    decreases s.len(),
{
    if s.len() > 0 {
        let d = s.drop_last();
        lemma_state_at(d, t);
        if has_state(s, t) && s.last().0@.text() != t {
            let i = choose|i: int| 0 <= i < s.len() && #[trigger] s[i].0@.text() == t;
            assert(d[i] == s[i]);
        }
        if has_state(d, t) {
            let i = choose|i: int| 0 <= i < d.len() && #[trigger] d[i].0@.text() == t;
            assert(d[i] == s[i]);
        }
        if state_at(s, t) is Some && s.last().0@.text() != t {
            let i = choose|i: int| 0 <= i < d.len() && (#[trigger] d[i]).0@.text() == t && d[i].1 == state_at(d, t)->Some_0;
            assert(d[i] == s[i]);
        }
        if s.last().0@.text() == t {
            assert(s[s.len() - 1] == s.last());
        }
        if distinct_states(s) {
            assert(distinct_states(d)) by {
                assert forall|i: int, j: int| 0 <= i < j < d.len() implies (#[trigger] d[i]).0@.text()
                    != (#[trigger] d[j]).0@.text() by {
                    assert(d[i] == s[i] && d[j] == s[j]);
                }
            }
            assert forall|i: int| 0 <= i < s.len() && (#[trigger] s[i]).0@.text() == t implies state_at(s, t)
                == Some(s[i].1) by {
                if i < s.len() - 1 {
                    assert(d[i] == s[i]);
                    assert(s[i].0@.text() != s[s.len() - 1].0@.text());
                }
            }
        }
    }
}

/// Stores `state` for `id` in a store with one entry per identifier,
/// replacing the entry that is there.
pub fn set_state(store: &mut Vec<(WidgetId, Props)>, id: WidgetId, state: Props)
    requires
        distinct_states(old(store)@),
    ensures
        distinct_states(final(store)@),
        forall|t: Seq<char>| #[trigger] state_at(final(store)@, t) == if t == id@.text() {
            Some(state)
        } else {
            state_at(old(store)@, t)
        },
{
    let ghost s0 = store@;
    let ghost idv = id@;
    let ghost st = state;
    match find_state(store, &id) {
        Some(i) => {
            let ghost old_id = s0[i as int].0;
            store.set(i, (id, state));
            proof {
                let s1 = store@;
                assert(distinct_states(s1)) by {
                    assert forall|a: int, b: int| 0 <= a < b < s1.len() implies (#[trigger] s1[a]).0@.text()
                        != (#[trigger] s1[b]).0@.text() by {
                        assert(s0[a].0@.text() != s0[b].0@.text());
                        if a == i {
                            assert(s0[i as int].0@.text() == s1[a].0@.text());
                        }
                        if b == i {
                            assert(s0[i as int].0@.text() == s1[b].0@.text());
                        }
                    }
                }
                assert forall|t: Seq<char>| #[trigger] state_at(s1, t) == if t == idv.text() {
                    Some(st)
                } else {
                    state_at(s0, t)
                } by {
                    lemma_state_at(s1, t);
                    lemma_state_at(s0, t);
                    if t == idv.text() {
                        assert(s1[i as int].0@.text() == t);
                    } else {
                        if has_state(s0, t) {
                            let j = choose|j: int| 0 <= j < s0.len() && #[trigger] s0[j].0@.text() == t;
                            assert(j != i);
                            assert(s1[j] == s0[j]);
                        }
                        if has_state(s1, t) {
                            let j = choose|j: int| 0 <= j < s1.len() && #[trigger] s1[j].0@.text() == t;
                            assert(s1[j] == s0[j]);
                        }
                    }
                }
            }
        },
        None => {
            store.push((id, state));
            proof {
                let s1 = store@;
                assert(s1.drop_last() =~= s0);
                assert(distinct_states(s1)) by {
                    assert forall|a: int, b: int| 0 <= a < b < s1.len() implies (#[trigger] s1[a]).0@.text()
                        != (#[trigger] s1[b]).0@.text() by {
                        if b == s1.len() - 1 {
                            assert(s1[a] == s0[a]);
                        } else {
                            assert(s1[a] == s0[a] && s1[b] == s0[b]);
                        }
                    }
                }
            }
        },
    }
}

/// The entries of `store` whose identifiers were used, each once.
pub(crate) fn keep_used(store: Vec<(WidgetId, Props)>, used: &Vec<WidgetId>) -> (r: Vec<(WidgetId, Props)>)
    requires
        distinct_states(store@),
    ensures
        distinct_states(r@),
        forall|t: Seq<char>| #[trigger] state_at(r@, t) == if used_from(used@, 0, t) {
            state_at(store@, t)
        } else {
            None
        },
{
    let ghost s0 = store@;
    let mut rest = store;
    let mut out: Vec<(WidgetId, Props)> = Vec::new();
    let ghost mut taken: int = 0;
    while rest.len() > 0
        invariant
            0 <= taken <= s0.len(),
            rest@ == s0.subrange(taken, s0.len() as int),
            distinct_states(s0),
            distinct_states(out@),
            forall|k: int| 0 <= k < out@.len() ==> used_from(used@, 0, (#[trigger] out@[k]).0@.text()),
            forall|k: int| #![trigger out@[k]] 0 <= k < out@.len() ==> exists|j: int|
                0 <= j < taken && (#[trigger] s0[j]) == out@[k],
            forall|j: int| #![trigger s0[j]] 0 <= j < taken && used_from(used@, 0, s0[j].0@.text()) ==> exists|k: int|
                0 <= k < out@.len() && (#[trigger] out@[k]) == s0[j],
        decreases rest@.len(),
    {
        let entry = rest.remove(0);
        let ghost e = entry;
        assert(e == s0[taken]);
        let mut found = false;
        let mut i: usize = 0;
        while i < used.len()
            invariant
                i <= used@.len(),
                found == (exists|j: int| 0 <= j < i && #[trigger] used@[j]@.text() == e.0@.text()),
                entry == e,
            decreases used@.len() - i,
        {
            if used[i] == entry.0 {
                found = true;
            }
            i = i + 1;
        }
        if found {
            let ghost o0 = out@;
            out.push(entry);
            proof {
                let o1 = out@;
                assert forall|a: int, b: int| 0 <= a < b < o1.len() implies (#[trigger] o1[a]).0@.text()
                    != (#[trigger] o1[b]).0@.text() by {
                    if b == o1.len() - 1 {
                        assert(o1[a] == o0[a]);
                        let j = choose|j: int| 0 <= j < taken && (#[trigger] s0[j]) == o0[a];
                        assert(s0[j].0@.text() != s0[taken].0@.text());
                    } else {
                        assert(o1[a] == o0[a] && o1[b] == o0[b]);
                    }
                }
                assert forall|k: int| 0 <= k < o1.len() implies used_from(used@, 0, (#[trigger] o1[k]).0@.text()) by {
                    if k < o0.len() {
                        assert(o1[k] == o0[k]);
                    }
                }
                assert forall|k: int| #![trigger o1[k]] 0 <= k < o1.len() implies exists|j: int|
                    0 <= j < taken + 1 && (#[trigger] s0[j]) == o1[k] by {
                    if k < o0.len() {
                        assert(o1[k] == o0[k]);
                        let j = choose|j: int| 0 <= j < taken && (#[trigger] s0[j]) == o0[k];
                    } else {
                        assert(s0[taken] == o1[k]);
                    }
                }
                assert forall|j: int| #![trigger s0[j]] 0 <= j < taken + 1 && used_from(used@, 0, s0[j].0@.text()) implies exists|k: int|
                    0 <= k < o1.len() && (#[trigger] o1[k]) == s0[j] by {
                    if j < taken {
                        let k = choose|k: int| 0 <= k < o0.len() && (#[trigger] o0[k]) == s0[j];
                        assert(o1[k] == o0[k]);
                    } else {
                        assert(o1[o1.len() - 1] == s0[j]);
                    }
                }
            }
        } else {
            proof {
                assert forall|j: int| #![trigger s0[j]] 0 <= j < taken + 1 && used_from(used@, 0, s0[j].0@.text()) implies exists|k: int|
                    0 <= k < out@.len() && (#[trigger] out@[k]) == s0[j] by {
                    if j == taken {
                        let u = choose|u: int| 0 <= u < used@.len() && #[trigger] used@[u]@.text() == s0[j].0@.text();
                        assert(used@[u]@.text() == e.0@.text());
                    }
                }
            }
        }
        proof {
            taken = taken + 1;
            assert(rest@ =~= s0.subrange(taken, s0.len() as int));
        }
    }
    proof {
        assert forall|t: Seq<char>| #[trigger] state_at(out@, t) == if used_from(used@, 0, t) {
            state_at(s0, t)
        } else {
            None
        } by {
            lemma_state_at(out@, t);
            lemma_state_at(s0, t);
            if state_at(out@, t) is Some {
                let k = choose|k: int| 0 <= k < out@.len() && (#[trigger] out@[k]).0@.text() == t && out@[k].1 == state_at(out@, t)->Some_0;
                let j = choose|j: int| 0 <= j < taken && (#[trigger] s0[j]) == out@[k];
                assert(used_from(used@, 0, out@[k].0@.text()));
            } else if used_from(used@, 0, t) && has_state(s0, t) {
                let j = choose|j: int| 0 <= j < s0.len() && #[trigger] s0[j].0@.text() == t;
                let k = choose|k: int| 0 <= k < out@.len() && (#[trigger] out@[k]) == s0[j];
                assert(out@[k].0@.text() == t);
            }
        }
    }
    out
}

/// The views of an optional key.
pub open spec fn key_view(k: Option<String>) -> Option<Seq<char>> {
    match k {
        Some(s) => Some(s@),
        None => None,
    }
}

/// The property names of optional shared properties.
pub open spec fn shared_names(p: Option<Props>) -> Option<Set<TypeId>> {
    match p {
        Some(q) => Some(q@.dom()),
        None => None,
    }
}

/// Two nodes are alike: the same kinds, keys, references, identifiers and
/// property names, with alike nodes below, all the way down.
pub open spec fn same_shape(a: WidgetNode, b: WidgetNode) -> bool
    decreases a,
{
    match a {
        WidgetNode::Empty => b is Empty,
        WidgetNode::Component(x) => match b {
            WidgetNode::Component(y) => {
                &&& x.kind@ == y.kind@
                &&& key_view(x.key) == key_view(y.key)
                &&& x.idref == y.idref
                &&& x.props@.dom() == y.props@.dom()
                &&& shared_names(x.shared_props) == shared_names(y.shared_props)
                &&& same_shapes(x.listed_slots@, y.listed_slots@)
            },
            _ => false,
        },
        WidgetNode::Unit(x) => match b {
            WidgetNode::Unit(y) => {
                &&& x.kind == y.kind
                &&& x.id@ == y.id@
                &&& x.data@.dom() == y.data@.dom()
                &&& same_shapes(x.slots@, y.slots@)
            },
            _ => false,
        },
    }
}

/// The nodes are alike position by position.
pub open spec fn same_shapes(a: Seq<WidgetNode>, b: Seq<WidgetNode>) -> bool
    decreases a,
{
    if a.len() == 0 {
        b.len() == 0
    } else {
        &&& b.len() == a.len()
        &&& same_shapes(a.drop_last(), b.drop_last())
        &&& same_shape(a.last(), b.last())
    }
}

/// Processing alike nodes goes alike.
pub proof fn lemma_same_shape_processes(
    a: WidgetNode,
    b: WidgetNode,
    path: Seq<Seq<char>>,
    possible_key: Seq<char>,
    depth: nat,
    out: WidgetNode,
    used: Seq<WidgetIdView>,
    trace: WalkTrace,
)
    requires
        same_shape(a, b),
    ensures
        processes_to(a, path, possible_key, depth, out, used, trace) == processes_to(
            b,
            path,
            possible_key,
            depth,
            out,
            used,
            trace,
        ),
    decreases depth, 1nat, 0nat,
{
    if depth > 0 {
        match a {
            WidgetNode::Component(x) => {
                let y = b->Component_0;
                assert(taken_key(x, possible_key) == taken_key(y, possible_key));
                assert(component_id_at(x, path, possible_key) == component_id_at(y, path, possible_key));
            },
            WidgetNode::Unit(x) => {
                let y = b->Unit_0;
                if out is Unit && trace is Slots {
                    lemma_same_shapes_slots(
                        x.slots@,
                        y.slots@,
                        out->Unit_0.slots@,
                        trace->Slots_0,
                        path,
                        x.kind,
                        depth,
                    );
                }
            },
            _ => {},
        }
    }
}

/// Processing alike slots goes alike.
pub proof fn lemma_same_shapes_slots(
    a: Seq<WidgetNode>,
    b: Seq<WidgetNode>,
    outs: Seq<WidgetNode>,
    parts: Seq<(Seq<WidgetIdView>, WalkTrace)>,
    path: Seq<Seq<char>>,
    kind: UnitKind,
    depth: nat,
)
    requires
        same_shapes(a, b),
    ensures
        slots_process(a, outs, parts, path, kind, depth) == slots_process(b, outs, parts, path, kind, depth),
    decreases depth, 0nat, a.len(),
{
    if depth > 0 && a.len() > 0 {
        lemma_same_shapes_slots(a.drop_last(), b.drop_last(), outs.drop_last(), parts.drop_last(), path, kind, depth);
        if parts.len() == a.len() {
            lemma_same_shape_processes(
                a.last(),
                b.last(),
                path,
                slot_key_view(kind, a.len() - 1),
                (depth - 1) as nat,
                outs.last(),
                parts.last().0,
                parts.last().1,
            );
        }
    }
}

/// A copy of a node and everything under it; references are shared, as
/// clones of a [`WidgetRef`] are.
pub fn clone_node(n: &WidgetNode) -> (r: WidgetNode)
    ensures
        same_shape(*n, r),
    decreases n,
{
    match n {
        WidgetNode::Empty => WidgetNode::Empty,
        WidgetNode::Component(c) => {
            let slots = clone_nodes(&c.listed_slots);
            WidgetNode::Component(
                WidgetComponent {
                    processor: c.processor.clone(),
                    kind: c.kind.clone(),
                    key: match &c.key {
                        Some(k) => Some(k.clone()),
                        None => None,
                    },
                    idref: match &c.idref {
                        Some(r) => Some(r.clone()),
                        None => None,
                    },
                    props: c.props.clone(),
                    shared_props: match &c.shared_props {
                        Some(p) => Some(p.clone()),
                        None => None,
                    },
                    listed_slots: slots,
                },
            )
        },
        WidgetNode::Unit(u) => {
            let slots = clone_nodes(&u.slots);
            WidgetNode::Unit(
                WidgetUnitNode { kind: u.kind, id: u.id.clone(), data: u.data.clone(), slots },
            )
        },
    }
}

/// Copies of the nodes, in order.
pub fn clone_nodes(v: &Vec<WidgetNode>) -> (r: Vec<WidgetNode>)
    ensures
        r@.len() == v@.len(),
        same_shapes(v@, r@),
    decreases v,
{
    let mut out: Vec<WidgetNode> = Vec::new();
    let mut i: usize = 0;
    proof {
        assert(v@.take(0) =~= Seq::<WidgetNode>::empty());
    }
    while i < v.len()
        invariant
            i <= v@.len(),
            out@.len() == i,
            same_shapes(v@.take(i as int), out@),
        decreases v@.len() - i,
    {
        proof {
            assert(decreases_to!(v => v@));
            assert(decreases_to!(v@ => v@[i as int]));
        }
        let c = clone_node(&v[i]);
        let ghost before = out@;
        out.push(c);
        proof {
            assert(v@.take(i + 1).drop_last() =~= v@.take(i as int));
            assert(out@.drop_last() =~= before);
        }
        i = i + 1;
    }
    proof {
        assert(v@.take(i as int) =~= v@);
    }
    out
}

} // verus!
