//! The change flag that tells the application to rebuild, and the causes of
//! a rebuild.

use std::sync::atomic::{AtomicBool, Ordering};
use std::sync::Arc;
use vstd::prelude::*;

use crate::identity::root_key;
use crate::messenger::Message;
use crate::props::Props;
use crate::queues::{queue_of, MessageQueues};
use crate::tree::{
    distinct_states, has_state, is_processed, overlaid_at, process_node, set_state, state_at,
    used_from, keep_used, lemma_state_at, clone_node, ids_view, processes_to,
    lemma_same_shape_processes, WalkTrace, WidgetNode,
};
use crate::identity::path_view;
use crate::widget_id::WidgetId;

verus! {

/// A flag shared between the application and data bindings; raising it asks
/// the application to process again. Clones share the flag.
#[derive(Debug, Clone)]
pub struct ChangeNotifier(Arc<AtomicBool>);

impl Default for ChangeNotifier {
    /// A lowered flag.
    fn default() -> (r: Self) {
        ChangeNotifier(Arc::new(AtomicBool::new(false)))
    }
}

impl ChangeNotifier {
    /// A flag holding `changed`.
    pub fn new(changed: bool) -> (r: Self) {
        ChangeNotifier(Arc::new(AtomicBool::new(changed)))
    }

    /// Raises the flag.
    pub fn change(&mut self)
        ensures
            *final(self) == *old(self),
    {
        self.0.store(true, Ordering::Relaxed);
    }

    /// Whether the flag is raised.
    pub fn has_changed(&self) -> (r: bool) {
        self.0.load(Ordering::Relaxed)
    }

    /// Lowers the flag and reports whether it was raised.
    pub fn consume_change(&mut self) -> (r: bool)
        ensures
            *final(self) == *old(self),
    {
        self.0.swap(false, Ordering::Relaxed)
    }
}

/// Why the application last rebuilt its tree.
#[derive(Debug, Clone)]
pub enum InvalidationCause {
    Nothing,
    Forced,
    StateChange(WidgetId),
    MessageReceived(WidgetId),
    AnimationInProgress(WidgetId),
}

impl Default for InvalidationCause {
    fn default() -> (r: Self)
        ensures
            r is Nothing,
    {
        InvalidationCause::Nothing
    }
}

/// Whether the application must process its tree this time, and why: a
/// changed state outranks a received message, which outranks a running
/// animation, which outranks a forced rebuild. `dirty` is whether a rebuild
/// was asked for (directly, or through the change flag); the identifiers
/// are one widget with a changed state, one with pending messages and one
/// with an animation in progress, where there are any. `None` when nothing
/// asks for processing.
pub fn invalidation_cause(
    dirty: bool,
    changed_state: Option<&WidgetId>,
    received_message: Option<&WidgetId>,
    animating: Option<&WidgetId>,
) -> (r: Option<InvalidationCause>)
    ensures
        match (changed_state, received_message, animating) {
            (Some(id), _, _) => r matches Some(InvalidationCause::StateChange(x)) && x@ == id@,
            (None, Some(id), _) => r matches Some(InvalidationCause::MessageReceived(x)) && x@ == id@,
            (None, None, Some(id)) => r matches Some(InvalidationCause::AnimationInProgress(x)) && x@
                == id@,
            (None, None, None) => if dirty {
                r matches Some(InvalidationCause::Forced)
            } else {
                r is None
            },
        },
{
    match changed_state {
        Some(id) => Some(InvalidationCause::StateChange(id.clone())),
        None => match received_message {
            Some(id) => Some(InvalidationCause::MessageReceived(id.clone())),
            None => match animating {
                Some(id) => Some(InvalidationCause::AnimationInProgress(id.clone())),
                None => if dirty {
                    Some(InvalidationCause::Forced)
                } else {
                    None
                },
            },
        },
    }
}

/// The key of the root node, `<*>`.
pub open spec fn root_key_text() -> Seq<char> {
    seq!['<', '*', '>']
}

/// How deep the widget tree may nest before processing stops descending.
pub const MAX_TREE_DEPTH: usize = 4096;

/// The application: the widget tree, what it rendered to last, the states
/// of its widgets, state changes and messages waiting for the next
/// processing, and why it last processed.
pub struct Application {
    tree: WidgetNode,
    rendered_tree: WidgetNode,
    states: Vec<(WidgetId, Props)>,
    state_changes: Vec<(WidgetId, Props)>,
    messages: MessageQueues,
    dirty: bool,
    last_invalidation_cause: InvalidationCause,
    change_notifier: ChangeNotifier,
    used: Ghost<Seq<WidgetId>>,
}

impl Application {
    /// One state and at most one pending change per widget.
    #[verifier::type_invariant]
    closed spec fn wf(&self) -> bool {
        &&& distinct_states(self.states@)
        &&& distinct_states(self.state_changes@)
    }

    /// The widgets' states.
    pub closed spec fn states_view(&self) -> Seq<(WidgetId, Props)> {
        self.states@
    }

    /// The state changes waiting for the next processing.
    pub closed spec fn changes_view(&self) -> Seq<(WidgetId, Props)> {
        self.state_changes@
    }

    /// The messages waiting for their widgets.
    pub closed spec fn queues_view(&self) -> Seq<(Seq<char>, Seq<Message>)> {
        self.messages@
    }

    /// Whether processing was asked for.
    pub closed spec fn dirty_view(&self) -> bool {
        self.dirty
    }

    /// Why the application last processed.
    pub closed spec fn cause_view(&self) -> InvalidationCause {
        self.last_invalidation_cause
    }

    /// The identifiers of the components met in the last processing.
    pub closed spec fn used_view(&self) -> Seq<WidgetId> {
        self.used@
    }

    /// The tree the application renders.
    pub closed spec fn tree_view(&self) -> WidgetNode {
        self.tree
    }

    /// What the tree rendered to last.
    pub closed spec fn rendered_view(&self) -> WidgetNode {
        self.rendered_tree
    }

    /// An application with an empty tree, asked to process.
    pub fn new() -> (r: Self)
        ensures
            r.states_view().len() == 0,
            r.changes_view().len() == 0,
            r.queues_view().len() == 0,
            r.dirty_view(),
            r.cause_view() is Nothing,
            r.tree_view() is Empty,
            r.rendered_view() is Empty,
    {
        let messages = MessageQueues::new();
        Application {
            tree: WidgetNode::Empty,
            rendered_tree: WidgetNode::Empty,
            states: Vec::new(),
            state_changes: Vec::new(),
            messages,
            dirty: true,
            last_invalidation_cause: InvalidationCause::Nothing,
            change_notifier: ChangeNotifier::default(),
            used: Ghost(Seq::empty()),
        }
    }

    /// The flag that asks this application to process; clones share it.
    pub fn change_notifier(&self) -> ChangeNotifier {
        self.change_notifier.clone()
    }

    /// Why the application last processed.
    pub fn last_invalidation_cause(&self) -> (r: &InvalidationCause)
        ensures
            *r == self.cause_view(),
    {
        &self.last_invalidation_cause
    }

    /// Whether processing was asked for.
    pub fn is_dirty(&self) -> (r: bool)
        ensures
            r == self.dirty_view(),
    {
        self.dirty
    }

    /// Asks for processing.
    pub fn mark_dirty(&mut self)
        ensures
            final(self).dirty_view(),
            final(self).states_view() == old(self).states_view(),
            final(self).changes_view() == old(self).changes_view(),
            final(self).queues_view() == old(self).queues_view(),
            final(self).tree_view() == old(self).tree_view(),
    {
        proof {
            use_type_invariant(&*self);
        }
        self.dirty = true;
    }

    /// The tree the application renders.
    pub fn tree(&self) -> (r: &WidgetNode)
        ensures
            *r == self.tree_view(),
    {
        &self.tree
    }

    /// What the tree rendered to last.
    pub fn rendered_tree(&self) -> (r: &WidgetNode)
        ensures
            *r == self.rendered_view(),
    {
        &self.rendered_tree
    }

    /// Replaces the tree and asks for processing.
    pub fn apply(&mut self, tree: WidgetNode)
        ensures
            final(self).tree_view() == tree,
            final(self).dirty_view(),
            final(self).states_view() == old(self).states_view(),
            final(self).changes_view() == old(self).changes_view(),
            final(self).queues_view() == old(self).queues_view(),
    {
        proof {
            use_type_invariant(&*self);
        }
        self.tree = tree;
        self.dirty = true;
    }

    /// Queues `data` for the widget `id`, after the messages already waiting.
    pub fn send_message_raw(&mut self, id: &WidgetId, data: Message)
        ensures
            forall|t: Seq<char>| #[trigger] queue_of(final(self).queues_view(), t) == if t == id@.text() {
                queue_of(old(self).queues_view(), t).push(data)
            } else {
                queue_of(old(self).queues_view(), t)
            },
            final(self).states_view() == old(self).states_view(),
            final(self).changes_view() == old(self).changes_view(),
            final(self).dirty_view() == old(self).dirty_view(),
    {
        proof {
            use_type_invariant(&*self);
        }
        let mut queues = MessageQueues::new();
        std::mem::swap(&mut queues, &mut self.messages);
        queues.push(id, data);
        self.messages = queues;
    }

    /// The state of the widget `id`, if it has one.
    pub fn state_read(&self, id: &WidgetId) -> (r: Option<&Props>)
        ensures
            match r {
                Some(p) => state_at(self.states_view(), id@.text()) == Some(*p),
                None => state_at(self.states_view(), id@.text()) is None,
            },
    {
        proof {
            use_type_invariant(self);
            lemma_state_at(self.states@, id@.text());
        }
        let mut i: usize = 0;
        while i < self.states.len()
            invariant
                i <= self.states@.len(),
                forall|j: int| 0 <= j < i ==> (#[trigger] self.states@[j]).0@.text() != id@.text(),
            decreases self.states@.len() - i,
        {
            if self.states[i].0 == *id {
                proof {
                    use_type_invariant(self);
                    lemma_state_at(self.states@, id@.text());
                    assert(self.states@[i as int].0@.text() == id@.text());
                }
                return Some(&self.states[i].1);
            }
            i = i + 1;
        }
        None
    }

    /// Replaces the state of the widget `id` at the next processing; nothing
    /// when the widget has no state.
    pub fn state_write(&mut self, id: &WidgetId, data: Props)
        ensures
            final(self).states_view() == old(self).states_view(),
            forall|t: Seq<char>| #[trigger] state_at(final(self).changes_view(), t) == if t == id@.text()
                && has_state(old(self).states_view(), t) {
                Some(data)
            } else {
                state_at(old(self).changes_view(), t)
            },
            final(self).queues_view() == old(self).queues_view(),
            final(self).dirty_view() == old(self).dirty_view(),
    {
        proof {
            use_type_invariant(&*self);
            lemma_state_at(self.states@, id@.text());
        }
        if self.state_read(id).is_some() {
            let mut changes = Vec::new();
            std::mem::swap(&mut changes, &mut self.state_changes);
            set_state(&mut changes, id.clone(), data);
            self.state_changes = changes;
        }
    }

    /// Asks for processing, then processes.
    pub fn forced_process(&mut self) -> (r: bool)
        ensures
            r,
    {
        proof {
            use_type_invariant(&*self);
        }
        self.dirty = true;
        self.process()
    }

    /// Processes the tree when anything asks for it, and tells whether it
    /// did.
    ///
    /// It processes when a state change or a message waits, when processing
    /// was asked for, or when the change flag was raised. Then the changes
    /// are laid over the states, the tree is rendered (see
    /// [`process_node`]), each component met keeps its state (a component
    /// met for the first time gets an empty one), every other state is
    /// dropped, and so are the messages for widgets that were not met.
    pub fn process(&mut self) -> (r: bool)
        ensures
            old(self).changes_view().len() > 0 || (exists|t: Seq<char>| #[trigger] queue_of(old(self).queues_view(), t).len() > 0)
                || old(self).dirty_view() ==> r,
            old(self).changes_view().len() > 0 ==> (final(self).cause_view() matches InvalidationCause::StateChange(x)
                && x@ == old(self).changes_view()[0].0@),
            old(self).changes_view().len() == 0 && (exists|t: Seq<char>| #[trigger] queue_of(old(self).queues_view(), t).len() > 0)
                ==> (final(self).cause_view() matches InvalidationCause::MessageReceived(x)
                && queue_of(old(self).queues_view(), x@.text()).len() > 0),
            old(self).changes_view().len() == 0 && (forall|t: Seq<char>| #[trigger] queue_of(old(self).queues_view(), t).len() == 0)
                && old(self).dirty_view() ==> final(self).cause_view() is Forced,
            !r ==> {
                &&& final(self).cause_view() is Nothing
                &&& final(self).states_view() == old(self).states_view()
                &&& final(self).changes_view() == old(self).changes_view()
                &&& final(self).queues_view() == old(self).queues_view()
                &&& final(self).rendered_view() == old(self).rendered_view()
            },
            r ==> {
                &&& !final(self).dirty_view()
                &&& final(self).changes_view().len() == 0
                &&& forall|t: Seq<char>| #[trigger] queue_of(final(self).queues_view(), t).len() == 0
                &&& is_processed(final(self).rendered_view())
                &&& forall|t: Seq<char>| #[trigger] state_at(final(self).states_view(), t) == if used_from(final(self).used_view(), 0, t) {
                    match overlaid_at(old(self).states_view(), old(self).changes_view(), t) {
                        Some(p) => Some(p),
                        None => state_at(final(self).states_view(), t),
                    }
                } else {
                    None
                }
                &&& forall|t: Seq<char>|
                    used_from(final(self).used_view(), 0, t) && overlaid_at(old(self).states_view(), old(self).changes_view(), t) is None
                    ==> (#[trigger] state_at(final(self).states_view(), t) matches Some(p) && p@.dom().len() == 0)
            },
            r ==> exists|t: WalkTrace| #[trigger]
                processes_to(
                    old(self).tree_view(),
                    Seq::empty(),
                    root_key_text(),
                    MAX_TREE_DEPTH as nat,
                    final(self).rendered_view(),
                    ids_view(final(self).used_view()),
                    t,
                ),
            final(self).tree_view() == old(self).tree_view(),
    {
        proof {
            use_type_invariant(&*self);
        }
        let mut notifier = self.change_notifier.clone();
        if notifier.consume_change() {
            self.dirty = true;
        }
        let first_change: Option<&WidgetId> = if self.state_changes.len() > 0 {
            Some(&self.state_changes[0].0)
        } else {
            None
        };
        let recipient = self.messages.first_recipient();
        proof {
            if recipient is Some {
                assert(queue_of(old(self).queues_view(), recipient->Some_0@.text()).len() > 0);
            }
        }
        let cause = invalidation_cause(self.dirty, first_change, recipient, None);
        match cause {
            None => {
                self.last_invalidation_cause = InvalidationCause::Nothing;
                return false;
            },
            Some(c) => {
                self.last_invalidation_cause = c;
            },
        }
        self.dirty = false;
        let ghost s0 = self.states@;
        let ghost c0 = self.state_changes@;
        let mut merged: Vec<(WidgetId, Props)> = Vec::new();
        std::mem::swap(&mut merged, &mut self.states);
        let mut changes: Vec<(WidgetId, Props)> = Vec::new();
        std::mem::swap(&mut changes, &mut self.state_changes);
        let ghost mut k: int = 0;
        while changes.len() > 0
            invariant
                0 <= k <= c0.len(),
                changes@ == c0.subrange(k, c0.len() as int),
                distinct_states(merged@),
                forall|t: Seq<char>| #[trigger] state_at(merged@, t) == overlaid_at(s0, c0.take(k), t),
            decreases changes@.len(),
        {
            let (id, data) = changes.remove(0);
            let ghost m0 = merged@;
            proof {
                assert(c0[k] == (id, data));
            }
            set_state(&mut merged, id, data);
            proof {
                assert forall|t: Seq<char>| #[trigger] state_at(merged@, t) == overlaid_at(s0, c0.take(k + 1), t) by {
                    assert(c0.take(k + 1).drop_last() =~= c0.take(k));
                    assert(c0.take(k + 1).last() == c0[k]);
                    assert(state_at(m0, t) == overlaid_at(s0, c0.take(k), t));
                }
                k = k + 1;
                assert(changes@ =~= c0.subrange(k, c0.len() as int));
            }
        }
        proof {
            assert(c0.take(k) =~= c0);
        }
        let ghost m1 = merged@;
        let mut messages = MessageQueues::new();
        std::mem::swap(&mut messages, &mut self.messages);
        let mut new_states: Vec<(WidgetId, Props)> = Vec::new();
        let mut used: Vec<WidgetId> = Vec::new();
        let root_path: Vec<String> = Vec::new();
        let key = root_key();
        let tree = clone_node(&self.tree);
        let ghost tree_copy = tree;
        let rendered = process_node(
            tree,
            &merged,
            &root_path,
            key.as_str(),
            None,
            &mut messages,
            &mut new_states,
            &mut used,
            MAX_TREE_DEPTH,
        );
        let ghost tw = choose|t: WalkTrace| #[trigger]
            processes_to(
                tree_copy,
                path_view(root_path@),
                key@,
                MAX_TREE_DEPTH as nat,
                rendered,
                ids_view(used@).subrange(0, used@.len() as int),
                t,
            );
        proof {
            let whole = ids_view(used@).subrange(0, used@.len() as int);
            assert(whole =~= ids_view(used@));
            assert(path_view(root_path@) =~= Seq::<Seq<char>>::empty());
            let t = tw;
            lemma_same_shape_processes(
                self.tree,
                tree_copy,
                Seq::empty(),
                key@,
                MAX_TREE_DEPTH as nat,
                rendered,
                ids_view(used@),
                t,
            );
            assert(processes_to(self.tree, Seq::empty(), root_key_text(), MAX_TREE_DEPTH as nat, rendered, ids_view(used@), t));
        }
        let ghost n0 = new_states@;
        let ghost mut j: int = 0;
        while new_states.len() > 0
            invariant
                0 <= j <= n0.len(),
                new_states@ == n0.subrange(j, n0.len() as int),
                distinct_states(merged@),
                forall|t: Seq<char>| #[trigger] state_at(merged@, t) == overlaid_at(m1, n0.take(j), t),
            decreases new_states@.len(),
        {
            let (id, data) = new_states.remove(0);
            let ghost mb = merged@;
            proof {
                assert(n0[j] == (id, data));
            }
            set_state(&mut merged, id, data);
            proof {
                assert forall|t: Seq<char>| #[trigger] state_at(merged@, t) == overlaid_at(m1, n0.take(j + 1), t) by {
                    assert(n0.take(j + 1).drop_last() =~= n0.take(j));
                    assert(n0.take(j + 1).last() == n0[j]);
                    assert(state_at(mb, t) == overlaid_at(m1, n0.take(j), t));
                }
                j = j + 1;
                assert(new_states@ =~= n0.subrange(j, n0.len() as int));
            }
        }
        proof {
            assert(n0.take(j) =~= n0);
        }
        let ghost m2 = merged@;
        let kept = keep_used(merged, &used);
        proof {
            assert forall|t: Seq<char>| #[trigger] state_at(kept@, t) == if used_from(used@, 0, t) {
                match overlaid_at(s0, c0, t) {
                    Some(p) => Some(p),
                    None => state_at(kept@, t),
                }
            } else {
                None
            } by {
                lemma_state_at(n0, t);
                lemma_state_at(m1, t);
                if used_from(used@, 0, t) && overlaid_at(s0, c0, t) is Some {
                    if state_at(n0, t) is Some {
                        let i = choose|i: int| 0 <= i < n0.len() && (#[trigger] n0[i]).0@.text() == t && n0[i].1 == state_at(n0, t)->Some_0;
                        assert(!has_state(m1, n0[i].0@.text()));
                    }
                }
            }
            assert forall|t: Seq<char>|
                used_from(used@, 0, t) && overlaid_at(s0, c0, t) is None
                implies (#[trigger] state_at(kept@, t) matches Some(p) && p@.dom().len() == 0) by {
                lemma_state_at(n0, t);
                lemma_state_at(m1, t);
                let i = choose|i: int| 0 <= i < used@.len() && #[trigger] used@[i]@.text() == t;
                assert(!has_state(m1, used@[i]@.text()));
                let jj = choose|jj: int| 0 <= jj < n0.len() && (#[trigger] n0[jj]).0@.text() == used@[i]@.text();
                assert(has_state(n0, t));
                let q = choose|q: int| 0 <= q < n0.len() && (#[trigger] n0[q]).0@.text() == t && n0[q].1 == state_at(n0, t)->Some_0;
                assert(n0[q].1@.dom().len() == 0);
            }
        }
        self.states = kept;
        self.rendered_tree = rendered;
        self.used = Ghost(used@);
        proof {
            assert(processes_to(
                old(self).tree_view(),
                Seq::empty(),
                root_key_text(),
                MAX_TREE_DEPTH as nat,
                self.rendered_view(),
                ids_view(self.used_view()),
                tw,
            ));
        }
        proof {
            assert forall|t: Seq<char>| #[trigger] queue_of(self.messages@, t).len() == 0 by {}
        }
        true
    }
}

} // verus!
