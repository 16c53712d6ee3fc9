//! Messages waiting for their widgets: one queue per widget, in the order
//! the messages were sent.

use vstd::prelude::*;

use crate::messenger::Message;
use crate::widget_id::WidgetId;

verus! {

/// The queues: each entry a widget's identifier text and its messages.
pub type QueuesView = Seq<(Seq<char>, Seq<Message>)>;

/// The messages waiting for the widget with identifier text `t`.
pub open spec fn queue_of(v: QueuesView, t: Seq<char>) -> Seq<Message>
    decreases v.len(),
{
    if v.len() == 0 {
        Seq::empty()
    } else if v.last().0 == t {
        v.last().1
    } else {
        queue_of(v.drop_last(), t)
    }
}

/// No widget has two entries, and no entry is empty.
pub open spec fn queues_wf(v: QueuesView) -> bool {
    &&& forall|i: int, j: int| 0 <= i < j < v.len() ==> (#[trigger] v[i]).0 != (#[trigger] v[j]).0
    &&& forall|i: int| 0 <= i < v.len() ==> (#[trigger] v[i]).1.len() > 0
}

proof fn lemma_queues_wf_drop_last(v: QueuesView)
    requires
        queues_wf(v),
        v.len() > 0,
    ensures
        queues_wf(v.drop_last()),
        forall|i: int| 0 <= i < v.len() - 1 ==> (#[trigger] v[i]).0 != v.last().0,
{
    let w = v.drop_last();
    assert forall|i: int, j: int| 0 <= i < j < w.len() implies (#[trigger] w[i]).0 != (#[trigger] w[j]).0 by {
        assert(w[i] == v[i] && w[j] == v[j]);
    }
    assert forall|i: int| 0 <= i < w.len() implies (#[trigger] w[i]).1.len() > 0 by {
        assert(w[i] == v[i]);
    }
}

/// An entry's queue is the queue of its widget.
proof fn lemma_queue_at(v: QueuesView, i: int)
    requires
        queues_wf(v),
        0 <= i < v.len(),
    ensures
        queue_of(v, v[i].0) == v[i].1,
    decreases v.len(),
{
    if i < v.len() - 1 {
        lemma_queues_wf_drop_last(v);
        lemma_queue_at(v.drop_last(), i);
        assert(v.drop_last()[i] == v[i]);
    }
}

/// A widget without an entry has no messages.
proof fn lemma_queue_absent(v: QueuesView, t: Seq<char>)
    requires
        forall|i: int| 0 <= i < v.len() ==> (#[trigger] v[i]).0 != t,
    ensures
        queue_of(v, t) == Seq::<Message>::empty(),
    decreases v.len(),
{
    if v.len() > 0 {
        assert forall|i: int| 0 <= i < v.drop_last().len() implies (#[trigger] v.drop_last()[i]).0 != t by {
            assert(v.drop_last()[i] == v[i]);
        }
        lemma_queue_absent(v.drop_last(), t);
    }
}

/// Replacing an entry's queue changes that widget's queue only.
proof fn lemma_queue_update(v: QueuesView, i: int, q: Seq<Message>, t: Seq<char>)
    requires
        queues_wf(v),
        0 <= i < v.len(),
    ensures
        queue_of(v.update(i, (v[i].0, q)), t) == (if t == v[i].0 {
            q
        } else {
            queue_of(v, t)
        }),
    decreases v.len(),
{
    let w = v.update(i, (v[i].0, q));
    if i == v.len() - 1 {
        assert(w.drop_last() =~= v.drop_last());
    } else {
        lemma_queues_wf_drop_last(v);
        assert(w.drop_last() =~= v.drop_last().update(i, (v[i].0, q)));
        lemma_queue_update(v.drop_last(), i, q, t);
        assert(v.drop_last()[i] == v[i]);
    }
}

/// Removing an entry empties that widget's queue only.
proof fn lemma_queue_remove(v: QueuesView, i: int, t: Seq<char>)
    requires
        queues_wf(v),
        0 <= i < v.len(),
    ensures
        queue_of(v.remove(i), t) == (if t == v[i].0 {
            Seq::<Message>::empty()
        } else {
            queue_of(v, t)
        }),
    decreases v.len(),
{
    let w = v.remove(i);
    if i == v.len() - 1 {
        assert(w =~= v.drop_last());
        lemma_queues_wf_drop_last(v);
        if t == v[i].0 {
            lemma_queue_absent(v.drop_last(), t);
        }
    } else {
        lemma_queues_wf_drop_last(v);
        assert(w.drop_last() =~= v.drop_last().remove(i));
        assert(w.last() == v.last());
        lemma_queue_remove(v.drop_last(), i, t);
        assert(v.drop_last()[i] == v[i]);
    }
}

/// Messages waiting for their widgets, each widget's in the order sent.
pub struct MessageQueues {
    queues: Vec<(WidgetId, Vec<Message>)>,
}

impl View for MessageQueues {
    type V = QueuesView;

    closed spec fn view(&self) -> QueuesView {
        self.queues@.map_values(|e: (WidgetId, Vec<Message>)| (e.0@.text(), e.1@))
    }
}

impl MessageQueues {
    #[verifier::type_invariant]
    closed spec fn wf(&self) -> bool {
        queues_wf(self@)
    }

    /// No message waits.
    pub fn new() -> (r: Self)
        ensures
            forall|t: Seq<char>| #[trigger] queue_of(r@, t) == Seq::<Message>::empty(),
            r@.len() == 0,
    {
        let r = MessageQueues { queues: Vec::new() };
        proof {
            assert(r@ =~= Seq::<(Seq<char>, Seq<Message>)>::empty());
        }
        r
    }

    /// Whether no message waits.
    pub fn is_empty(&self) -> (r: bool)
        ensures
            r == (self@.len() == 0),
            r == forall|t: Seq<char>| #[trigger] queue_of(self@, t).len() == 0,
    {
        proof {
            use_type_invariant(self);
            if self@.len() > 0 {
                lemma_queue_at(self@, 0);
                assert(queue_of(self@, self@[0].0).len() > 0);
            }
        }
        self.queues.len() == 0
    }

    /// The position of the queue of the widget `id`.
    fn find(&self, id: &WidgetId) -> (r: Option<usize>)
        ensures
            match r {
                Some(i) => i < self@.len() && self@[i as int].0 == id@.text(),
                None => forall|i: int| 0 <= i < self@.len() ==> (#[trigger] self@[i]).0 != id@.text(),
            },
    {
        let mut i: usize = 0;
        while i < self.queues.len()
            invariant
                i <= self.queues@.len(),
                forall|j: int| 0 <= j < i ==> (#[trigger] self@[j]).0 != id@.text(),
            decreases self.queues@.len() - i,
        {
            if self.queues[i].0 == *id {
                return Some(i);
            }
            i = i + 1;
        }
        None
    }

    /// Adds `message` to the end of the queue of the widget `id`.
    pub fn push(&mut self, id: &WidgetId, message: Message)
        ensures
            forall|t: Seq<char>| #[trigger] queue_of(final(self)@, t) == (if t == id@.text() {
                queue_of(old(self)@, t).push(message)
            } else {
                queue_of(old(self)@, t)
            }),
    {
        proof {
            use_type_invariant(&*self);
        }
        let ghost olds = self@;
        match self.find(id) {
            Some(i) => {
                let mut queues: Vec<(WidgetId, Vec<Message>)> = Vec::new();
                std::mem::swap(&mut queues, &mut self.queues);
                let ghost pre = queues@;
                let mut entry = (WidgetId::default(), Vec::new());
                std::mem::swap(&mut entry, &mut queues[i]);
                proof {
                    assert(entry == pre[i as int]);
                    assert(olds[i as int] == (entry.0@.text(), entry.1@));
                }
                entry.1.push(message);
                let ghost q = entry.1@;
                queues.set(i, entry);
                let ghost news = queues@.map_values(|e: (WidgetId, Vec<Message>)| (e.0@.text(), e.1@));
                proof {
                    assert(queues@ =~= pre.update(i as int, entry));
                    assert(news =~= olds.update(i as int, (olds[i as int].0, q)));
                    assert forall|a: int, b: int| 0 <= a < b < news.len() implies (#[trigger] news[a]).0
                        != (#[trigger] news[b]).0 by {
                        assert(news[a].0 == olds[a].0 && news[b].0 == olds[b].0);
                    }
                    assert forall|a: int| 0 <= a < news.len() implies (#[trigger] news[a]).1.len() > 0 by {
                        if a != i {
                            assert(news[a] == olds[a]);
                        }
                    }
                    assert forall|t: Seq<char>| #[trigger] queue_of(news, t) == (if t == id@.text() {
                        queue_of(olds, t).push(message)
                    } else {
                        queue_of(olds, t)
                    }) by {
                        lemma_queue_update(olds, i as int, q, t);
                        lemma_queue_at(olds, i as int);
                    }
                }
                self.queues = queues;
            },
            None => {
                let mut list: Vec<Message> = Vec::new();
                list.push(message);
                let mut queues: Vec<(WidgetId, Vec<Message>)> = Vec::new();
                std::mem::swap(&mut queues, &mut self.queues);
                let ghost pre = queues@;
                queues.push((id.clone(), list));
                let ghost news = queues@.map_values(|e: (WidgetId, Vec<Message>)| (e.0@.text(), e.1@));
                proof {
                    assert(news =~= olds.push((id@.text(), seq![message])));
                    assert(news.drop_last() =~= olds);
                    assert forall|a: int, b: int| 0 <= a < b < news.len() implies (#[trigger] news[a]).0
                        != (#[trigger] news[b]).0 by {
                        if b == news.len() - 1 {
                            assert(news[a] == olds[a]);
                        } else {
                            assert(news[a] == olds[a] && news[b] == olds[b]);
                        }
                    }
                    assert forall|a: int| 0 <= a < news.len() implies (#[trigger] news[a]).1.len() > 0 by {
                        if a < news.len() - 1 {
                            assert(news[a] == olds[a]);
                        }
                    }
                    lemma_queue_absent(olds, id@.text());
                    assert forall|t: Seq<char>| #[trigger] queue_of(news, t) == (if t == id@.text() {
                        queue_of(olds, t).push(message)
                    } else {
                        queue_of(olds, t)
                    }) by {
                        if t == id@.text() {
                            assert(Seq::<Message>::empty().push(message) =~= seq![message]);
                        }
                    }
                }
                self.queues = queues;
            },
        }
    }

    /// Takes out the messages waiting for the widget `id`, in the order sent.
    pub fn take(&mut self, id: &WidgetId) -> (r: Vec<Message>)
        ensures
            r@ == queue_of(old(self)@, id@.text()),
            forall|t: Seq<char>| #[trigger] queue_of(final(self)@, t) == (if t == id@.text() {
                Seq::<Message>::empty()
            } else {
                queue_of(old(self)@, t)
            }),
    {
        proof {
            use_type_invariant(&*self);
        }
        let ghost olds = self@;
        match self.find(id) {
            Some(i) => {
                let mut queues: Vec<(WidgetId, Vec<Message>)> = Vec::new();
                std::mem::swap(&mut queues, &mut self.queues);
                let ghost pre = queues@;
                let entry = queues.remove(i);
                let ghost news = queues@.map_values(|e: (WidgetId, Vec<Message>)| (e.0@.text(), e.1@));
                proof {
                    assert(entry == pre[i as int]);
                    assert(news =~= olds.remove(i as int));
                    lemma_queue_at(olds, i as int);
                    assert forall|a: int, b: int| 0 <= a < b < news.len() implies (#[trigger] news[a]).0
                        != (#[trigger] news[b]).0 by {
                        let a2 = if a < i { a } else { a + 1 };
                        let b2 = if b < i { b } else { b + 1 };
                        assert(news[a] == olds[a2] && news[b] == olds[b2]);
                    }
                    assert forall|a: int| 0 <= a < news.len() implies (#[trigger] news[a]).1.len() > 0 by {
                        let a2 = if a < i { a } else { a + 1 };
                        assert(news[a] == olds[a2]);
                    }
                    assert forall|t: Seq<char>| #[trigger] queue_of(news, t) == (if t == id@.text() {
                        Seq::<Message>::empty()
                    } else {
                        queue_of(olds, t)
                    }) by {
                        lemma_queue_remove(olds, i as int, t);
                    }
                }
                self.queues = queues;
                entry.1
            },
            None => {
                proof {
                    lemma_queue_absent(olds, id@.text());
                }
                Vec::new()
            },
        }
    }

    /// A widget with messages waiting, if any: the first to have received one
    /// among those still waiting.
    pub fn first_recipient(&self) -> (r: Option<&WidgetId>)
        ensures
            match r {
                Some(id) => queue_of(self@, id@.text()).len() > 0,
                None => forall|t: Seq<char>| #[trigger] queue_of(self@, t).len() == 0,
            },
    {
        proof {
            use_type_invariant(self);
        }
        if self.queues.len() == 0 {
            None
        } else {
            proof {
                lemma_queue_at(self@, 0);
            }
            Some(&self.queues[0].0)
        }
    }
}

/// Law: the messages sent to a widget are taken out in the order they were
/// sent, and sending to one widget leaves every other widget's queue as it
/// was.
pub proof fn law_messages_arrive_in_order(v: QueuesView, t: Seq<char>, u: Seq<char>, m1: Message, m2: Message)
    requires
        t != u,
    ensures
        ({
            let after_first = |s: Seq<char>| if s == t { queue_of(v, s).push(m1) } else { queue_of(v, s) };
            let after_second = |s: Seq<char>| if s == t { after_first(s).push(m2) } else { after_first(s) };
            &&& after_second(t) == queue_of(v, t) + seq![m1, m2]
            &&& after_second(u) == queue_of(v, u)
        }),
{
    assert(queue_of(v, t).push(m1).push(m2) =~= queue_of(v, t) + seq![m1, m2]);
}

} // verus!
