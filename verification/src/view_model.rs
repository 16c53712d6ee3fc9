//! Bindings of view-model properties to the widgets that display them.

use vstd::prelude::*;

use crate::text::str_eq;
use crate::widget_id::{WidgetId, WidgetIdView};
use crate::widget_id_common::{common_of, WidgetIdCommon, WidgetIdCommonView};

verus! {

/// No two identifiers of `ids` have the same text.
pub open spec fn distinct_texts(ids: Seq<WidgetIdView>) -> bool {
    forall|i: int, j: int|
        0 <= i < j < ids.len() ==> (#[trigger] ids[i]).text() != (#[trigger] ids[j]).text()
}

/// The abstract value of [`ViewModelBindings`].
pub struct ViewModelBindingsView {
    /// Bound widgets, in the order they were first bound.
    pub widgets: Seq<WidgetIdView>,
    pub common_root: WidgetIdCommonView,
    pub notify: bool,
}

impl ViewModelBindingsView {
    /// Whether a widget with this identifier text is bound.
    pub open spec fn is_bound(self, text: Seq<char>) -> bool {
        exists|i: int| 0 <= i < self.widgets.len() && (#[trigger] self.widgets[i]).text() == text
    }

    /// The bindings after binding `id`: appended unless already bound.
    pub open spec fn bound(self, id: WidgetIdView) -> ViewModelBindingsView {
        let widgets = if self.is_bound(id.text()) {
            self.widgets
        } else {
            self.widgets.push(id)
        };
        ViewModelBindingsView { widgets, common_root: common_of(widgets), notify: self.notify }
    }

    /// The bindings after unbinding `id`: every widget with its text dropped.
    pub open spec fn unbound(self, id: WidgetIdView) -> ViewModelBindingsView {
        let widgets = self.widgets.filter(|w: WidgetIdView| w.text() != id.text());
        ViewModelBindingsView { widgets, common_root: common_of(widgets), notify: self.notify }
    }

    /// What every value of [`ViewModelBindings`] satisfies.
    pub open spec fn is_valid(self) -> bool {
        distinct_texts(self.widgets) && self.common_root == common_of(self.widgets)
    }
}

/// The widgets bound to one view-model property, their common root, and
/// whether the property has changed since it was last consumed.
pub struct ViewModelBindings {
    widgets: Vec<WidgetId>,
    common_root: WidgetIdCommon,
    notify: bool,
}

impl View for ViewModelBindings {
    type V = ViewModelBindingsView;

    closed spec fn view(&self) -> ViewModelBindingsView {
        ViewModelBindingsView {
            widgets: self.widgets@.map_values(|w: WidgetId| w@),
            common_root: self.common_root@,
            notify: self.notify,
        }
    }
}

impl Default for ViewModelBindings {
    /// No widgets, no common root, and a pending notification.
    fn default() -> (r: Self)
        ensures
            r@.widgets == Seq::<WidgetIdView>::empty(),
            r@.common_root == (WidgetIdCommonView { id: None, count: usize::MAX as nat }),
            r@.notify,
    {
        let r = ViewModelBindings { widgets: Vec::new(), common_root: WidgetIdCommon::default(), notify: true };
        assert(r@.widgets =~= Seq::<WidgetIdView>::empty());
        r
    }
}

impl ViewModelBindings {
    /// Bound widgets have distinct texts, and the common root is the common
    /// root of the bound widgets in order.
    #[verifier::type_invariant]
    closed spec fn wf(&self) -> bool {
        &&& distinct_texts(self.widgets@.map_values(|w: WidgetId| w@))
        &&& self.common_root@ == common_of(self.widgets@.map_values(|w: WidgetId| w@))
    }

    /// Binds a widget (no change to the set when it is already bound).
    pub fn bind(&mut self, id: WidgetId)
        ensures
            final(self)@.widgets == (if old(self)@.is_bound(id@.text()) {
                old(self)@.widgets
            } else {
                old(self)@.widgets.push(id@)
            }),
            final(self)@.common_root == common_of(final(self)@.widgets),
            final(self)@.notify == old(self)@.notify,
            final(self)@ == old(self)@.bound(id@),
            final(self)@.is_valid(),
    {
        proof {
            use_type_invariant(&*self);
        }
        if !self.is_bound(&id) {
            let mut taken = ViewModelBindings::default();
            std::mem::swap(&mut taken, self);
            proof {
                use_type_invariant(&taken);
            }
            let ViewModelBindings { widgets: mut widgets, common_root: _, notify } = taken;
            let ghost before = widgets@;
            widgets.push(id);
            let common_root = WidgetIdCommon::from_ids(widgets.as_slice());
            proof {
                let vs = widgets@.map_values(|w: WidgetId| w@);
                let olds = before.map_values(|w: WidgetId| w@);
                assert(vs =~= olds.push(vs.last()));
                assert forall|i: int, j: int| 0 <= i < j < vs.len() implies (#[trigger] vs[i]).text()
                    != (#[trigger] vs[j]).text() by {
                    if j == vs.len() - 1 {
                        assert(olds[i] == vs[i]);
                        assert(vs[j] == id@);
                        assert(old(self)@.widgets[i] == olds[i]);
                        assert(!old(self)@.is_bound(id@.text()));
                    } else {
                        assert(olds[i] == vs[i] && olds[j] == vs[j]);
                    }
                }
            }
            *self = ViewModelBindings { widgets, common_root, notify };
        }
    }

    /// Unbinds the widget with this identifier (if bound).
    pub fn unbind(&mut self, id: &WidgetId)
        ensures
            final(self)@.widgets == old(self)@.widgets.filter(|w: WidgetIdView| w.text() != id@.text()),
            !final(self)@.is_bound(id@.text()),
            final(self)@.common_root == common_of(final(self)@.widgets),
            final(self)@.notify == old(self)@.notify,
            final(self)@ == old(self)@.unbound(id@),
            final(self)@.is_valid(),
    {
        proof {
            use_type_invariant(&*self);
        }
        let ghost olds = self@.widgets;
        let ghost pred = |w: WidgetIdView| w.text() != id@.text();
        let mut widgets: Vec<WidgetId> = Vec::new();
        let mut index: usize = 0;
        let ghost mut idx: Seq<int> = Seq::empty();
        while index < self.widgets.len()
            invariant
                idx.len() == widgets@.len(),
                forall|k: int| 0 <= k < idx.len() ==> 0 <= #[trigger] idx[k] < index,
                forall|k: int| 0 <= k < idx.len() ==> (#[trigger] widgets@[k])@ == olds[idx[k]],
                forall|k: int, l: int| 0 <= k < l < idx.len() ==> #[trigger] idx[k] < #[trigger] idx[l],
                forall|k: int| 0 <= k < idx.len() ==> (#[trigger] widgets@[k])@.text() != id@.text(),
                index <= self.widgets@.len(),
                olds == self@.widgets,
                olds == self.widgets@.map_values(|w: WidgetId| w@),
                distinct_texts(olds),
                pred == (|w: WidgetIdView| w.text() != id@.text()),
                widgets@.map_values(|w: WidgetId| w@) == olds.take(index as int).filter(pred),
            decreases self.widgets@.len() - index,
        {
            let ghost before = widgets@;
            proof {
                reveal_with_fuel(Seq::filter, 1);
                assert(olds.take(index as int + 1).drop_last() =~= olds.take(index as int));
            }
            if self.widgets[index] != *id {
                widgets.push(self.widgets[index].clone());
                proof {
                    idx = idx.push(index as int);
                    assert(widgets@.map_values(|w: WidgetId| w@) =~= before.map_values(
                        |w: WidgetId| w@,
                    ).push(olds[index as int]));
                }
            }
            index = index + 1;
        }
        let common_root = WidgetIdCommon::from_ids(widgets.as_slice());
        proof {
            assert(olds.take(olds.len() as int) =~= olds);
            let news = widgets@.map_values(|w: WidgetId| w@);
            assert forall|i: int| 0 <= i < news.len() implies (#[trigger] news[i]).text() != id@.text() by {
                assert(news[i] == widgets@[i]@);
            }
            assert forall|i: int, j: int| 0 <= i < j < news.len() implies (#[trigger] news[i]).text()
                != (#[trigger] news[j]).text() by {
                assert(news[i] == widgets@[i]@);
                assert(news[j] == widgets@[j]@);
                assert(idx[i] < idx[j]);
            }
        }
        *self = ViewModelBindings { widgets, common_root, notify: self.notify };
    }

    /// Unbinds every widget and forgets the common root.
    pub fn clear(&mut self)
        ensures
            final(self)@.widgets == Seq::<WidgetIdView>::empty(),
            final(self)@.common_root == (WidgetIdCommonView { id: None, count: usize::MAX as nat }),
            final(self)@.notify == old(self)@.notify,
    {
        let r = ViewModelBindings { widgets: Vec::new(), common_root: WidgetIdCommon::default(), notify: self.notify };
        assert(r@.widgets =~= Seq::<WidgetIdView>::empty());
        *self = r;
    }

    /// Whether no widget is bound.
    pub fn is_empty(&self) -> (r: bool)
        ensures
            r == (self@.widgets.len() == 0),
    {
        self.widgets.len() == 0
    }

    /// Whether the widget with this identifier is bound.
    pub fn is_bound(&self, id: &WidgetId) -> (r: bool)
        ensures
            r == self@.is_bound(id@.text()),
    {
        let mut index: usize = 0;
        while index < self.widgets.len()
            invariant
                index <= self.widgets@.len(),
                forall|i: int| 0 <= i < index ==> (#[trigger] self.widgets@[i])@.text() != id@.text(),
            decreases self.widgets@.len() - index,
        {
            if self.widgets[index] == *id {
                assert(self@.widgets[index as int] == self.widgets@[index as int]@);
                return true;
            }
            index = index + 1;
        }
        proof {
            assert forall|i: int| 0 <= i < self@.widgets.len() implies (#[trigger] self@.widgets[i]).text()
                != id@.text() by {
                assert(self@.widgets[i] == self.widgets@[i]@);
            }
        }
        false
    }

    /// The bound widgets.
    pub fn widgets(&self) -> (r: &[WidgetId])
        ensures
            r@.map_values(|w: WidgetId| w@) == self@.widgets,
    {
        self.widgets.as_slice()
    }

    /// The common root of the bound widgets.
    pub fn common_root(&self) -> (r: &WidgetIdCommon)
        ensures
            r@ == self@.common_root,
            r@ == common_of(self@.widgets),
    {
        proof {
            use_type_invariant(self);
        }
        &self.common_root
    }

    /// Marks the property as changed.
    pub fn notify(&mut self)
        ensures
            final(self)@.notify,
            final(self)@.widgets == old(self)@.widgets,
            final(self)@.common_root == old(self)@.common_root,
    {
        proof {
            use_type_invariant(&*self);
        }
        self.notify = true;
    }

    /// Whether the property has changed since the last consumption.
    pub fn is_notified(&self) -> (r: bool)
        ensures
            r == self@.notify,
    {
        self.notify
    }

    /// Reports a pending change to bound widgets and clears it; with no widget
    /// bound nothing is reported and the pending change is kept.
    pub fn consume_notification(&mut self) -> (r: bool)
        ensures
            r == (old(self)@.widgets.len() > 0 && old(self)@.notify),
            final(self)@.notify == (old(self)@.notify && old(self)@.widgets.len() == 0),
            final(self)@.widgets == old(self)@.widgets,
            final(self)@.common_root == old(self)@.common_root,
    {
        proof {
            use_type_invariant(&*self);
        }
        if self.widgets.len() == 0 {
            false
        } else {
            let r = self.notify;
            self.notify = false;
            r
        }
    }
}

/// Law: after binding a widget it is bound, and every other widget is bound
/// exactly when it was before.
pub proof fn law_bind_binds(v: ViewModelBindingsView, id: WidgetIdView, text: Seq<char>)
    ensures
        v.bound(id).is_bound(id.text()),
        text != id.text() ==> (v.bound(id).is_bound(text) == v.is_bound(text)),
{
    let w = v.bound(id);
    if v.is_bound(id.text()) {
        assert(w.widgets == v.widgets);
    } else {
        let n = v.widgets.len() as int;
        assert(w.widgets == v.widgets.push(id));
        assert(w.widgets[n] == id);
        assert((w.widgets[n]).text() == id.text());
        if text != id.text() {
            if w.is_bound(text) {
                let i = choose|i: int| 0 <= i < w.widgets.len() && (#[trigger] w.widgets[i]).text() == text;
                assert(i < n);
                assert(v.widgets[i] == w.widgets[i]);
            }
            if v.is_bound(text) {
                let i = choose|i: int| 0 <= i < v.widgets.len() && (#[trigger] v.widgets[i]).text() == text;
                assert(w.widgets[i] == v.widgets[i]);
            }
        }
    }
}

/// One change to a property's bindings, as the methods of
/// [`ViewModelBindings`] make it.
pub enum BindingStep {
    Bind(WidgetIdView),
    Unbind(WidgetIdView),
    Clear,
    Notify,
    Consume,
}

/// The bindings after a step.
pub open spec fn after_step(v: ViewModelBindingsView, step: BindingStep) -> ViewModelBindingsView {
    match step {
        BindingStep::Bind(id) => v.bound(id),
        BindingStep::Unbind(id) => v.unbound(id),
        BindingStep::Clear => ViewModelBindingsView { widgets: Seq::empty(), common_root: no_root(), ..v },
        BindingStep::Notify => v.notified_again(),
        BindingStep::Consume => v.consumed(),
    }
}

/// The bindings after the steps, in order.
pub open spec fn after_steps(v: ViewModelBindingsView, steps: Seq<BindingStep>) -> ViewModelBindingsView
    decreases steps.len(),
{
    if steps.len() == 0 {
        v
    } else {
        after_step(after_steps(v, steps.drop_last()), steps.last())
    }
}

/// Whether a step ends the binding of the identifier text `t`.
pub open spec fn ends_binding(step: BindingStep, t: Seq<char>) -> bool {
    match step {
        BindingStep::Unbind(id) => id.text() == t,
        BindingStep::Clear => true,
        _ => false,
    }
}

/// Law: a bound widget stays bound through any steps until one of them
/// unbinds it or clears the bindings.
pub proof fn law_bound_until_unbound(v: ViewModelBindingsView, t: Seq<char>, steps: Seq<BindingStep>)
    requires
        v.is_bound(t),
        forall|i: int| 0 <= i < steps.len() ==> !ends_binding(#[trigger] steps[i], t),
    ensures
        after_steps(v, steps).is_bound(t),
    decreases steps.len(),
{
    if steps.len() > 0 {
        let d = steps.drop_last();
        assert forall|i: int| 0 <= i < d.len() implies !ends_binding(#[trigger] d[i], t) by {
            assert(d[i] == steps[i]);
        }
        law_bound_until_unbound(v, t, d);
        let w = after_steps(v, d);
        let last = steps.last();
        assert(!ends_binding(steps[steps.len() - 1], t));
        assert(after_steps(v, steps) == after_step(w, last));
        match last {
            BindingStep::Bind(id) => {
                if t == id.text() {
                    law_bind_binds(w, id, t);
                } else {
                    law_bind_binds(w, id, t);
                }
            },
            BindingStep::Unbind(id) => {
                law_unbind_unbinds(w, id, t);
            },
            _ => {
                assert(after_step(w, last).widgets == w.widgets);
            },
        }
    }
}

/// Law: binding the same widget twice is the same as binding it once.
pub proof fn law_bind_idempotent(v: ViewModelBindingsView, id: WidgetIdView)
    ensures
        v.bound(id).bound(id) == v.bound(id),
{
    law_bind_binds(v, id, id.text());
}

/// Law: after unbinding a widget it is not bound, and every other widget is
/// bound exactly when it was before.
pub proof fn law_unbind_unbinds(v: ViewModelBindingsView, id: WidgetIdView, text: Seq<char>)
    ensures
        !v.unbound(id).is_bound(id.text()),
        text != id.text() ==> (v.unbound(id).is_bound(text) == v.is_bound(text)),
{
    let pred = |w: WidgetIdView| w.text() != id.text();
    let f = v.widgets.filter(pred);
    assert(f == v.unbound(id).widgets);
    if v.unbound(id).is_bound(id.text()) {
        let i = choose|i: int| 0 <= i < f.len() && (#[trigger] f[i]).text() == id.text();
        v.widgets.lemma_filter_pred(pred, i);
    }
    if text != id.text() {
        if v.unbound(id).is_bound(text) {
            let i = choose|i: int| 0 <= i < f.len() && (#[trigger] f[i]).text() == text;
            assert(f.contains(f[i]));
            v.widgets.lemma_filter_contains_rev(pred, f[i]);
            let j = choose|j: int| 0 <= j < v.widgets.len() && v.widgets[j] == f[i];
            assert((v.widgets[j]).text() == text);
        }
        if v.is_bound(text) {
            let i = choose|i: int| 0 <= i < v.widgets.len() && (#[trigger] v.widgets[i]).text() == text;
            assert(pred(v.widgets[i]));
            v.widgets.lemma_filter_contains(pred, i);
            assert(f.contains(v.widgets[i]));
            let j = choose|j: int| 0 <= j < f.len() && f[j] == v.widgets[i];
            assert((f[j]).text() == text);
        }
    }
}

/// Filtering keeps a sequence whole when every element passes.
proof fn lemma_filter_all(s: Seq<WidgetIdView>, pred: spec_fn(WidgetIdView) -> bool)
    requires
        forall|i: int| 0 <= i < s.len() ==> pred(#[trigger] s[i]),
    ensures
        s.filter(pred) == s,
    decreases s.len(),
{
    reveal_with_fuel(Seq::filter, 1);
    if s.len() > 0 {
        assert forall|i: int| 0 <= i < s.drop_last().len() implies pred(#[trigger] s.drop_last()[i]) by {
            assert(pred(s[i]));
        }
        lemma_filter_all(s.drop_last(), pred);
        assert(pred(s[s.len() - 1]));
        assert(s.drop_last().push(s.last()) =~= s);
    }
}

/// Law: unbinding a widget that was just bound, where it was not bound
/// before, gives back the bindings as they were.
pub proof fn law_unbind_undoes_bind(v: ViewModelBindingsView, id: WidgetIdView)
    requires
        v.is_valid(),
        !v.is_bound(id.text()),
    ensures
        v.bound(id).unbound(id) == v,
{
    let pred = |w: WidgetIdView| w.text() != id.text();
    let pushed = v.widgets.push(id);
    reveal_with_fuel(Seq::filter, 1);
    assert(pushed.drop_last() =~= v.widgets);
    assert(!pred(pushed.last()));
    assert(pushed.filter(pred) == v.widgets.filter(pred));
    assert forall|i: int| 0 <= i < v.widgets.len() implies pred(#[trigger] v.widgets[i]) by {
        if !pred(v.widgets[i]) {
            assert(v.is_bound(id.text()));
        }
    }
    lemma_filter_all(v.widgets, pred);
}

// ---------------------------------------------------------------------------
// Properties of a view-model: bindings by property name
// ---------------------------------------------------------------------------

impl ViewModelBindingsView {
    /// Whether consuming the notification reports a change.
    pub open spec fn notified(self) -> bool {
        self.widgets.len() > 0 && self.notify
    }

    /// The bindings after their notification is consumed.
    pub open spec fn consumed(self) -> ViewModelBindingsView {
        ViewModelBindingsView { notify: self.notify && self.widgets.len() == 0, ..self }
    }

    /// The bindings after a notification.
    pub open spec fn notified_again(self) -> ViewModelBindingsView {
        ViewModelBindingsView { notify: true, ..self }
    }
}

/// The view of fresh bindings: no widgets, a pending notification.
pub open spec fn fresh_bindings() -> ViewModelBindingsView {
    ViewModelBindingsView {
        widgets: Seq::empty(),
        common_root: WidgetIdCommonView { id: None, count: usize::MAX as nat },
        notify: true,
    }
}

/// A common root with nothing included.
pub open spec fn no_root() -> WidgetIdCommonView {
    WidgetIdCommonView { id: None, count: usize::MAX as nat }
}

/// The named bindings of a view-model, in the order the names were first used.
pub type PropertiesView = Seq<(Seq<char>, ViewModelBindingsView)>;

/// No name occurs twice.
pub open spec fn distinct_names(p: PropertiesView) -> bool {
    forall|i: int, j: int| 0 <= i < j < p.len() ==> (#[trigger] p[i]).0 != (#[trigger] p[j]).0
}

/// The common root of the notified properties, taken in order.
pub open spec fn notified_root(p: PropertiesView) -> WidgetIdCommonView
    decreases p.len(),
{
    if p.len() == 0 {
        no_root()
    } else {
        let r = notified_root(p.drop_last());
        if p.last().1.notified() {
            r.include_other(p.last().1.common_root)
        } else {
            r
        }
    }
}

/// Every property's notification consumed.
pub open spec fn all_consumed(p: PropertiesView) -> PropertiesView {
    p.map_values(|e: (Seq<char>, ViewModelBindingsView)| (e.0, e.1.consumed()))
}

/// The bindings of a view-model's properties, by property name.
pub struct ViewModelProperties {
    inner: Vec<(String, ViewModelBindings)>,
}

impl View for ViewModelProperties {
    type V = PropertiesView;

    closed spec fn view(&self) -> PropertiesView {
        self.inner@.map_values(|e: (String, ViewModelBindings)| (e.0@, e.1@))
    }
}

impl ViewModelProperties {
    /// Each name once.
    pub closed spec fn wf(&self) -> bool {
        distinct_names(self@)
    }

    /// No properties.
    pub fn new() -> (r: Self)
        ensures
            r.wf(),
            r@ == Seq::<(Seq<char>, ViewModelBindingsView)>::empty(),
    {
        let r = ViewModelProperties { inner: Vec::new() };
        assert(r@ =~= Seq::<(Seq<char>, ViewModelBindingsView)>::empty());
        r
    }

    /// The position of the property named `name`.
    fn find(&self, name: &str) -> (r: Option<usize>)
        ensures
            match r {
                Some(i) => i < self@.len() && self@[i as int].0 == name@,
                None => forall|i: int| 0 <= i < self@.len() ==> (#[trigger] self@[i]).0 != name@,
            },
    {
        let mut i: usize = 0;
        while i < self.inner.len()
            invariant
                i <= self.inner@.len(),
                forall|j: int| 0 <= j < i ==> (#[trigger] self@[j]).0 != name@,
            decreases self.inner@.len() - i,
        {
            if str_eq(self.inner[i].0.as_str(), name) {
                return Some(i);
            }
            proof {
                assert(self@[i as int].0 == self.inner@[i as int].0@);
            }
            i = i + 1;
        }
        None
    }

    /// Whether a property named `name` has bindings.
    pub fn has(&self, name: &str) -> (r: bool)
        ensures
            r == (exists|i: int| 0 <= i < self@.len() && (#[trigger] self@[i]).0 == name@),
    {
        self.find(name).is_some()
    }

    /// Whether no property has bindings.
    pub fn is_empty(&self) -> (r: bool)
        ensures
            r == (self@.len() == 0),
    {
        self.inner.len() == 0
    }

    /// Forgets every property.
    pub fn clear(&mut self)
        ensures
            final(self).wf(),
            final(self)@ == Seq::<(Seq<char>, ViewModelBindingsView)>::empty(),
    {
        self.inner = Vec::new();
        assert(self@ =~= Seq::<(Seq<char>, ViewModelBindingsView)>::empty());
    }

    /// Forgets the property named `name`.
    pub fn remove(&mut self, name: &str)
        requires
            old(self).wf(),
        ensures
            final(self).wf(),
            final(self)@ == old(self)@.filter(|e: (Seq<char>, ViewModelBindingsView)| e.0 != name@),
    {
        let ghost olds = self@;
        let ghost pred = |e: (Seq<char>, ViewModelBindingsView)| e.0 != name@;
        let mut kept: Vec<(String, ViewModelBindings)> = Vec::new();
        let mut taken: Vec<(String, ViewModelBindings)> = Vec::new();
        std::mem::swap(&mut taken, &mut self.inner);
        let ghost all = taken@;
        let total = taken.len();
        let mut rest = taken;
        let mut i: usize = 0;
        proof {
            assert(all.map_values(|e: (String, ViewModelBindings)| (e.0@, e.1@)) == olds);
        }
        while rest.len() > 0
            invariant
                i <= all.len(),
                i + rest@.len() == all.len(),
                all.len() == total,
                rest@ == all.skip(i as int),
                olds == all.map_values(|e: (String, ViewModelBindings)| (e.0@, e.1@)),
                pred == (|e: (Seq<char>, ViewModelBindingsView)| e.0 != name@),
                kept@.map_values(|e: (String, ViewModelBindings)| (e.0@, e.1@)) == olds.take(
                    i as int,
                ).filter(pred),
            decreases rest@.len(),
        {
            let e = rest.remove(0);
            let ghost before = kept@;
            proof {
                reveal_with_fuel(Seq::filter, 1);
                assert(olds.take(i + 1).drop_last() =~= olds.take(i as int));
                assert(all[i as int] == e);
                assert(rest@ =~= all.skip(i + 1));
                assert(olds[i as int] == (e.0@, e.1@));
            }
            if !str_eq(e.0.as_str(), name) {
                kept.push(e);
                proof {
                    assert(kept@.map_values(|e: (String, ViewModelBindings)| (e.0@, e.1@)) =~= before.map_values(
                        |e: (String, ViewModelBindings)| (e.0@, e.1@),
                    ).push(olds[i as int]));
                }
            }
            i = i + 1;
        }
        proof {
            assert(olds.take(i as int) =~= olds);
        }
        self.inner = kept;
        proof {
            let f = olds.filter(pred);
            assert(self@ =~= f);
            lemma_filter_keeps_wf(olds, pred);
        }
    }

    /// The bindings of the property named `name`, if it has any.
    pub fn bindings(&self, name: &str) -> (r: Option<&ViewModelBindings>)
        requires
            self.wf(),
        ensures
            match r {
                Some(b) => exists|i: int|
                    0 <= i < self@.len() && (#[trigger] self@[i]).0 == name@ && b@ == self@[i].1,
                None => forall|i: int| 0 <= i < self@.len() ==> (#[trigger] self@[i]).0 != name@,
            },
    {
        match self.find(name) {
            Some(i) => Some(&self.inner[i].1),
            None => None,
        }
    }

    /// The position of the property named `name`, given fresh bindings
    /// first if it has none.
    fn entry(&mut self, name: &str) -> (r: usize)
        requires
            old(self).wf(),
        ensures
            final(self).wf(),
            final(self)@ == with_property(old(self)@, name@),
            r < final(self)@.len(),
            final(self)@[r as int].0 == name@,
    {
        match self.find(name) {
            Some(i) => i,
            None => {
                let ghost olds = self@;
                self.inner.push((name.to_owned(), ViewModelBindings::default()));
                proof {
                    assert(self@ =~= olds.push((name@, fresh_bindings())));
                    assert forall|i: int, j: int| 0 <= i < j < self@.len() implies (#[trigger] self@[i]).0
                        != (#[trigger] self@[j]).0 by {
                        if j == self@.len() - 1 {
                            assert(self@[i] == olds[i]);
                        } else {
                            assert(self@[i] == olds[i] && self@[j] == olds[j]);
                        }
                    }
                }
                self.inner.len() - 1
            },
        }
    }

    /// Changes the bindings at position `i` with `f`.
    fn change_at(&mut self, i: usize, id: &WidgetId, how: BindingChange)
        requires
            old(self).wf(),
            i < old(self)@.len(),
        ensures
            final(self).wf(),
            final(self)@ == old(self)@.update(
                i as int,
                (old(self)@[i as int].0, how.apply(old(self)@[i as int].1, id@)),
            ),
    {
        let ghost olds = self@;
        let mut entry = (String::new(), ViewModelBindings::default());
        std::mem::swap(&mut entry, &mut self.inner[i]);
        let ghost name = entry.0@;
        match how {
            BindingChange::Bind => entry.1.bind(id.clone()),
            BindingChange::Unbind => entry.1.unbind(id),
            BindingChange::Notify => entry.1.notify(),
        }
        self.inner.set(i, entry);
        proof {
            assert(self@ =~= olds.update(i as int, (olds[i as int].0, how.apply(olds[i as int].1, id@))));
            assert forall|a: int, b: int| 0 <= a < b < self@.len() implies (#[trigger] self@[a]).0
                != (#[trigger] self@[b]).0 by {
                assert(self@[a].0 == olds[a].0 && self@[b].0 == olds[b].0);
            }
        }
    }

    /// Binds widget `id` to the property named `name`.
    pub fn bind(&mut self, name: &str, id: WidgetId)
        requires
            old(self).wf(),
        ensures
            final(self).wf(),
            ({
                let base = with_property(old(self)@, name@);
                exists|i: int|
                    0 <= i < base.len() && (#[trigger] base[i]).0 == name@ && final(self)@
                        == base.update(i, (name@, base[i].1.bound(id@)))
            }),
    {
        let i = self.entry(name);
        self.change_at(i, &id, BindingChange::Bind);
    }

    /// Unbinds widget `id` from the property named `name`.
    pub fn unbind(&mut self, name: &str, id: &WidgetId)
        requires
            old(self).wf(),
        ensures
            final(self).wf(),
            ({
                let base = with_property(old(self)@, name@);
                exists|i: int|
                    0 <= i < base.len() && (#[trigger] base[i]).0 == name@ && final(self)@
                        == base.update(i, (name@, base[i].1.unbound(id@)))
            }),
    {
        let i = self.entry(name);
        self.change_at(i, id, BindingChange::Unbind);
    }

    /// Marks the property named `name` as changed, as its notifier does.
    pub fn notify(&mut self, name: &str)
        requires
            old(self).wf(),
        ensures
            final(self).wf(),
            ({
                let base = with_property(old(self)@, name@);
                exists|i: int|
                    0 <= i < base.len() && (#[trigger] base[i]).0 == name@ && final(self)@
                        == base.update(i, (name@, base[i].1.notified_again()))
            }),
    {
        let i = self.entry(name);
        let none = WidgetId::default();
        self.change_at(i, &none, BindingChange::Notify);
    }
}

impl ViewModelProperties {
    /// Unbinds widget `id` from every property.
    pub fn unbind_all(&mut self, id: &WidgetId)
        requires
            old(self).wf(),
        ensures
            final(self).wf(),
            final(self)@ == old(self)@.map_values(
                |e: (Seq<char>, ViewModelBindingsView)| (e.0, e.1.unbound(id@)),
            ),
    {
        let ghost olds = self@;
        let ghost f = |e: (Seq<char>, ViewModelBindingsView)| (e.0, e.1.unbound(id@));
        let mut i: usize = 0;
        while i < self.inner.len()
            invariant
                self.wf(),
                i <= self@.len(),
                self@.len() == olds.len(),
                f == (|e: (Seq<char>, ViewModelBindingsView)| (e.0, e.1.unbound(id@))),
                forall|k: int| 0 <= k < i ==> #[trigger] self@[k] == f(olds[k]),
                forall|k: int| i <= k < olds.len() ==> #[trigger] self@[k] == olds[k],
            decreases self@.len() - i,
        {
            self.change_at(i, id, BindingChange::Unbind);
            i = i + 1;
        }
        proof {
            assert(self@ =~= olds.map_values(f));
        }
    }

    /// Forgets every property that has no widget bound.
    pub fn remove_empty_bindings(&mut self)
        requires
            old(self).wf(),
        ensures
            final(self).wf(),
            final(self)@ == old(self)@.filter(
                |e: (Seq<char>, ViewModelBindingsView)| e.1.widgets.len() > 0,
            ),
    {
        let ghost olds = self@;
        let ghost pred = |e: (Seq<char>, ViewModelBindingsView)| e.1.widgets.len() > 0;
        let mut kept: Vec<(String, ViewModelBindings)> = Vec::new();
        let mut taken: Vec<(String, ViewModelBindings)> = Vec::new();
        std::mem::swap(&mut taken, &mut self.inner);
        let ghost all = taken@;
        let total = taken.len();
        let mut rest = taken;
        let mut i: usize = 0;
        while rest.len() > 0
            invariant
                i <= all.len(),
                i + rest@.len() == all.len(),
                all.len() == total,
                rest@ == all.skip(i as int),
                olds == all.map_values(|e: (String, ViewModelBindings)| (e.0@, e.1@)),
                pred == (|e: (Seq<char>, ViewModelBindingsView)| e.1.widgets.len() > 0),
                kept@.map_values(|e: (String, ViewModelBindings)| (e.0@, e.1@)) == olds.take(
                    i as int,
                ).filter(pred),
            decreases rest@.len(),
        {
            let e = rest.remove(0);
            let ghost before = kept@;
            proof {
                reveal_with_fuel(Seq::filter, 1);
                assert(olds.take(i + 1).drop_last() =~= olds.take(i as int));
                assert(all[i as int] == e);
                assert(rest@ =~= all.skip(i + 1));
                assert(olds[i as int] == (e.0@, e.1@));
            }
            if !e.1.is_empty() {
                kept.push(e);
                proof {
                    assert(kept@.map_values(|e: (String, ViewModelBindings)| (e.0@, e.1@))
                        =~= before.map_values(|e: (String, ViewModelBindings)| (e.0@, e.1@)).push(
                        olds[i as int],
                    ));
                }
            }
            i = i + 1;
        }
        proof {
            assert(olds.take(i as int) =~= olds);
        }
        self.inner = kept;
        proof {
            assert(self@ =~= olds.filter(pred));
            lemma_filter_keeps_wf(olds, pred);
        }
    }

    /// Consumes the notification of the first notified property, if any,
    /// and reports whether there was one.
    pub fn consume_notification(&mut self) -> (r: bool)
        requires
            old(self).wf(),
        ensures
            final(self).wf(),
            r == (exists|i: int| 0 <= i < old(self)@.len() && (#[trigger] old(self)@[i]).1.notified()),
            r ==> ({
                let k = first_notified(old(self)@);
                final(self)@ == old(self)@.update(k, (old(self)@[k].0, old(self)@[k].1.consumed()))
            }),
            !r ==> final(self)@ == old(self)@,
    {
        let ghost olds = self@;
        let mut i: usize = 0;
        while i < self.inner.len()
            invariant
                self@ == olds,
                olds == old(self)@,
                self.wf(),
                i <= olds.len(),
                forall|k: int| 0 <= k < i ==> !(#[trigger] olds[k]).1.notified(),
            decreases olds.len() - i,
        {
            proof {
                assert(self@[i as int] == (self.inner@[i as int].0@, self.inner@[i as int].1@));
            }
            if self.inner[i].1.widgets.len() > 0 && self.inner[i].1.notify {
                let ghost pre = self.inner@;
                let mut entry = (String::new(), ViewModelBindings::default());
                std::mem::swap(&mut entry, &mut self.inner[i]);
                proof {
                    assert(entry == pre[i as int]);
                    assert(entry.1@ == olds[i as int].1);
                }
                let consumed = entry.1.consume_notification();
                self.inner.set(i, entry);
                proof {
                    assert(consumed);
                    assert(self.inner@ =~= pre.update(i as int, entry));
                    assert(olds[i as int].1.notified());
                    assert(first_notified(olds) == i) by {
                        let k = first_notified(olds);
                        lemma_first_notified(olds, i as int);
                    }
                    assert(self@ =~= olds.update(i as int, (olds[i as int].0, olds[i as int].1.consumed())));
                    assert forall|a: int, b: int| 0 <= a < b < self@.len() implies (#[trigger] self@[a]).0
                        != (#[trigger] self@[b]).0 by {
                        assert(self@[a].0 == olds[a].0 && self@[b].0 == olds[b].0);
                    }
                }
                return consumed;
            }
            proof {
                assert(!olds[i as int].1.notified());
            }
            i = i + 1;
        }
        false
    }

    /// Consumes every property's notification and gives the common root of
    /// the widgets bound to the notified ones: where a rebuild must start.
    pub fn consume_notified_common_root(&mut self) -> (r: WidgetIdCommon)
        requires
            old(self).wf(),
        ensures
            final(self).wf(),
            r@ == notified_root(old(self)@),
            final(self)@ == all_consumed(old(self)@),
    {
        let ghost olds = self@;
        let mut result = WidgetIdCommon::default();
        let mut i: usize = 0;
        while i < self.inner.len()
            invariant
                self.wf(),
                i <= self@.len(),
                self@.len() == olds.len(),
                forall|k: int| 0 <= k < i ==> #[trigger] self@[k] == (olds[k].0, olds[k].1.consumed()),
                forall|k: int| i <= k < olds.len() ==> #[trigger] self@[k] == olds[k],
                result@ == notified_root(olds.take(i as int)),
            decreases self@.len() - i,
        {
            proof {
                assert(self@[i as int] == (self.inner@[i as int].0@, self.inner@[i as int].1@));
            }
            let ghost pre = self.inner@;
            let ghost before = self@;
            let mut entry = (String::new(), ViewModelBindings::default());
            std::mem::swap(&mut entry, &mut self.inner[i]);
            let ghost e = (entry.0@, entry.1@);
            proof {
                assert(entry == pre[i as int]);
                assert(e == olds[i as int]);
            }
            if entry.1.consume_notification() {
                result.include_other(entry.1.common_root());
            }
            self.inner.set(i, entry);
            proof {
                assert(self.inner@ =~= pre.update(i as int, entry));
                let t = olds.take(i + 1);
                assert(t.drop_last() =~= olds.take(i as int));
                assert(t.last() == olds[i as int]);
                assert forall|k: int| 0 <= k < self@.len() && k != i implies #[trigger] self@[k] == before[k] by {}
                assert forall|a: int, b: int| 0 <= a < b < self@.len() implies (#[trigger] self@[a]).0
                    != (#[trigger] self@[b]).0 by {
                    assert(self@[a].0 == olds[a].0 && self@[b].0 == olds[b].0);
                }
            }
            i = i + 1;
        }
        proof {
            assert(olds.take(i as int) =~= olds);
            assert(self@ =~= all_consumed(olds));
        }
        result
    }
}

/// The position of the first notified property.
pub open spec fn first_notified(p: PropertiesView) -> int {
    choose|k: int|
        0 <= k < p.len() && (#[trigger] p[k]).1.notified() && forall|j: int|
            0 <= j < k ==> !(#[trigger] p[j]).1.notified()
}

/// The first notified property is the one before which none is notified.
proof fn lemma_first_notified(p: PropertiesView, i: int)
    requires
        0 <= i < p.len(),
        p[i].1.notified(),
        forall|j: int| 0 <= j < i ==> !(#[trigger] p[j]).1.notified(),
    ensures
        first_notified(p) == i,
{
    let k = first_notified(p);
    assert(0 <= k < p.len() && p[k].1.notified() && forall|j: int| 0 <= j < k ==> !(#[trigger] p[j]).1.notified());
    if k < i {
        assert(!p[k].1.notified());
    } else if k > i {
        assert(!p[i].1.notified());
    }
}

/// A change to one property's bindings.
enum BindingChange {
    Bind,
    Unbind,
    Notify,
}

impl BindingChange {
    /// The bindings after this change, for widget `id`.
    spec fn apply(self, b: ViewModelBindingsView, id: WidgetIdView) -> ViewModelBindingsView {
        match self {
            BindingChange::Bind => b.bound(id),
            BindingChange::Unbind => b.unbound(id),
            BindingChange::Notify => b.notified_again(),
        }
    }
}

/// The properties with `name` given fresh bindings at the end if it has none.
pub open spec fn with_property(p: PropertiesView, name: Seq<char>) -> PropertiesView {
    if exists|i: int| 0 <= i < p.len() && (#[trigger] p[i]).0 == name {
        p
    } else {
        p.push((name, fresh_bindings()))
    }
}

/// Filtering properties keeps names distinct and bindings valid.
proof fn lemma_filter_keeps_wf(p: PropertiesView, pred: spec_fn((Seq<char>, ViewModelBindingsView)) -> bool)
    requires
        distinct_names(p),
    ensures
        distinct_names(p.filter(pred)),
    decreases p.len(),
{
    reveal_with_fuel(Seq::filter, 1);
    if p.len() > 0 {
        let q = p.drop_last();
        assert forall|i: int, j: int| 0 <= i < j < q.len() implies (#[trigger] q[i]).0 != (#[trigger] q[j]).0 by {
            assert(q[i] == p[i] && q[j] == p[j]);
        }
        lemma_filter_keeps_wf(q, pred);
        let fq = q.filter(pred);
        if pred(p.last()) {
            assert forall|i: int| 0 <= i < fq.len() implies (#[trigger] fq[i]).0 != p.last().0 by {
                assert(fq.contains(fq[i]));
                q.lemma_filter_contains_rev(pred, fq[i]);
                let j = choose|j: int| 0 <= j < q.len() && q[j] == fq[i];
                assert(p[j] == q[j]);
            }
            let f = fq.push(p.last());
            assert(f == p.filter(pred));
            assert forall|i: int, j: int| 0 <= i < j < f.len() implies (#[trigger] f[i]).0 != (#[trigger] f[j]).0 by {
                if j < f.len() - 1 {
                    assert(f[i] == fq[i] && f[j] == fq[j]);
                } else {
                    assert(f[i] == fq[i]);
                }
            }
        }
    }
}

/// Law: once every notification is consumed, nothing is notified: a second
/// consumption finds no root and reports no change.
pub proof fn law_consumed_root_is_empty(p: PropertiesView)
    ensures
        notified_root(all_consumed(p)) == no_root(),
        forall|i: int| 0 <= i < p.len() ==> !(#[trigger] all_consumed(p)[i]).1.notified(),
    decreases p.len(),
{
    if p.len() > 0 {
        law_consumed_root_is_empty(p.drop_last());
        assert(all_consumed(p).drop_last() =~= all_consumed(p.drop_last()));
    } else {
        assert(all_consumed(p).len() == 0);
    }
}

/// Law: a notified property with widgets bound is reported by the next
/// consumption; one with no widget bound is not.
pub proof fn law_notify_then_consume(b: ViewModelBindingsView)
    ensures
        b.notified_again().notified() == (b.widgets.len() > 0),
        !b.notified_again().consumed().notified(),
{
}

} // verus!
