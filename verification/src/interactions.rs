//! The default interactions engine's bookkeeping: which widgets are
//! navigation containers, items, buttons and text inputs, which chain of
//! them is selected and which text input has focus, and what each change
//! tells the widgets; and what an interactions pass reports.

use vstd::prelude::*;

use crate::navigation::{NavTextChange, NavType};
use crate::text::{chars_of, join_parts};
use crate::widget_id::{WidgetId, WidgetIdView};

verus! {

/// A pointer button: the one that triggers, or the one that opens a context.
#[derive(Debug, Clone, Copy, PartialEq, Eq, Structural)]
pub enum PointerButton {
    Trigger,
    Context,
}

/// Which kinds of input an interactions pass captured.
#[derive(Debug, Clone, Copy, PartialEq, Eq, Structural)]
pub struct DefaultInteractionsEngineResult {
    pub captured_pointer_location: bool,
    pub captured_pointer_action: bool,
    pub captured_text_change: bool,
}

impl Default for DefaultInteractionsEngineResult {
    /// Nothing captured.
    fn default() -> (r: Self)
        ensures
            !r.captured_pointer_location,
            !r.captured_pointer_action,
            !r.captured_text_change,
    {
        DefaultInteractionsEngineResult {
            captured_pointer_location: false,
            captured_pointer_action: false,
            captured_text_change: false,
        }
    }
}

impl DefaultInteractionsEngineResult {
    /// Some input was captured.
    pub fn is_any(&self) -> (r: bool)
        ensures
            r == (self.captured_pointer_action || self.captured_pointer_location
                || self.captured_text_change),
    {
        self.captured_pointer_action || self.captured_pointer_location || self.captured_text_change
    }

    /// No input was captured.
    pub fn is_none(&self) -> (r: bool)
        ensures
            r == !(self.captured_pointer_action || self.captured_pointer_location
                || self.captured_text_change),
    {
        !self.is_any()
    }
}

/// What the engine tells a widget.
#[derive(Debug, Clone, Copy, PartialEq, Eq, Structural)]
pub enum NavNotice {
    /// It is now part of the selected chain.
    Selected,
    /// It left the selected chain.
    Unselected,
    /// It is the focused text input now.
    FocusGained,
    /// It stopped being the focused text input.
    FocusLost,
}

/// The views of identifiers.
pub open spec fn id_views(s: Seq<WidgetId>) -> Seq<WidgetIdView> {
    s.map_values(|w: WidgetId| w@)
}

/// The views of notices.
pub open spec fn notice_views(s: Seq<(WidgetId, NavNotice)>) -> Seq<(WidgetIdView, NavNotice)> {
    s.map_values(|n: (WidgetId, NavNotice)| (n.0@, n.1))
}

/// Some identifier in `s` has the text `t`.
pub open spec fn has_text(s: Seq<WidgetIdView>, t: Seq<char>) -> bool {
    exists|i: int| 0 <= i < s.len() && #[trigger] s[i].text() == t
}

/// The container that owns the item with text `t`: the last entry for it.
pub open spec fn owner_of(owners: Seq<(WidgetIdView, WidgetIdView)>, t: Seq<char>) -> Option<WidgetIdView>
    decreases owners.len(),
{
    if owners.len() == 0 {
        None
    } else if owners.last().0.text() == t {
        Some(owners.last().1)
    } else {
        owner_of(owners.drop_last(), t)
    }
}

/// Follows owners up from `id`, at most `fuel` steps: each step adds the
/// current identifier and, unless it is already there, its owner.
pub open spec fn owner_walk(
    owners: Seq<(WidgetIdView, WidgetIdView)>,
    id: WidgetIdView,
    acc: Seq<WidgetIdView>,
    fuel: nat,
) -> Seq<WidgetIdView>
    decreases fuel,
{
    if fuel == 0 {
        acc
    } else {
        match owner_of(owners, id.text()) {
            None => acc,
            Some(o) => {
                let a1 = acc.push(id);
                let a2 = if has_text(a1, o.text()) {
                    a1
                } else {
                    a1.push(o)
                };
                owner_walk(owners, o, a2, (fuel - 1) as nat)
            },
        }
    }
}

/// The chain selected when `id` is selected: from the outermost owner down
/// to `id`. Empty when `id` is no registered item.
pub open spec fn selection_chain(owners: Seq<(WidgetIdView, WidgetIdView)>, id: WidgetIdView) -> Seq<WidgetIdView> {
    owner_walk(owners, id, Seq::empty(), owners.len()).reverse()
}

/// How many leading identifiers two chains share.
pub open spec fn common_len(a: Seq<WidgetIdView>, b: Seq<WidgetIdView>) -> nat
    decreases a.len(),
{
    if a.len() == 0 || b.len() == 0 || a[0].text() != b[0].text() {
        0
    } else {
        1 + common_len(a.drop_first(), b.drop_first())
    }
}

/// Each identifier with the same notice.
pub open spec fn notify_all(s: Seq<WidgetIdView>, n: NavNotice) -> Seq<(WidgetIdView, NavNotice)> {
    s.map_values(|w: WidgetIdView| (w, n))
}

/// Whether the chain already ends at the target (or is empty with none).
pub open spec fn ends_at(chain: Seq<WidgetIdView>, target: Option<WidgetIdView>) -> bool {
    match target {
        None => chain.len() == 0,
        Some(t) => chain.len() > 0 && chain.last().text() == t.text(),
    }
}

/// The chain after selecting `target` and the notices that go out: leaving
/// widgets are unselected, then entering ones are selected.
pub open spec fn select_outcome(
    chain: Seq<WidgetIdView>,
    owners: Seq<(WidgetIdView, WidgetIdView)>,
    target: Option<WidgetIdView>,
) -> (Seq<WidgetIdView>, Seq<(WidgetIdView, NavNotice)>) {
    if ends_at(chain, target) {
        (chain, Seq::empty())
    } else {
        match target {
            None => (Seq::empty(), notify_all(chain.reverse(), NavNotice::Unselected)),
            Some(id) => {
                let next = selection_chain(owners, id);
                let k = common_len(chain, next) as int;
                (
                    next,
                    notify_all(chain.skip(k), NavNotice::Unselected) + notify_all(
                        next.skip(k),
                        NavNotice::Selected,
                    ),
                )
            },
        }
    }
}

/// The notices that go out when focus moves from `focused` to `target`
/// (which takes focus only when it is a registered text input), and who
/// has focus after.
pub open spec fn focus_outcome(
    focused: Option<WidgetIdView>,
    inputs: Seq<WidgetIdView>,
    target: Option<WidgetIdView>,
) -> (Option<WidgetIdView>, Seq<(WidgetIdView, NavNotice)>) {
    let same = match (focused, target) {
        (None, None) => true,
        (Some(a), Some(b)) => a.text() == b.text(),
        _ => false,
    };
    if same {
        (focused, Seq::empty())
    } else {
        let lost = match focused {
            Some(f) => seq![(f, NavNotice::FocusLost)],
            None => Seq::empty(),
        };
        match target {
            Some(t) => if has_text(inputs, t.text()) {
                (Some(t), lost.push((t, NavNotice::FocusGained)))
            } else {
                (None, lost)
            },
            None => (None, lost),
        }
    }
}

/// The owner entry of `id`, if any (the last one).
fn find_owner(owners: &Vec<(WidgetId, WidgetId)>, id: &WidgetId) -> (r: Option<WidgetId>)
    ensures
        match r {
            Some(o) => owner_of(owner_views(owners@), id@.text()) == Some(o@),
            None => owner_of(owner_views(owners@), id@.text()) is None,
        },
{
    let mut i: usize = owners.len();
    proof {
        assert(owners@.take(i as int) =~= owners@);
    }
    while i > 0
        invariant
            i <= owners@.len(),
            owner_of(owner_views(owners@), id@.text()) == owner_of(owner_views(owners@.take(i as int)), id@.text()),
        decreases i,
    {
        proof {
            assert(owner_views(owners@.take(i as int)).drop_last() =~= owner_views(owners@.take(i - 1)));
            assert(owner_views(owners@.take(i as int)).last() == (owners@[i - 1].0@, owners@[i - 1].1@));
        }
        if owners[i - 1].0 == *id {
            return Some(owners[i - 1].1.clone());
        }
        i = i - 1;
    }
    proof {
        assert(owner_views(owners@.take(0)) =~= Seq::<(WidgetIdView, WidgetIdView)>::empty());
    }
    None
}

/// The views of owner entries.
pub open spec fn owner_views(s: Seq<(WidgetId, WidgetId)>) -> Seq<(WidgetIdView, WidgetIdView)> {
    s.map_values(|e: (WidgetId, WidgetId)| (e.0@, e.1@))
}

/// Whether some identifier in `s` has the text of `id`.
fn contains_id(s: &Vec<WidgetId>, id: &WidgetId) -> (r: bool)
    ensures
        r == has_text(id_views(s@), id@.text()),
{
    let mut i: usize = 0;
    while i < s.len()
        invariant
            i <= s@.len(),
            forall|j: int| 0 <= j < i ==> (#[trigger] s@[j])@.text() != id@.text(),
        decreases s@.len() - i,
    {
        if s[i] == *id {
            proof {
                assert(id_views(s@)[i as int].text() == id@.text());
            }
            return true;
        }
        i = i + 1;
    }
    proof {
        if has_text(id_views(s@), id@.text()) {
            let j = choose|j: int| 0 <= j < id_views(s@).len() && #[trigger] id_views(s@)[j].text() == id@.text();
            assert(id_views(s@)[j] == s@[j]@);
        }
    }
    false
}

/// Runs [`owner_walk`].
fn walk_owners(
    owners: &Vec<(WidgetId, WidgetId)>,
    id: WidgetId,
    acc: Vec<WidgetId>,
    fuel: usize,
) -> (r: Vec<WidgetId>)
    ensures
        id_views(r@) == owner_walk(owner_views(owners@), id@, id_views(acc@), fuel as nat),
    decreases fuel,
{
    if fuel == 0 {
        return acc;
    }
    match find_owner(owners, &id) {
        None => acc,
        Some(o) => {
            let mut acc = acc;
            let ghost a0 = id_views(acc@);
            let ghost idv = id@;
            acc.push(id);
            proof {
                assert(id_views(acc@) =~= a0.push(idv));
            }
            if !contains_id(&acc, &o) {
                let ghost a1 = id_views(acc@);
                acc.push(o.clone());
                proof {
                    assert(id_views(acc@) =~= a1.push(o@));
                }
            }
            walk_owners(owners, o, acc, fuel - 1)
        },
    }
}

/// The identifiers in reverse order.
fn reversed(v: Vec<WidgetId>) -> (r: Vec<WidgetId>)
    ensures
        id_views(r@) == id_views(v@).reverse(),
{
    let ghost v0 = v@;
    let mut v = v;
    let mut r: Vec<WidgetId> = Vec::new();
    while v.len() > 0
        invariant
            v0.len() == v@.len() + r@.len(),
            v@ == v0.take(v@.len() as int),
            id_views(r@) == id_views(v0).reverse().take(r@.len() as int),
        decreases v@.len(),
    {
        let ghost before = r@;
        let x = v.pop().unwrap();
        r.push(x);
        proof {
            assert(v@ =~= v0.take(v@.len() as int));
            assert(id_views(r@) =~= id_views(v0).reverse().take(r@.len() as int)) by {
                assert forall|k: int| 0 <= k < r@.len() implies id_views(r@)[k] == id_views(v0).reverse().take(r@.len() as int)[k] by {
                    if k < before.len() {
                        assert(r@[k] == before[k]);
                        assert(id_views(before)[k] == id_views(v0).reverse().take(before.len() as int)[k]);
                    }
                }
            }
        }
    }
    proof {
        assert(id_views(r@) =~= id_views(v0).reverse());
    }
    r
}

/// How many leading identifiers the two chains share.
fn shared_len(a: &Vec<WidgetId>, b: &Vec<WidgetId>) -> (r: usize)
    ensures
        r == common_len(id_views(a@), id_views(b@)),
        r <= a@.len(),
        r <= b@.len(),
{
    let ghost av = id_views(a@);
    let ghost bv = id_views(b@);
    let mut i: usize = 0;
    proof {
        assert(av.skip(0) =~= av);
        assert(bv.skip(0) =~= bv);
    }
    while i < a.len() && i < b.len() && a[i] == b[i]
        invariant
            i <= a@.len(),
            i <= b@.len(),
            av == id_views(a@),
            bv == id_views(b@),
            common_len(av, bv) == i + common_len(av.skip(i as int), bv.skip(i as int)),
        decreases a@.len() - i,
    {
        proof {
            assert(av.skip(i as int)[0] == a@[i as int]@);
            assert(bv.skip(i as int)[0] == b@[i as int]@);
            assert(av.skip(i as int).drop_first() =~= av.skip(i + 1));
            assert(bv.skip(i as int).drop_first() =~= bv.skip(i + 1));
        }
        i = i + 1;
    }
    proof {
        if i < a@.len() && i < b@.len() {
            assert(av.skip(i as int)[0] == a@[i as int]@);
            assert(bv.skip(i as int)[0] == b@[i as int]@);
        }
    }
    i
}

/// Appends a notice `n` for each identifier of `v` from position `k` on.
fn notify_from(v: &Vec<WidgetId>, k: usize, n: NavNotice, out: &mut Vec<(WidgetId, NavNotice)>)
    requires
        k <= v@.len(),
    ensures
        notice_views(final(out)@) == notice_views(old(out)@) + notify_all(id_views(v@).skip(k as int), n),
{
    let ghost o0 = notice_views(out@);
    let mut i: usize = k;
    while i < v.len()
        invariant
            k <= i <= v@.len(),
            notice_views(out@) == o0 + notify_all(id_views(v@).subrange(k as int, i as int), n),
        decreases v@.len() - i,
    {
        let ghost before = notice_views(out@);
        out.push((v[i].clone(), n));
        proof {
            assert(notice_views(out@) =~= before.push((v@[i as int]@, n)));
            assert(id_views(v@).subrange(k as int, i + 1) =~= id_views(v@).subrange(k as int, i as int).push(v@[i as int]@));
            assert(notify_all(id_views(v@).subrange(k as int, i + 1), n) =~= notify_all(id_views(v@).subrange(k as int, i as int), n).push((v@[i as int]@, n)));
            assert(notice_views(out@) =~= o0 + notify_all(id_views(v@).subrange(k as int, i + 1), n));
        }
        i = i + 1;
    }
    proof {
        assert(id_views(v@).subrange(k as int, i as int) =~= id_views(v@).skip(k as int));
    }
}

/// The default interactions engine's bookkeeping (single pointer, keyboard
/// and gamepad): the navigation containers with their items in order, the
/// owner of each item, the buttons and text inputs, the selected chain and
/// the focused text input.
pub struct DefaultInteractionsEngine {
    pub deselect_when_no_button_found: bool,
    containers: Vec<(WidgetId, Vec<WidgetId>)>,
    owners: Vec<(WidgetId, WidgetId)>,
    buttons: Vec<WidgetId>,
    text_inputs: Vec<WidgetId>,
    selected_chain: Vec<WidgetId>,
    focused_text_input: Option<WidgetId>,
}

impl DefaultInteractionsEngine {
    /// Whether moving the pointer off every button drops the selection.
    pub closed spec fn deselects(&self) -> bool {
        self.deselect_when_no_button_found
    }

    /// The selected chain, outermost first.
    pub closed spec fn chain_view(&self) -> Seq<WidgetIdView> {
        id_views(self.selected_chain@)
    }

    /// The owner of each registered item.
    pub closed spec fn owners_view(&self) -> Seq<(WidgetIdView, WidgetIdView)> {
        owner_views(self.owners@)
    }

    /// The registered buttons.
    pub closed spec fn buttons_view(&self) -> Seq<WidgetIdView> {
        id_views(self.buttons@)
    }

    /// The registered text inputs.
    pub closed spec fn inputs_view(&self) -> Seq<WidgetIdView> {
        id_views(self.text_inputs@)
    }

    /// The registered containers, each with its items in order.
    pub closed spec fn containers_view(&self) -> Seq<(WidgetIdView, Seq<WidgetIdView>)> {
        container_views(self.containers@)
    }

    /// The focused text input.
    pub closed spec fn focused_view(&self) -> Option<WidgetIdView> {
        match self.focused_text_input {
            Some(f) => Some(f@),
            None => None,
        }
    }

    /// Nothing registered, nothing selected or focused.
    pub fn new() -> (r: Self)
        ensures
            r.chain_view().len() == 0,
            r.owners_view().len() == 0,
            r.buttons_view().len() == 0,
            r.inputs_view().len() == 0,
            r.containers_view().len() == 0,
            r.focused_view() is None,
            !r.deselects(),
    {
        let r = DefaultInteractionsEngine {
            deselect_when_no_button_found: false,
            containers: Vec::new(),
            owners: Vec::new(),
            buttons: Vec::new(),
            text_inputs: Vec::new(),
            selected_chain: Vec::new(),
            focused_text_input: None,
        };
        proof {
            assert(r.chain_view() =~= Seq::<WidgetIdView>::empty());
            assert(r.owners_view() =~= Seq::<(WidgetIdView, WidgetIdView)>::empty());
            assert(r.buttons_view() =~= Seq::<WidgetIdView>::empty());
            assert(r.inputs_view() =~= Seq::<WidgetIdView>::empty());
            assert(r.containers_view() =~= Seq::<(WidgetIdView, Seq<WidgetIdView>)>::empty());
        }
        r
    }

    /// The selected chain, outermost first.
    pub fn selected_chain(&self) -> (r: &[WidgetId])
        ensures
            id_views(r@) == self.chain_view(),
    {
        self.selected_chain.as_slice()
    }

    /// The selected item: the end of the chain.
    pub fn selected_item(&self) -> (r: Option<&WidgetId>)
        ensures
            match r {
                Some(id) => self.chain_view().len() > 0 && id@ == self.chain_view().last(),
                None => self.chain_view().len() == 0,
            },
    {
        let n = self.selected_chain.len();
        if n == 0 {
            None
        } else {
            Some(&self.selected_chain[n - 1])
        }
    }

    /// The focused text input.
    pub fn focused_text_input(&self) -> (r: Option<&WidgetId>)
        ensures
            match r {
                Some(id) => self.focused_view() == Some(id@),
                None => self.focused_view() is None,
            },
    {
        match &self.focused_text_input {
            Some(f) => Some(f),
            None => None,
        }
    }

    /// Selects `id` (or nothing) and returns the notices for the widgets
    /// that leave and enter the selected chain, in that order.
    pub fn select_item(&mut self, id: Option<WidgetId>) -> (r: Vec<(WidgetId, NavNotice)>)
        ensures
            (final(self).chain_view(), notice_views(r@)) == select_outcome(
                old(self).chain_view(),
                old(self).owners_view(),
                match id {
                    Some(t) => Some(t@),
                    None => None,
                },
            ),
            final(self).owners_view() == old(self).owners_view(),
            final(self).buttons_view() == old(self).buttons_view(),
            final(self).inputs_view() == old(self).inputs_view(),
            final(self).containers_view() == old(self).containers_view(),
            final(self).focused_view() == old(self).focused_view(),
            final(self).deselects() == old(self).deselects(),
    {
        let ghost target = match id {
            Some(ref t) => Some(t@),
            None => None,
        };
        let n = self.selected_chain.len();
        let ends = match &id {
            None => n == 0,
            Some(t) => n > 0 && self.selected_chain[n - 1] == *t,
        };
        if ends {
            proof {
                assert(ends_at(old(self).chain_view(), target));
            }
            let none: Vec<(WidgetId, NavNotice)> = Vec::new();
            proof {
                assert(notice_views(none@) =~= Seq::<(WidgetIdView, NavNotice)>::empty());
            }
            return none;
        }
        proof {
            assert(!ends_at(old(self).chain_view(), target)) by {
                if n > 0 {
                    assert(old(self).chain_view().last() == self.selected_chain@[n - 1]@);
                }
            }
        }
        let mut previous: Vec<WidgetId> = Vec::new();
        std::mem::swap(&mut previous, &mut self.selected_chain);
        let mut out: Vec<(WidgetId, NavNotice)> = Vec::new();
        proof {
            assert(notice_views(out@) =~= Seq::<(WidgetIdView, NavNotice)>::empty());
        }
        match id {
            None => {
                let rev = reversed(previous);
                notify_from(&rev, 0, NavNotice::Unselected, &mut out);
                proof {
                    assert(id_views(rev@).skip(0) =~= id_views(rev@));
                    assert(notice_views(out@) =~= notify_all(old(self).chain_view().reverse(), NavNotice::Unselected));
                    assert(id_views(self.selected_chain@) =~= Seq::<WidgetIdView>::empty());
                }
            },
            Some(t) => {
                let n_owners = self.owners.len();
                let start: Vec<WidgetId> = Vec::new();
                proof {
                    assert(id_views(start@) =~= Seq::<WidgetIdView>::empty());
                }
                let walked = walk_owners(&self.owners, t, start, n_owners);
                let next = reversed(walked);
                let k = shared_len(&previous, &next);
                notify_from(&previous, k, NavNotice::Unselected, &mut out);
                notify_from(&next, k, NavNotice::Selected, &mut out);
                proof {
                    assert(Seq::<(WidgetIdView, NavNotice)>::empty() + notify_all(id_views(previous@).skip(k as int), NavNotice::Unselected)
                        =~= notify_all(id_views(previous@).skip(k as int), NavNotice::Unselected));
                }
                self.selected_chain = next;
            },
        }
        out
    }

    /// Registers `id` under the role `kind`: a container starts with no
    /// items; an item goes last among the items of the deepest container
    /// whose path begins its own (the last such when several are equally
    /// deep), which becomes its owner; buttons and text inputs join their
    /// sets. Other roles change nothing here.
    pub fn register(&mut self, id: &WidgetId, kind: &NavType)
        ensures
            (final(self).containers_view(), final(self).owners_view(), final(self).buttons_view(),
                final(self).inputs_view()) == registered(
                old(self).containers_view(),
                old(self).owners_view(),
                old(self).buttons_view(),
                old(self).inputs_view(),
                id@,
                *kind,
            ),
            final(self).chain_view() == old(self).chain_view(),
            final(self).focused_view() == old(self).focused_view(),
            final(self).deselects() == old(self).deselects(),
    {
        let ghost before = (
            container_views(self.containers@),
            owner_views(self.owners@),
            id_views(self.buttons@),
            id_views(self.text_inputs@),
        );
        match kind {
            NavType::Container => {
                let ghost c0 = container_views(self.containers@);
                let entry = (id.clone(), Vec::new());
                proof {
                    assert(id_views(entry.1@) =~= Seq::<WidgetIdView>::empty());
                }
                proof {
                    lemma_last_pos(c0, id@.text());
                }
                match find_container(&self.containers, id) {
                    Some(j) => {
                        self.containers.set(j, entry);
                        proof {
                            assert(container_views(self.containers@) =~= c0.update(j as int, (id@, Seq::<WidgetIdView>::empty())));
                        }
                    },
                    None => {
                        self.containers.push(entry);
                        proof {
                            assert(container_views(self.containers@) =~= c0.push((id@, Seq::<WidgetIdView>::empty())));
                        }
                    },
                }
            },
            NavType::Item => {
                let ghost c0 = container_views(self.containers@);
                let ghost o0 = owner_views(self.owners@);
                let count = self.containers.len();
                proof {
                    lemma_owning_container_below(container_keys(c0), id@);
                    assert(container_keys(c0).len() == count);
                }
                match find_owning_container(&self.containers, id) {
                    Some(b) => {
                        let key = self.containers[b].0.clone();
                        let mut items = clone_ids(&self.containers[b].1);
                        let ghost i0 = id_views(items@);
                        match find_first(&items, id) {
                            Some(p) => {
                                items.remove(p);
                                proof {
                                    assert(id_views(items@) =~= i0.remove(p as int));
                                }
                            },
                            None => {},
                        }
                        let ghost i1 = id_views(items@);
                        items.push(id.clone());
                        proof {
                            assert(id_views(items@) =~= i1.push(id@));
                            assert(id_views(items@) == moved_to_end(c0[b as int].1, id@));
                        }
                        let owner_key = key.clone();
                        self.containers.set(b, (key, items));
                        proof {
                            assert(container_views(self.containers@) =~= c0.update(
                                b as int,
                                (c0[b as int].0, moved_to_end(c0[b as int].1, id@)),
                            ));
                        }
                        let entry = (id.clone(), owner_key);
                        proof {
                            lemma_last_pos(o0, id@.text());
                        }
                        match find_owner_pos(&self.owners, id) {
                            Some(j) => {
                                self.owners.set(j, entry);
                                proof {
                                    assert(owner_views(self.owners@) =~= o0.update(j as int, (id@, c0[b as int].0)));
                                }
                            },
                            None => {
                                self.owners.push(entry);
                                proof {
                                    assert(owner_views(self.owners@) =~= o0.push((id@, c0[b as int].0)));
                                }
                            },
                        }
                        proof {
                            assert(owning_container(container_keys(c0), id@) == Some(b as int));
                            assert(container_keys(c0)[b as int] == c0[b as int].0);
                            assert(owner_views(self.owners@) == with_entry(o0, id@, c0[b as int].0));
                        }
                    },
                    None => {},
                }
            },
            NavType::Button => {
                if !contains_id(&self.buttons, id) {
                    let ghost b0 = id_views(self.buttons@);
                    self.buttons.push(id.clone());
                    proof {
                        assert(id_views(self.buttons@) =~= b0.push(id@));
                    }
                }
            },
            NavType::TextInput => {
                if !contains_id(&self.text_inputs, id) {
                    let ghost t0 = id_views(self.text_inputs@);
                    self.text_inputs.push(id.clone());
                    proof {
                        assert(id_views(self.text_inputs@) =~= t0.push(id@));
                    }
                }
            },
            _ => {},
        }
    }

    /// Unregisters `id` from the role `kind`: a container leaves with its
    /// items' owner entries; an item leaves its owner's items; a button or
    /// text input leaves its set, and a text input that had focus loses it.
    pub fn unregister(&mut self, id: &WidgetId, kind: &NavType)
        ensures
            (final(self).containers_view(), final(self).owners_view(), final(self).buttons_view(),
                final(self).inputs_view(), final(self).focused_view()) == unregistered(
                old(self).containers_view(),
                old(self).owners_view(),
                old(self).buttons_view(),
                old(self).inputs_view(),
                old(self).focused_view(),
                id@,
                *kind,
            ),
            final(self).chain_view() == old(self).chain_view(),
            final(self).deselects() == old(self).deselects(),
    {
        let ghost c0 = container_views(self.containers@);
        let ghost o0 = owner_views(self.owners@);
        match kind {
            NavType::Container => {
                proof {
                    lemma_last_pos(c0, id@.text());
                }
                match find_container(&self.containers, id) {
                    Some(j) => {
                        let (_, items) = self.containers.remove(j);
                        proof {
                            assert(container_views(self.containers@) =~= c0.remove(j as int));
                            assert(id_views(items@) == c0[j as int].1);
                        }
                        let kept = drop_owned(&self.owners, &items);
                        self.owners = kept;
                    },
                    None => {},
                }
            },
            NavType::Item => {
                proof {
                    lemma_last_pos(o0, id@.text());
                }
                match find_owner_pos(&self.owners, id) {
                    Some(j) => {
                        let (_, key) = self.owners.remove(j);
                        proof {
                            assert(owner_views(self.owners@) =~= o0.remove(j as int));
                            assert(key@ == o0[j as int].1);
                            lemma_last_pos(c0, key@.text());
                        }
                        match find_container(&self.containers, &key) {
                            Some(c) => {
                                let name = self.containers[c].0.clone();
                                let mut items = clone_ids(&self.containers[c].1);
                                let ghost i0 = id_views(items@);
                                match find_first(&items, id) {
                                    Some(p) => {
                                        items.remove(p);
                                        proof {
                                            assert(id_views(items@) =~= i0.remove(p as int));
                                        }
                                    },
                                    None => {},
                                }
                                self.containers.set(c, (name, items));
                                proof {
                                    assert(container_views(self.containers@) =~= c0.update(
                                        c as int,
                                        (c0[c as int].0, remove_first(c0[c as int].1, id@.text())),
                                    ));
                                }
                            },
                            None => {},
                        }
                    },
                    None => {},
                }
            },
            NavType::Button => {
                let mut buttons = Vec::new();
                std::mem::swap(&mut buttons, &mut self.buttons);
                self.buttons = drop_id(buttons, id);
            },
            NavType::TextInput => {
                let mut inputs = Vec::new();
                std::mem::swap(&mut inputs, &mut self.text_inputs);
                self.text_inputs = drop_id(inputs, id);
                let clear = match &self.focused_text_input {
                    Some(f) => *f == *id,
                    None => false,
                };
                if clear {
                    self.focused_text_input = None;
                }
            },
            _ => {},
        }
    }

    /// The selected container: the last identifier of the chain that is a
    /// registered container.
    pub fn selected_container(&self) -> (r: Option<&WidgetId>)
        ensures
            match last_member(self.chain_view(), container_keys(self.containers_view())) {
                Some(i) => r matches Some(id) && id@ == self.chain_view()[i],
                None => r is None,
            },
    {
        let mut keys: Vec<WidgetId> = Vec::new();
        let mut j: usize = 0;
        while j < self.containers.len()
            invariant
                j <= self.containers@.len(),
                id_views(keys@) == container_keys(container_views(self.containers@)).take(j as int),
            decreases self.containers@.len() - j,
        {
            let ghost before = id_views(keys@);
            let k = self.containers[j].0.clone();
            keys.push(k);
            proof {
                assert(id_views(keys@) =~= before.push(k@));
                assert(container_keys(container_views(self.containers@)).take(j + 1) =~= container_keys(
                    container_views(self.containers@),
                ).take(j as int).push(self.containers@[j as int].0@));
            }
            j = j + 1;
        }
        proof {
            assert(container_keys(container_views(self.containers@)).take(j as int) =~= container_keys(
                container_views(self.containers@),
            ));
        }
        match find_last_member(&self.selected_chain, &keys) {
            Some(i) => Some(&self.selected_chain[i]),
            None => None,
        }
    }

    /// The selected button: the last identifier of the chain that is a
    /// registered button.
    pub fn selected_button(&self) -> (r: Option<&WidgetId>)
        ensures
            match last_member(self.chain_view(), self.buttons_view()) {
                Some(i) => r matches Some(id) && id@ == self.chain_view()[i],
                None => r is None,
            },
    {
        match find_last_member(&self.selected_chain, &self.buttons) {
            Some(i) => Some(&self.selected_chain[i]),
            None => None,
        }
    }

    /// The pointer moved: `found` is the button under it, if any, and
    /// `hovers` whether it is over any widget (both from a hit test). A
    /// found button is selected; otherwise the selection is dropped when
    /// the engine is set to. Returns the notices and whether the pointer
    /// location was captured.
    pub fn pointer_moved(&mut self, found: Option<WidgetId>, hovers: bool) -> (r: (Vec<(WidgetId, NavNotice)>, bool))
        ensures
            match found {
                Some(f) => {
                    &&& (final(self).chain_view(), notice_views(r.0@)) == select_outcome(
                        old(self).chain_view(),
                        old(self).owners_view(),
                        Some(f@),
                    )
                    &&& r.1
                },
                None => {
                    &&& (old(self).deselects() ==> (final(self).chain_view(), notice_views(r.0@))
                        == select_outcome(old(self).chain_view(), old(self).owners_view(), None))
                    &&& (!old(self).deselects() ==> final(self).chain_view() == old(self).chain_view()
                        && r.0@.len() == 0)
                    &&& r.1 == hovers
                },
            },
            final(self).owners_view() == old(self).owners_view(),
            final(self).buttons_view() == old(self).buttons_view(),
            final(self).inputs_view() == old(self).inputs_view(),
            final(self).containers_view() == old(self).containers_view(),
            final(self).focused_view() == old(self).focused_view(),
            final(self).deselects() == old(self).deselects(),
    {
        match found {
            Some(f) => {
                let notices = self.select_item(Some(f));
                (notices, true)
            },
            None => {
                if self.deselect_when_no_button_found {
                    let notices = self.select_item(None);
                    (notices, hovers)
                } else {
                    (Vec::new(), hovers)
                }
            },
        }
    }

    /// Jumps within the items of the container `container`: the target
    /// that [`list_jump_target`] picks is selected; nothing happens when
    /// there is no such container or no target.
    pub fn list_jump(&mut self, container: &WidgetId, jump: NavListJump) -> (r: Vec<(WidgetId, NavNotice)>)
        ensures
            match items_of(old(self).containers_view(), container@.text()) {
                Some(items) => match list_jump_target(items, old(self).chain_view(), jump) {
                    Some(t) => (final(self).chain_view(), notice_views(r@)) == select_outcome(
                        old(self).chain_view(),
                        old(self).owners_view(),
                        Some(t),
                    ),
                    None => final(self).chain_view() == old(self).chain_view() && r@.len() == 0,
                },
                None => final(self).chain_view() == old(self).chain_view() && r@.len() == 0,
            },
            final(self).owners_view() == old(self).owners_view(),
            final(self).buttons_view() == old(self).buttons_view(),
            final(self).inputs_view() == old(self).inputs_view(),
            final(self).containers_view() == old(self).containers_view(),
            final(self).focused_view() == old(self).focused_view(),
            final(self).deselects() == old(self).deselects(),
    {
        proof {
            lemma_items_of(container_views(self.containers@), container@.text());
            lemma_last_pos(container_views(self.containers@), container@.text());
        }
        let c = match find_container(&self.containers, container) {
            Some(c) => c,
            None => return Vec::new(),
        };
        let items = clone_ids(&self.containers[c].1);
        let ghost iv = id_views(items@);
        let ghost cv = id_views(self.selected_chain@);
        assert(iv == container_views(self.containers@)[c as int].1);
        let n = items.len();
        let target: Option<WidgetId> = match jump {
            NavListJump::First => if n > 0 {
                Some(items[0].clone())
            } else {
                None
            },
            NavListJump::Last => if n > 0 {
                Some(items[n - 1].clone())
            } else {
                None
            },
            NavListJump::StepLoop(steps) => if self.selected_chain.len() == 0 {
                if steps < 0 && n > 0 {
                    Some(items[n - 1].clone())
                } else if steps > 0 && n > 0 {
                    Some(items[0].clone())
                } else {
                    None
                }
            } else {
                match find_in_chain(&items, &self.selected_chain) {
                    Some(i) => {
                        let k = wrap_index(i, steps, n);
                        Some(items[k].clone())
                    },
                    None => None,
                }
            },
            NavListJump::StepEscape(steps, escape) => if self.selected_chain.len() == 0 {
                escape
            } else {
                match find_in_chain(&items, &self.selected_chain) {
                    Some(i) => if steps < 0 {
                        let back: usize = ((-(steps + 1)) as usize) + 1;
                        if back > i {
                            escape
                        } else {
                            Some(items[i - back].clone())
                        }
                    } else if steps > 0 {
                        let on = steps as usize;
                        if on >= n - i {
                            escape
                        } else {
                            Some(items[i + on].clone())
                        }
                    } else {
                        None
                    },
                    None => None,
                }
            },
        };
        proof {
            assert(opt_view(target) == list_jump_target(iv, cv, jump));
        }
        match target {
            Some(t) => self.select_item(Some(t)),
            None => Vec::new(),
        }
    }

    /// Handles one input: selection and focus commands change the selected
    /// chain or the focus and return the notices; other commands return the
    /// widget they go to (see [`command_recipient`]); a pointer move acts
    /// as [`Self::pointer_moved`]; a pointer press or release goes to the
    /// selected button. The result tells what was captured: the pointer
    /// location by a move, the pointer action when a button took it, a text
    /// change when a focused input took it.
    pub fn perform_interaction(&mut self, interaction: Interaction) -> (r: (
        Vec<(WidgetId, NavNotice)>,
        Option<WidgetId>,
        DefaultInteractionsEngineResult,
    ))
        ensures
            final(self).owners_view() == old(self).owners_view(),
            final(self).buttons_view() == old(self).buttons_view(),
            final(self).inputs_view() == old(self).inputs_view(),
            final(self).containers_view() == old(self).containers_view(),
            final(self).deselects() == old(self).deselects(),
            match interaction {
                Interaction::Navigate(NavCommand::Select(t)) => {
                    &&& (final(self).chain_view(), notice_views(r.0@)) == select_outcome(
                        old(self).chain_view(),
                        old(self).owners_view(),
                        opt_view(t),
                    )
                    &&& final(self).focused_view() == old(self).focused_view()
                    &&& r.1 is None
                    &&& !r.2.captured_pointer_location && !r.2.captured_pointer_action && !r.2.captured_text_change
                },
                Interaction::Navigate(NavCommand::Unselect) => {
                    &&& (final(self).chain_view(), notice_views(r.0@)) == select_outcome(
                        old(self).chain_view(),
                        old(self).owners_view(),
                        None,
                    )
                    &&& final(self).focused_view() == old(self).focused_view()
                    &&& r.1 is None
                    &&& !r.2.captured_pointer_location && !r.2.captured_pointer_action && !r.2.captured_text_change
                },
                Interaction::Navigate(NavCommand::FocusTextInput(t)) => {
                    &&& (final(self).focused_view(), notice_views(r.0@)) == focus_outcome(
                        old(self).focused_view(),
                        old(self).inputs_view(),
                        opt_view(t),
                    )
                    &&& final(self).chain_view() == old(self).chain_view()
                    &&& r.1 is None
                    &&& !r.2.captured_pointer_location && !r.2.captured_pointer_action && !r.2.captured_text_change
                },
                Interaction::Navigate(cmd) => {
                    &&& final(self).chain_view() == old(self).chain_view()
                    &&& final(self).focused_view() == old(self).focused_view()
                    &&& r.0@.len() == 0
                    &&& opt_view(r.1) == command_recipient(
                        old(self).chain_view(),
                        container_keys(old(self).containers_view()),
                        old(self).focused_view(),
                        cmd,
                    )
                    &&& !r.2.captured_pointer_location && !r.2.captured_pointer_action
                    &&& r.2.captured_text_change == (cmd is TextChange && r.1 is Some)
                },
                Interaction::PointerMove(found, hovers) => {
                    &&& match found {
                        Some(f) => (final(self).chain_view(), notice_views(r.0@)) == select_outcome(
                            old(self).chain_view(),
                            old(self).owners_view(),
                            Some(f@),
                        ) && r.2.captured_pointer_location,
                        None => {
                            &&& (old(self).deselects() ==> (final(self).chain_view(), notice_views(r.0@))
                                == select_outcome(old(self).chain_view(), old(self).owners_view(), None))
                            &&& (!old(self).deselects() ==> final(self).chain_view() == old(self).chain_view()
                                && r.0@.len() == 0)
                            &&& r.2.captured_pointer_location == hovers
                        },
                    }
                    &&& final(self).focused_view() == old(self).focused_view()
                    &&& r.1 is None
                    &&& !r.2.captured_pointer_action && !r.2.captured_text_change
                },
                Interaction::PointerDown(_) | Interaction::PointerUp(_) => {
                    &&& final(self).chain_view() == old(self).chain_view()
                    &&& final(self).focused_view() == old(self).focused_view()
                    &&& r.0@.len() == 0
                    &&& opt_view(r.1) == member_of(old(self).chain_view(), old(self).buttons_view())
                    &&& r.2.captured_pointer_action == r.1 is Some
                    &&& !r.2.captured_pointer_location && !r.2.captured_text_change
                },
                Interaction::Nothing => {
                    &&& final(self).chain_view() == old(self).chain_view()
                    &&& final(self).focused_view() == old(self).focused_view()
                    &&& r.0@.len() == 0
                    &&& r.1 is None
                    &&& !r.2.captured_pointer_location && !r.2.captured_pointer_action && !r.2.captured_text_change
                },
            },
    {
        let mut result = DefaultInteractionsEngineResult::default();
        let none: Vec<(WidgetId, NavNotice)> = Vec::new();
        match interaction {
            Interaction::Nothing => (none, None, result),
            Interaction::Navigate(cmd) => match cmd {
                NavCommand::Select(t) => (self.select_item(t), None, result),
                NavCommand::Unselect => (self.select_item(None), None, result),
                NavCommand::FocusTextInput(t) => (self.focus_text_input(t), None, result),
                NavCommand::Accept(_) | NavCommand::Context(_) | NavCommand::Cancel(_) => {
                    let to = match self.selected_item() {
                        Some(id) => Some(id.clone()),
                        None => None,
                    };
                    (none, to, result)
                },
                NavCommand::Up | NavCommand::Down | NavCommand::Left | NavCommand::Right
                | NavCommand::Prev | NavCommand::Next => {
                    let to = match self.selected_container() {
                        Some(id) => Some(id.clone()),
                        None => None,
                    };
                    (none, to, result)
                },
                NavCommand::TextChange(_) => {
                    let to = match self.focused_text_input() {
                        Some(id) => Some(id.clone()),
                        None => None,
                    };
                    result.captured_text_change = to.is_some();
                    (none, to, result)
                },
                NavCommand::Custom(target, _) => {
                    let to = match target {
                        Some(id) => Some(id),
                        None => match self.selected_item() {
                            Some(id) => Some(id.clone()),
                            None => None,
                        },
                    };
                    (none, to, result)
                },
            },
            Interaction::PointerMove(found, hovers) => {
                let (notices, captured) = self.pointer_moved(found, hovers);
                result.captured_pointer_location = captured;
                (notices, None, result)
            },
            Interaction::PointerDown(_) | Interaction::PointerUp(_) => {
                let to = match self.selected_button() {
                    Some(id) => Some(id.clone()),
                    None => None,
                };
                result.captured_pointer_action = to.is_some();
                (none, to, result)
            },
        }
    }

    /// Moves focus to `id` when it is a registered text input (else focus
    /// is dropped) and returns the notices: the input that loses focus,
    /// then the one that gains it.
    pub fn focus_text_input(&mut self, id: Option<WidgetId>) -> (r: Vec<(WidgetId, NavNotice)>)
        ensures
            (final(self).focused_view(), notice_views(r@)) == focus_outcome(
                old(self).focused_view(),
                old(self).inputs_view(),
                match id {
                    Some(t) => Some(t@),
                    None => None,
                },
            ),
            final(self).chain_view() == old(self).chain_view(),
            final(self).owners_view() == old(self).owners_view(),
            final(self).buttons_view() == old(self).buttons_view(),
            final(self).inputs_view() == old(self).inputs_view(),
            final(self).containers_view() == old(self).containers_view(),
            final(self).deselects() == old(self).deselects(),
    {
        let same = match (&self.focused_text_input, &id) {
            (None, None) => true,
            (Some(a), Some(b)) => *a == *b,
            _ => false,
        };
        let mut out: Vec<(WidgetId, NavNotice)> = Vec::new();
        if same {
            proof {
                assert(notice_views(out@) =~= Seq::<(WidgetIdView, NavNotice)>::empty());
            }
            return out;
        }
        let previous = self.focused_text_input.take();
        match previous {
            Some(f) => {
                out.push((f, NavNotice::FocusLost));
            },
            None => {},
        }
        let ghost lost = notice_views(out@);
        match id {
            Some(t) => {
                if contains_id(&self.text_inputs, &t) {
                    out.push((t.clone(), NavNotice::FocusGained));
                    self.focused_text_input = Some(t);
                    proof {
                        assert(notice_views(out@) =~= lost.push((t@, NavNotice::FocusGained)));
                    }
                }
            },
            None => {},
        }
        proof {
            assert(lost =~= match old(self).focused_view() {
                Some(f) => seq![(f, NavNotice::FocusLost)],
                None => Seq::<(WidgetIdView, NavNotice)>::empty(),
            });
        }
        out
    }
}

/// The first position of the text `t` in `s`, if any.
pub open spec fn first_pos(s: Seq<WidgetIdView>, t: Seq<char>) -> Option<int>
    decreases s.len(),
{
    if s.len() == 0 {
        None
    } else if s[0].text() == t {
        Some(0)
    } else {
        match first_pos(s.drop_first(), t) {
            Some(i) => Some(i + 1),
            None => None,
        }
    }
}

/// `s` without the first occurrence of `t`, then `id` at the end.
pub open spec fn moved_to_end(s: Seq<WidgetIdView>, id: WidgetIdView) -> Seq<WidgetIdView> {
    match first_pos(s, id.text()) {
        Some(i) => s.remove(i).push(id),
        None => s.push(id),
    }
}

/// Whether the path text of `container` begins the path text of `item`.
pub open spec fn path_begins(container: WidgetIdView, item: WidgetIdView) -> bool {
    join_parts(container.parts).is_prefix_of(join_parts(item.parts))
}

/// The position of the container that takes `item`: among those whose path
/// begins the item's, the deepest, and of equally deep ones the last.
pub open spec fn owning_container(keys: Seq<WidgetIdView>, item: WidgetIdView) -> Option<int>
    decreases keys.len(),
{
    if keys.len() == 0 {
        None
    } else {
        let last = keys.len() - 1;
        let before = owning_container(keys.drop_last(), item);
        if path_begins(keys[last], item) {
            match before {
                Some(i) => if keys[i].parts.len() > keys[last].parts.len() {
                    Some(i)
                } else {
                    Some(last)
                },
                None => Some(last),
            }
        } else {
            before
        }
    }
}

/// The items of the container with text `t` (the last entry for it).
pub open spec fn items_of(containers: Seq<(WidgetIdView, Seq<WidgetIdView>)>, t: Seq<char>) -> Option<Seq<WidgetIdView>>
    decreases containers.len(),
{
    if containers.len() == 0 {
        None
    } else if containers.last().0.text() == t {
        Some(containers.last().1)
    } else {
        items_of(containers.drop_last(), t)
    }
}

/// Whether `a` begins `b`.
fn chars_begin(a: &Vec<char>, b: &Vec<char>) -> (r: bool)
    ensures
        r == a@.is_prefix_of(b@),
{
    if a.len() > b.len() {
        return false;
    }
    let mut i: usize = 0;
    while i < a.len()
        invariant
            i <= a@.len() <= b@.len(),
            forall|j: int| 0 <= j < i ==> a@[j] == b@[j],
        decreases a@.len() - i,
    {
        if a[i] != b[i] {
            return false;
        }
        i = i + 1;
    }
    proof {
        assert(a@ =~= b@.subrange(0, a@.len() as int));
    }
    true
}

/// The views of container entries.
pub open spec fn container_views(s: Seq<(WidgetId, Vec<WidgetId>)>) -> Seq<(WidgetIdView, Seq<WidgetIdView>)> {
    s.map_values(|e: (WidgetId, Vec<WidgetId>)| (e.0@, id_views(e.1@)))
}

/// The container identifiers, in order.
pub open spec fn container_keys(s: Seq<(WidgetIdView, Seq<WidgetIdView>)>) -> Seq<WidgetIdView> {
    s.map_values(|e: (WidgetIdView, Seq<WidgetIdView>)| e.0)
}

/// The last position whose first component has the text `t`.
pub open spec fn last_pos<V>(s: Seq<(WidgetIdView, V)>, t: Seq<char>) -> Option<int>
    decreases s.len(),
{
    if s.len() == 0 {
        None
    } else if s.last().0.text() == t {
        Some(s.len() - 1)
    } else {
        last_pos(s.drop_last(), t)
    }
}

/// `s` with the entry for `k`'s text set to `(k, v)`: its last entry is
/// replaced, or the pair is appended.
pub open spec fn with_entry<V>(s: Seq<(WidgetIdView, V)>, k: WidgetIdView, v: V) -> Seq<(WidgetIdView, V)> {
    match last_pos(s, k.text()) {
        Some(j) => s.update(j, (k, v)),
        None => s.push((k, v)),
    }
}

/// `s` with `id` added unless its text is there.
pub open spec fn with_member(s: Seq<WidgetIdView>, id: WidgetIdView) -> Seq<WidgetIdView> {
    if has_text(s, id.text()) {
        s
    } else {
        s.push(id)
    }
}

/// The containers, owners, buttons and text inputs after `id` registers
/// as `kind`.
pub open spec fn registered(
    containers: Seq<(WidgetIdView, Seq<WidgetIdView>)>,
    owners: Seq<(WidgetIdView, WidgetIdView)>,
    buttons: Seq<WidgetIdView>,
    inputs: Seq<WidgetIdView>,
    id: WidgetIdView,
    kind: NavType,
) -> (Seq<(WidgetIdView, Seq<WidgetIdView>)>, Seq<(WidgetIdView, WidgetIdView)>, Seq<WidgetIdView>, Seq<WidgetIdView>) {
    match kind {
        NavType::Container => (with_entry(containers, id, Seq::empty()), owners, buttons, inputs),
        NavType::Item => match owning_container(container_keys(containers), id) {
            Some(i) => (
                containers.update(i, (containers[i].0, moved_to_end(containers[i].1, id))),
                with_entry(owners, id, containers[i].0),
                buttons,
                inputs,
            ),
            None => (containers, owners, buttons, inputs),
        },
        NavType::Button => (containers, owners, with_member(buttons, id), inputs),
        NavType::TextInput => (containers, owners, buttons, with_member(inputs, id)),
        _ => (containers, owners, buttons, inputs),
    }
}

/// Copies of the identifiers.
fn clone_ids(v: &Vec<WidgetId>) -> (r: Vec<WidgetId>)
    ensures
        id_views(r@) == id_views(v@),
{
    let mut r: Vec<WidgetId> = Vec::new();
    let mut i: usize = 0;
    while i < v.len()
        invariant
            i <= v@.len(),
            id_views(r@) == id_views(v@.take(i as int)),
        decreases v@.len() - i,
    {
        let ghost before = r@;
        let c = v[i].clone();
        r.push(c);
        proof {
            assert(v@.take(i + 1) =~= v@.take(i as int).push(v@[i as int]));
            assert(id_views(r@) =~= id_views(before).push(c@));
            assert(id_views(v@.take(i + 1)) =~= id_views(v@.take(i as int)).push(v@[i as int]@));
        }
        i = i + 1;
    }
    proof {
        assert(v@.take(i as int) =~= v@);
    }
    r
}

/// The first position of `id`'s text in `v`.
fn find_first(v: &Vec<WidgetId>, id: &WidgetId) -> (r: Option<usize>)
    ensures
        match r {
            Some(i) => first_pos(id_views(v@), id@.text()) == Some(i as int) && i < v@.len(),
            None => first_pos(id_views(v@), id@.text()) is None,
        },
{
    let ghost vv = id_views(v@);
    let mut i: usize = 0;
    proof {
        assert(vv.skip(0) =~= vv);
    }
    while i < v.len()
        invariant
            i <= v@.len(),
            vv == id_views(v@),
            first_pos(vv, id@.text()) == match first_pos(vv.skip(i as int), id@.text()) {
                Some(j) => Some(j + i),
                None => None,
            },
        decreases v@.len() - i,
    {
        proof {
            assert(vv.skip(i as int)[0] == v@[i as int]@);
            assert(vv.skip(i as int).drop_first() =~= vv.skip(i + 1));
        }
        if v[i] == *id {
            return Some(i);
        }
        i = i + 1;
    }
    proof {
        assert(vv.skip(i as int).len() == 0);
    }
    None
}

/// The last container entry for `id`'s text.
fn find_container(cs: &Vec<(WidgetId, Vec<WidgetId>)>, id: &WidgetId) -> (r: Option<usize>)
    ensures
        match r {
            Some(j) => last_pos(container_views(cs@), id@.text()) == Some(j as int),
            None => last_pos(container_views(cs@), id@.text()) is None,
        },
{
    let mut i: usize = cs.len();
    proof {
        assert(cs@.take(i as int) =~= cs@);
    }
    while i > 0
        invariant
            i <= cs@.len(),
            last_pos(container_views(cs@), id@.text()) == last_pos(container_views(cs@.take(i as int)), id@.text()),
        decreases i,
    {
        proof {
            assert(container_views(cs@.take(i as int)).drop_last() =~= container_views(cs@.take(i - 1)));
            assert(container_views(cs@.take(i as int)).last().0 == cs@[i - 1].0@);
            assert(container_views(cs@.take(i as int)).len() == i);
        }
        if cs[i - 1].0 == *id {
            return Some(i - 1);
        }
        i = i - 1;
    }
    proof {
        assert(container_views(cs@.take(0)) =~= Seq::<(WidgetIdView, Seq<WidgetIdView>)>::empty());
    }
    None
}

/// The last owner entry for `id`'s text.
fn find_owner_pos(os: &Vec<(WidgetId, WidgetId)>, id: &WidgetId) -> (r: Option<usize>)
    ensures
        match r {
            Some(j) => last_pos(owner_views(os@), id@.text()) == Some(j as int),
            None => last_pos(owner_views(os@), id@.text()) is None,
        },
{
    let mut i: usize = os.len();
    proof {
        assert(os@.take(i as int) =~= os@);
    }
    while i > 0
        invariant
            i <= os@.len(),
            last_pos(owner_views(os@), id@.text()) == last_pos(owner_views(os@.take(i as int)), id@.text()),
        decreases i,
    {
        proof {
            assert(owner_views(os@.take(i as int)).drop_last() =~= owner_views(os@.take(i - 1)));
            assert(owner_views(os@.take(i as int)).last().0 == os@[i - 1].0@);
            assert(owner_views(os@.take(i as int)).len() == i);
        }
        if os[i - 1].0 == *id {
            return Some(i - 1);
        }
        i = i - 1;
    }
    proof {
        assert(owner_views(os@.take(0)) =~= Seq::<(WidgetIdView, WidgetIdView)>::empty());
    }
    None
}

/// The position of the container that takes `id` as an item.
fn find_owning_container(cs: &Vec<(WidgetId, Vec<WidgetId>)>, id: &WidgetId) -> (r: Option<usize>)
    ensures
        r == match owning_container(container_keys(container_views(cs@)), id@) {
            Some(i) => Some(i as usize),
            None => None::<usize>,
        },
        r matches Some(i) ==> i < cs@.len(),
{
    let ghost keys = container_keys(container_views(cs@));
    let item_path = chars_of(id.path());
    let mut best: Option<usize> = None;
    let mut i: usize = 0;
    proof {
        assert(keys.take(0) =~= Seq::<WidgetIdView>::empty());
    }
    while i < cs.len()
        invariant
            i <= cs@.len(),
            keys == container_keys(container_views(cs@)),
            keys.len() == cs@.len(),
            item_path@ == join_parts(id@.parts),
            best == match owning_container(keys.take(i as int), id@) {
                Some(j) => Some(j as usize),
                None => None::<usize>,
            },
            best matches Some(j) ==> j < i,
            forall|j: int| 0 <= j < i ==> keys.take(i as int)[j] == keys[j],
        decreases cs@.len() - i,
    {
        let key_path = chars_of(cs[i].0.path());
        proof {
            assert(keys.take(i + 1).drop_last() =~= keys.take(i as int));
            assert(keys.take(i + 1)[i as int] == cs@[i as int].0@);
            lemma_owning_container_below(keys.take(i as int), id@);
        }
        if chars_begin(&key_path, &item_path) {
            match best {
                Some(b) => {
                    if cs[b].0.depth() > cs[i].0.depth() {
                    } else {
                        best = Some(i);
                    }
                },
                None => {
                    best = Some(i);
                },
            }
        }
        proof {
            assert forall|j: int| 0 <= j < i + 1 implies keys.take(i + 1)[j] == keys[j] by {}
        }
        i = i + 1;
    }
    proof {
        assert(keys.take(i as int) =~= keys);
    }
    best
}

/// The container chosen from a list lies in it.
proof fn lemma_owning_container_below(keys: Seq<WidgetIdView>, item: WidgetIdView)
    ensures
        owning_container(keys, item) matches Some(i) ==> 0 <= i < keys.len(),
    decreases keys.len(),
{
    if keys.len() > 0 {
        lemma_owning_container_below(keys.drop_last(), item);
    }
}

/// A last position lies in the sequence and has the text.
proof fn lemma_last_pos<V>(s: Seq<(WidgetIdView, V)>, t: Seq<char>)
    ensures
        last_pos(s, t) matches Some(j) ==> 0 <= j < s.len() && s[j].0.text() == t,
    decreases s.len(),
{
    if s.len() > 0 {
        lemma_last_pos(s.drop_last(), t);
    }
}

/// `s` without the identifiers with text `t`.
pub open spec fn without(s: Seq<WidgetIdView>, t: Seq<char>) -> Seq<WidgetIdView>
    decreases s.len(),
{
    if s.len() == 0 {
        s
    } else {
        let w = without(s.drop_last(), t);
        if s.last().text() == t {
            w
        } else {
            w.push(s.last())
        }
    }
}

/// `owners` without the entries of the items in `items`.
pub open spec fn without_owned(owners: Seq<(WidgetIdView, WidgetIdView)>, items: Seq<WidgetIdView>) -> Seq<(WidgetIdView, WidgetIdView)>
    decreases owners.len(),
{
    if owners.len() == 0 {
        owners
    } else {
        let w = without_owned(owners.drop_last(), items);
        if has_text(items, owners.last().0.text()) {
            w
        } else {
            w.push(owners.last())
        }
    }
}

/// `s` without the first occurrence of `t`.
pub open spec fn remove_first(s: Seq<WidgetIdView>, t: Seq<char>) -> Seq<WidgetIdView> {
    match first_pos(s, t) {
        Some(i) => s.remove(i),
        None => s,
    }
}

/// The containers, owners, buttons, text inputs and focused input after
/// `id` unregisters from the role `kind`.
pub open spec fn unregistered(
    containers: Seq<(WidgetIdView, Seq<WidgetIdView>)>,
    owners: Seq<(WidgetIdView, WidgetIdView)>,
    buttons: Seq<WidgetIdView>,
    inputs: Seq<WidgetIdView>,
    focused: Option<WidgetIdView>,
    id: WidgetIdView,
    kind: NavType,
) -> (Seq<(WidgetIdView, Seq<WidgetIdView>)>, Seq<(WidgetIdView, WidgetIdView)>, Seq<WidgetIdView>, Seq<WidgetIdView>, Option<WidgetIdView>) {
    match kind {
        NavType::Container => match last_pos(containers, id.text()) {
            Some(j) => (containers.remove(j), without_owned(owners, containers[j].1), buttons, inputs, focused),
            None => (containers, owners, buttons, inputs, focused),
        },
        NavType::Item => match last_pos(owners, id.text()) {
            Some(j) => {
                let key = owners[j].1;
                let cs = match last_pos(containers, key.text()) {
                    Some(c) => containers.update(c, (containers[c].0, remove_first(containers[c].1, id.text()))),
                    None => containers,
                };
                (cs, owners.remove(j), buttons, inputs, focused)
            },
            None => (containers, owners, buttons, inputs, focused),
        },
        NavType::Button => (containers, owners, without(buttons, id.text()), inputs, focused),
        NavType::TextInput => (
            containers,
            owners,
            buttons,
            without(inputs, id.text()),
            match focused {
                Some(f) => if f.text() == id.text() {
                    None
                } else {
                    Some(f)
                },
                None => None,
            },
        ),
        _ => (containers, owners, buttons, inputs, focused),
    }
}

/// The identifiers without those with `id`'s text.
fn drop_id(v: Vec<WidgetId>, id: &WidgetId) -> (r: Vec<WidgetId>)
    ensures
        id_views(r@) == without(id_views(v@), id@.text()),
{
    let ghost vv = id_views(v@);
    let mut out: Vec<WidgetId> = Vec::new();
    let mut i: usize = 0;
    proof {
        assert(vv.take(0) =~= Seq::<WidgetIdView>::empty());
        assert(id_views(out@) =~= Seq::<WidgetIdView>::empty());
    }
    while i < v.len()
        invariant
            i <= v@.len(),
            vv == id_views(v@),
            id_views(out@) == without(vv.take(i as int), id@.text()),
        decreases v@.len() - i,
    {
        proof {
            assert(vv.take(i + 1).drop_last() =~= vv.take(i as int));
            assert(vv.take(i + 1).last() == v@[i as int]@);
        }
        if !(v[i] == *id) {
            let ghost before = id_views(out@);
            let c = v[i].clone();
            out.push(c);
            proof {
                assert(id_views(out@) =~= before.push(c@));
            }
        }
        i = i + 1;
    }
    proof {
        assert(vv.take(i as int) =~= vv);
    }
    out
}

/// The owner entries without those of the items in `items`.
fn drop_owned(owners: &Vec<(WidgetId, WidgetId)>, items: &Vec<WidgetId>) -> (r: Vec<(WidgetId, WidgetId)>)
    ensures
        owner_views(r@) == without_owned(owner_views(owners@), id_views(items@)),
{
    let ghost ov = owner_views(owners@);
    let mut out: Vec<(WidgetId, WidgetId)> = Vec::new();
    let mut i: usize = 0;
    proof {
        assert(ov.take(0) =~= Seq::<(WidgetIdView, WidgetIdView)>::empty());
        assert(owner_views(out@) =~= Seq::<(WidgetIdView, WidgetIdView)>::empty());
    }
    while i < owners.len()
        invariant
            i <= owners@.len(),
            ov == owner_views(owners@),
            owner_views(out@) == without_owned(ov.take(i as int), id_views(items@)),
        decreases owners@.len() - i,
    {
        proof {
            assert(ov.take(i + 1).drop_last() =~= ov.take(i as int));
            assert(ov.take(i + 1).last() == (owners@[i as int].0@, owners@[i as int].1@));
        }
        if !contains_id(items, &owners[i].0) {
            let ghost before = owner_views(out@);
            let e = (owners[i].0.clone(), owners[i].1.clone());
            out.push(e);
            proof {
                assert(owner_views(out@) =~= before.push((e.0@, e.1@)));
            }
        }
        i = i + 1;
    }
    proof {
        assert(ov.take(i as int) =~= ov);
    }
    out
}

/// The last position in `chain` whose text is among `set`.
pub open spec fn last_member(chain: Seq<WidgetIdView>, set: Seq<WidgetIdView>) -> Option<int>
    decreases chain.len(),
{
    if chain.len() == 0 {
        None
    } else if has_text(set, chain.last().text()) {
        Some(chain.len() - 1)
    } else {
        last_member(chain.drop_last(), set)
    }
}

proof fn lemma_last_member(chain: Seq<WidgetIdView>, set: Seq<WidgetIdView>)
    ensures
        last_member(chain, set) matches Some(i) ==> 0 <= i < chain.len(),
    decreases chain.len(),
{
    if chain.len() > 0 {
        lemma_last_member(chain.drop_last(), set);
    }
}

/// The position of the last identifier of `chain` that is among `set`.
fn find_last_member(chain: &Vec<WidgetId>, set: &Vec<WidgetId>) -> (r: Option<usize>)
    ensures
        match r {
            Some(i) => last_member(id_views(chain@), id_views(set@)) == Some(i as int) && i < chain@.len(),
            None => last_member(id_views(chain@), id_views(set@)) is None,
        },
{
    let ghost cv = id_views(chain@);
    let mut i: usize = chain.len();
    proof {
        assert(cv.take(i as int) =~= cv);
    }
    while i > 0
        invariant
            i <= chain@.len(),
            cv == id_views(chain@),
            last_member(cv, id_views(set@)) == last_member(cv.take(i as int), id_views(set@)),
        decreases i,
    {
        proof {
            assert(cv.take(i as int).drop_last() =~= cv.take(i - 1));
            assert(cv.take(i as int).last() == chain@[i - 1]@);
        }
        if contains_id(set, &chain[i - 1]) {
            return Some(i - 1);
        }
        i = i - 1;
    }
    proof {
        assert(cv.take(0) =~= Seq::<WidgetIdView>::empty());
    }
    None
}

/// Following owners only appends.
proof fn lemma_owner_walk_extends(
    owners: Seq<(WidgetIdView, WidgetIdView)>,
    id: WidgetIdView,
    acc: Seq<WidgetIdView>,
    fuel: nat,
)
    ensures
        acc.is_prefix_of(owner_walk(owners, id, acc, fuel)),
    decreases fuel,
{
    if fuel > 0 {
        match owner_of(owners, id.text()) {
            None => {
                assert(acc =~= acc.subrange(0, acc.len() as int));
            },
            Some(o) => {
                let a1 = acc.push(id);
                let a2 = if has_text(a1, o.text()) {
                    a1
                } else {
                    a1.push(o)
                };
                lemma_owner_walk_extends(owners, o, a2, (fuel - 1) as nat);
                let w = owner_walk(owners, o, a2, (fuel - 1) as nat);
                assert forall|k: int| 0 <= k < acc.len() implies acc[k] == w[k] by {
                    assert(a2[k] == acc[k]);
                }
            },
        }
    } else {
        assert(acc =~= acc.subrange(0, acc.len() as int));
    }
}

/// Law: selecting a registered item (one with an owner) makes it the
/// selected item, at the end of the chain, with its owner (when that is
/// another widget) just before it.
pub proof fn law_selection_ends_at_item(owners: Seq<(WidgetIdView, WidgetIdView)>, id: WidgetIdView)
    requires
        owner_of(owners, id.text()) is Some,
    ensures
        selection_chain(owners, id).len() >= 1,
        selection_chain(owners, id).last() == id,
        owner_of(owners, id.text())->Some_0.text() != id.text() ==> selection_chain(owners, id).len() >= 2
            && selection_chain(owners, id)[selection_chain(owners, id).len() - 2] == owner_of(owners, id.text())->Some_0,
{
    lemma_owner_of_len(owners, id.text());
    let o = owner_of(owners, id.text())->Some_0;
    let n = owners.len();
    let a1 = seq![id];
    assert(Seq::<WidgetIdView>::empty().push(id) =~= a1);
    let a2 = if has_text(a1, o.text()) {
        a1
    } else {
        a1.push(o)
    };
    lemma_owner_walk_extends(owners, o, a2, (n - 1) as nat);
    let w = owner_walk(owners, id, Seq::empty(), n);
    assert(w == owner_walk(owners, o, a2, (n - 1) as nat));
    assert(a2.is_prefix_of(w));
    assert(a2 == w.subrange(0, a2.len() as int));
    assert(a2[0] == id);
    assert(w.subrange(0, a2.len() as int)[0] == w[0]);
    assert(w[0] == id);
    if !has_text(a1, o.text()) {
        assert(a2[1] == o);
        assert(w.subrange(0, a2.len() as int)[1] == w[1]);
        assert(w[1] == o);
    } else {
        assert(a1[0].text() == o.text());
        lemma_owner_walk_len(owners, o, a2, (n - 1) as nat);
    }
    assert(w.reverse().last() == w[0]);
    lemma_owner_walk_len(owners, o, a2, (n - 1) as nat);
}

/// An owner entry exists only in a non-empty list.
proof fn lemma_owner_of_len(owners: Seq<(WidgetIdView, WidgetIdView)>, t: Seq<char>)
    ensures
        owner_of(owners, t) is Some ==> owners.len() > 0,
    decreases owners.len(),
{
    if owners.len() > 0 {
        lemma_owner_of_len(owners.drop_last(), t);
    }
}

/// A walk ends at least as long as it started.
proof fn lemma_owner_walk_len(
    owners: Seq<(WidgetIdView, WidgetIdView)>,
    id: WidgetIdView,
    acc: Seq<WidgetIdView>,
    fuel: nat,
)
    ensures
        owner_walk(owners, id, acc, fuel).len() >= acc.len(),
{
    lemma_owner_walk_extends(owners, id, acc, fuel);
}

/// A jump within a navigation list.
#[derive(Debug, Clone)]
pub enum NavListJump {
    /// To the first item.
    First,
    /// To the last item.
    Last,
    /// That many items on (back when negative), wrapping around; from
    /// nothing selected, to the last item (back) or the first (on).
    StepLoop(isize),
    /// That many items on (back when negative); past either end, or from
    /// nothing selected, to the escape target (the identifier its reference
    /// held when the jump was read), if any.
    StepEscape(isize, Option<WidgetId>),
}

/// The view of an optional identifier.
pub open spec fn opt_view(o: Option<WidgetId>) -> Option<WidgetIdView> {
    match o {
        Some(w) => Some(w@),
        None => None,
    }
}

/// The first position of `items` whose identifier is in the chain.
pub open spec fn first_in_chain(items: Seq<WidgetIdView>, chain: Seq<WidgetIdView>) -> Option<int>
    decreases items.len(),
{
    if items.len() == 0 {
        None
    } else if has_text(chain, items[0].text()) {
        Some(0)
    } else {
        match first_in_chain(items.drop_first(), chain) {
            Some(i) => Some(i + 1),
            None => None,
        }
    }
}

/// The item a list jump selects, if any.
pub open spec fn list_jump_target(items: Seq<WidgetIdView>, chain: Seq<WidgetIdView>, jump: NavListJump) -> Option<WidgetIdView> {
    let n = items.len() as int;
    match jump {
        NavListJump::First => if n > 0 {
            Some(items[0])
        } else {
            None
        },
        NavListJump::Last => if n > 0 {
            Some(items[n - 1])
        } else {
            None
        },
        NavListJump::StepLoop(steps) => if chain.len() == 0 {
            if steps < 0 && n > 0 {
                Some(items[n - 1])
            } else if steps > 0 && n > 0 {
                Some(items[0])
            } else {
                None
            }
        } else {
            match first_in_chain(items, chain) {
                Some(i) => Some(items[(i + steps) % n]),
                None => None,
            }
        },
        NavListJump::StepEscape(steps, escape) => if chain.len() == 0 {
            opt_view(escape)
        } else {
            match first_in_chain(items, chain) {
                Some(i) => if steps < 0 {
                    if -steps > i {
                        opt_view(escape)
                    } else {
                        Some(items[i + steps])
                    }
                } else if steps > 0 {
                    if i + steps >= n {
                        opt_view(escape)
                    } else {
                        Some(items[i + steps])
                    }
                } else {
                    None
                },
                None => None,
            }
        },
    }
}

proof fn lemma_first_in_chain(items: Seq<WidgetIdView>, chain: Seq<WidgetIdView>)
    ensures
        first_in_chain(items, chain) matches Some(i) ==> 0 <= i < items.len(),
    decreases items.len(),
{
    if items.len() > 0 {
        lemma_first_in_chain(items.drop_first(), chain);
    }
}

/// The items of the last entry for a text are what `items_of` gives.
proof fn lemma_items_of(cs: Seq<(WidgetIdView, Seq<WidgetIdView>)>, t: Seq<char>)
    ensures
        match last_pos(cs, t) {
            Some(j) => items_of(cs, t) == Some(cs[j].1),
            None => items_of(cs, t) is None,
        },
    decreases cs.len(),
{
    if cs.len() > 0 {
        lemma_items_of(cs.drop_last(), t);
        lemma_last_pos(cs.drop_last(), t);
        if cs.last().0.text() != t {
            if let Some(j) = last_pos(cs.drop_last(), t) {
                assert(cs.drop_last()[j] == cs[j]);
            }
        }
    }
}

/// The first position of `items` whose identifier is in the chain.
fn find_in_chain(items: &Vec<WidgetId>, chain: &Vec<WidgetId>) -> (r: Option<usize>)
    ensures
        match r {
            Some(i) => first_in_chain(id_views(items@), id_views(chain@)) == Some(i as int) && i < items@.len(),
            None => first_in_chain(id_views(items@), id_views(chain@)) is None,
        },
{
    let ghost iv = id_views(items@);
    let ghost cv = id_views(chain@);
    let mut i: usize = 0;
    proof {
        assert(iv.skip(0) =~= iv);
    }
    while i < items.len()
        invariant
            i <= items@.len(),
            iv == id_views(items@),
            cv == id_views(chain@),
            first_in_chain(iv, cv) == match first_in_chain(iv.skip(i as int), cv) {
                Some(j) => Some(j + i),
                None => None,
            },
        decreases items@.len() - i,
    {
        proof {
            assert(iv.skip(i as int)[0] == items@[i as int]@);
            assert(iv.skip(i as int).drop_first() =~= iv.skip(i + 1));
        }
        if contains_id(chain, &items[i]) {
            return Some(i);
        }
        i = i + 1;
    }
    proof {
        assert(iv.skip(i as int).len() == 0);
    }
    None
}

/// The position `steps` on from `i` in a list of `n`, wrapping around.
fn wrap_index(i: usize, steps: isize, n: usize) -> (r: usize)
    requires
        i < n,
    ensures
        r as int == (i + steps) % (n as int),
        r < n,
{
    let ghost ni = n as int;
    if steps >= 0 {
        let s = (steps as usize) % n;
        proof {
            vstd::arithmetic::div_mod::lemma_add_mod_noop_right(i as int, steps as int, ni);
        }
        if s >= n - i {
            let r = s - (n - i);
            proof {
                vstd::arithmetic::div_mod::lemma_mod_add_multiples_vanish(r as int, ni);
                vstd::arithmetic::div_mod::lemma_small_mod(r as nat, n as nat);
                assert(i + s == ni + r);
            }
            r
        } else {
            let r = i + s;
            proof {
                vstd::arithmetic::div_mod::lemma_small_mod(r as nat, n as nat);
            }
            r
        }
    } else {
        let back: usize = ((-(steps + 1)) as usize) + 1;
        let b = back % n;
        proof {
            assert(back == -steps);
            vstd::arithmetic::div_mod::lemma_sub_mod_noop_right(i as int, back as int, ni);
            vstd::arithmetic::div_mod::lemma_mod_add_multiples_vanish(i - b, ni);
        }
        if i >= b {
            let r = i - b;
            proof {
                vstd::arithmetic::div_mod::lemma_small_mod(r as nat, n as nat);
            }
            r
        } else {
            let r = i + (n - b);
            proof {
                vstd::arithmetic::div_mod::lemma_small_mod(r as nat, n as nat);
                assert(ni + (i - b) == r);
            }
            r
        }
    }
}

/// A navigation request the engine handles: the original's navigation
/// signals, with identifier references already read.
#[derive(Debug, Clone)]
pub enum NavCommand {
    Select(Option<WidgetId>),
    Unselect,
    Accept(bool),
    Context(bool),
    Cancel(bool),
    Up,
    Down,
    Left,
    Right,
    Prev,
    Next,
    FocusTextInput(Option<WidgetId>),
    TextChange(NavTextChange),
    Custom(Option<WidgetId>, String),
}

/// One input the engine handles. A pointer move comes with the result of
/// the hit test: the button under the pointer, if any, and whether it is
/// over any widget.
#[derive(Debug, Clone)]
pub enum Interaction {
    Nothing,
    Navigate(NavCommand),
    PointerMove(Option<WidgetId>, bool),
    PointerDown(PointerButton),
    PointerUp(PointerButton),
}

/// The selected item of a chain: its end.
pub open spec fn end_of(chain: Seq<WidgetIdView>) -> Option<WidgetIdView> {
    if chain.len() > 0 {
        Some(chain.last())
    } else {
        None
    }
}

/// The last identifier of `chain` that is among `set`.
pub open spec fn member_of(chain: Seq<WidgetIdView>, set: Seq<WidgetIdView>) -> Option<WidgetIdView> {
    match last_member(chain, set) {
        Some(i) => Some(chain[i]),
        None => None,
    }
}

/// Who a navigation command goes to, when it goes to a widget: the
/// selected item for accept, context, cancel and a custom command without
/// a target; the selected container for moves; the focused text input for
/// text changes; the named widget for a custom command with a target.
pub open spec fn command_recipient(
    chain: Seq<WidgetIdView>,
    containers: Seq<WidgetIdView>,
    focused: Option<WidgetIdView>,
    cmd: NavCommand,
) -> Option<WidgetIdView> {
    match cmd {
        NavCommand::Accept(_) | NavCommand::Context(_) | NavCommand::Cancel(_) => end_of(chain),
        NavCommand::Up | NavCommand::Down | NavCommand::Left | NavCommand::Right | NavCommand::Prev
        | NavCommand::Next => member_of(chain, containers),
        NavCommand::TextChange(_) => focused,
        NavCommand::Custom(target, _) => match target {
            Some(t) => Some(t@),
            None => end_of(chain),
        },
        _ => None,
    }
}

/// Law: jumping to the first or last item selects the list's first or last
/// item; with nothing selected, a looped jump forward selects the first
/// item, a looped jump back the last, and a jump of no steps nothing.
pub proof fn law_list_jump_ends(items: Seq<WidgetIdView>, steps: isize)
    requires
        items.len() > 0,
    ensures
        list_jump_target(items, Seq::empty(), NavListJump::First) == Some(items[0]),
        list_jump_target(items, Seq::empty(), NavListJump::Last) == Some(items[items.len() - 1]),
        steps > 0 ==> list_jump_target(items, Seq::empty(), NavListJump::StepLoop(steps)) == Some(items[0]),
        steps < 0 ==> list_jump_target(items, Seq::empty(), NavListJump::StepLoop(steps)) == Some(
            items[items.len() - 1],
        ),
        steps == 0 ==> list_jump_target(items, Seq::empty(), NavListJump::StepLoop(steps)) is None,
{
}

/// Law: from the selected item at position `i`, a looped step forward
/// selects the next item, wrapping from the last to the first, and a looped
/// step back selects the previous one, wrapping from the first to the last;
/// stepping a whole round further lands on the same item.
pub proof fn law_list_jump_wraps(items: Seq<WidgetIdView>, chain: Seq<WidgetIdView>, steps: isize)
    requires
        chain.len() > 0,
        first_in_chain(items, chain) is Some,
        steps as int + items.len() <= isize::MAX,
    ensures
        ({
            let i = first_in_chain(items, chain)->Some_0;
            let n = items.len() as int;
            &&& list_jump_target(items, chain, NavListJump::StepLoop(1isize)) == Some(
                if i + 1 < n { items[i + 1] } else { items[0] },
            )
            &&& list_jump_target(items, chain, NavListJump::StepLoop(-1isize)) == Some(
                if i > 0 { items[i - 1] } else { items[n - 1] },
            )
            &&& list_jump_target(items, chain, NavListJump::StepLoop((steps + n) as isize))
                == list_jump_target(items, chain, NavListJump::StepLoop(steps))
        }),
{
    lemma_first_in_chain(items, chain);
    let i = first_in_chain(items, chain)->Some_0;
    let n = items.len() as int;
    if i + 1 < n {
        vstd::arithmetic::div_mod::lemma_small_mod((i + 1) as nat, n as nat);
    } else {
        assert(i + 1 == n);
        vstd::arithmetic::div_mod::lemma_mod_self_0(n);
    }
    if i > 0 {
        vstd::arithmetic::div_mod::lemma_small_mod((i - 1) as nat, n as nat);
    } else {
        vstd::arithmetic::div_mod::lemma_mod_add_multiples_vanish(-1, n);
        vstd::arithmetic::div_mod::lemma_small_mod((n - 1) as nat, n as nat);
        assert(n + (-1) == n - 1);
    }
    vstd::arithmetic::div_mod::lemma_mod_add_multiples_vanish(i + steps, n);
    assert(i + (steps + n) == n + (i + steps));
}

/// Law: an escaping jump moves within the list while it stays inside and
/// leaves for the escape target past either end; with nothing selected it
/// goes to the escape target.
pub proof fn law_list_jump_escapes(
    items: Seq<WidgetIdView>,
    chain: Seq<WidgetIdView>,
    steps: isize,
    escape: Option<WidgetId>,
)
    requires
        first_in_chain(items, chain) is Some || chain.len() == 0,
    ensures
        chain.len() == 0 ==> list_jump_target(items, chain, NavListJump::StepEscape(steps, escape))
            == opt_view(escape),
        chain.len() > 0 ==> ({
            let i = first_in_chain(items, chain)->Some_0;
            let j = i + steps;
            let t = list_jump_target(items, chain, NavListJump::StepEscape(steps, escape));
            &&& steps != 0 && 0 <= j < items.len() ==> t == Some(items[j])
            &&& steps != 0 && (j < 0 || j >= items.len()) ==> t == opt_view(escape)
            &&& steps == 0 ==> t is None
        }),
{
    lemma_first_in_chain(items, chain);
}

} // verus!
