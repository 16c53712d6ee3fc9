//! How widgets in the tree get their identities: the key each node takes,
//! the identifier a component gets from its type name and path, and the
//! shared properties it passes down.

use vstd::prelude::*;

use crate::input_field::{decimal_digits, lemma_decimal_digits, push_decimal_digits, string_of};
use crate::props::Props;
use crate::widget_id::{WidgetId, WidgetIdView};

verus! {

/// The key of the root node: `<*>`.
pub fn root_key() -> (r: String)
    ensures
        r@ == seq!['<', '*', '>'],
{
    let chars: Vec<char> = vec!['<', '*', '>'];
    string_of(chars.as_slice())
}

/// The key of the only child of a single-slot box: `.`.
pub fn slot_key() -> (r: String)
    ensures
        r@ == seq!['.'],
{
    let chars: Vec<char> = vec!['.'];
    string_of(chars.as_slice())
}

/// The key of the item at `index` in a box of items: `<index>`.
pub fn item_key(index: usize) -> (r: String)
    ensures
        r@ == seq!['<'] + decimal_digits(index as nat) + seq!['>'],
{
    let mut chars: Vec<char> = Vec::new();
    chars.push('<');
    push_decimal_digits(index as u64, &mut chars);
    chars.push('>');
    string_of(chars.as_slice())
}

/// The views of a path of strings.
pub open spec fn path_view(path: Seq<String>) -> Seq<Seq<char>> {
    path.map_values(|p: String| p@)
}

proof fn lemma_path_view_push(s: Seq<String>, x: String)
    ensures
        path_view(s.push(x)) == path_view(s).push(x@),
{
    assert(path_view(s.push(x)) =~= path_view(s).push(x@));
}

proof fn lemma_strs_view_push(s: Seq<&str>, x: &str)
    ensures
        s.push(x).map_values(|p: &str| p@) == s.map_values(|p: &str| p@).push(x@),
{
    assert(s.push(x).map_values(|p: &str| p@) =~= s.map_values(|p: &str| p@).push(x@));
}

/// The identifier of a component of type `kind` under `path`, with
/// key `key`.
pub open spec fn component_id_view(kind: Seq<char>, path: Seq<String>, key: Seq<char>) -> WidgetIdView {
    WidgetIdView { typed: true, kind: kind, parts: path_view(path).push(key) }
}

/// The identity of a component: its key (its own, or else the key its place
/// in the parent gives), its path (the parent's path and the key), and its
/// identifier `kind:path`.
pub fn component_identity(
    kind: &str,
    path: &[String],
    key: Option<&str>,
    possible_key: &str,
) -> (r: (WidgetId, String, Vec<String>))
    requires
        component_id_view(
            kind@,
            path@,
            match key {
                Some(k) => k@,
                None => possible_key@,
            },
        ).text().len() <= usize::MAX,
    ensures
        r.1@ == (match key {
            Some(k) => k@,
            None => possible_key@,
        }),
        path_view(r.2@) == path_view(path@).push(r.1@),
        r.0@ == component_id_view(kind@, path@, r.1@),
{
    let key: String = match key {
        Some(k) => k.to_owned(),
        None => possible_key.to_owned(),
    };
    let mut new_path: Vec<String> = Vec::new();
    let mut i: usize = 0;
    while i < path.len()
        invariant
            i <= path@.len(),
            path_view(new_path@) == path_view(path@.take(i as int)),
        decreases path@.len() - i,
    {
        let ghost before = new_path@;
        let c = path[i].clone();
        new_path.push(c);
        proof {
            assert(path@.take(i + 1) =~= path@.take(i as int).push(path@[i as int]));
            lemma_path_view_push(before, c);
            lemma_path_view_push(path@.take(i as int), path@[i as int]);
        }
        i = i + 1;
    }
    proof {
        assert(path@.take(i as int) =~= path@);
    }
    let ghost before = new_path@;
    let k = key.clone();
    new_path.push(k);
    proof {
        lemma_path_view_push(before, k);
    }
    let id = {
        let mut parts: Vec<&str> = Vec::new();
        let mut j: usize = 0;
        while j < new_path.len()
            invariant
                j <= new_path@.len(),
                parts@.map_values(|p: &str| p@) == path_view(new_path@.take(j as int)),
            decreases new_path@.len() - j,
        {
            let ghost before = parts@;
            let part = new_path[j].as_str();
            parts.push(part);
            proof {
                assert(new_path@.take(j + 1) =~= new_path@.take(j as int).push(new_path@[j as int]));
                lemma_strs_view_push(before, part);
                lemma_path_view_push(new_path@.take(j as int), new_path@[j as int]);
            }
            j = j + 1;
        }
        proof {
            assert(new_path@.take(j as int) =~= new_path@);
            assert(path_view(new_path@) =~= path_view(path@).push(key@));
        }
        WidgetId::new(kind, parts.as_slice())
    };
    proof {
        assert(path_view(new_path@) =~= path_view(path@).push(key@));
    }
    (id, key, new_path)
}

/// The shared properties a component passes down: those it received merged
/// with its own (its own winning), or whichever of the two there is.
pub fn combine_shared_props(master: Option<Props>, own: Option<Props>) -> (r: Props)
    ensures
        r@ == match (master, own) {
            (Some(m), Some(o)) => m@.union_prefer_right(o@),
            (None, Some(o)) => o@,
            (Some(m), None) => m@,
            (None, None) => Map::empty(),
        },
{
    match (master, own) {
        (Some(m), Some(o)) => m.merge(o),
        (None, Some(o)) => o,
        (Some(m), None) => m,
        (None, None) => Props::default(),
    }
}

/// Law: items at different positions of a box get different keys, so
/// siblings never share an identifier.
pub proof fn law_item_keys_distinct(i: nat, j: nat)
    requires
        i != j,
    ensures
        seq!['<'] + decimal_digits(i) + seq!['>'] != seq!['<'] + decimal_digits(j) + seq!['>'],
{
    lemma_decimal_digits(i);
    lemma_decimal_digits(j);
    let a = seq!['<'] + decimal_digits(i) + seq!['>'];
    let b = seq!['<'] + decimal_digits(j) + seq!['>'];
    if a == b {
        assert(a.subrange(1, a.len() - 1) =~= decimal_digits(i));
        assert(b.subrange(1, b.len() - 1) =~= decimal_digits(j));
    }
}

/// Law: a component's identifier extends the path it was placed under by
/// its key, so the identifier of the component that placed it (whose path
/// that is) is a prefix of it.
pub proof fn law_child_extends_parent(kind: Seq<char>, path: Seq<String>, key: Seq<char>)
    ensures
        component_id_view(kind, path, key).parts.len() == path.len() + 1,
        component_id_view(kind, path, key).parts.take(path.len() as int) == path_view(path),
        component_id_view(kind, path, key).key() == key,
{
    assert(component_id_view(kind, path, key).parts.take(path.len() as int) =~= path_view(path));
}

} // verus!
