//! Finding the layout of a widget by its path: the widget's own layout, or
//! that of its nearest ancestor that has one.

use vstd::prelude::*;

use crate::text::{chars_of, join_parts, str_eq};
use crate::widget_id::WidgetId;

verus! {

/// Index of the last occurrence of `c` in `s`, if any.
pub open spec fn last_index_of(s: Seq<char>, c: char) -> Option<int>
    decreases s.len(),
{
    if s.len() == 0 {
        None
    } else if s.last() == c {
        Some(s.len() - 1)
    } else {
        last_index_of(s.drop_last(), c)
    }
}

pub proof fn lemma_last_index_of(s: Seq<char>, c: char)
    ensures
        match last_index_of(s, c) {
            Some(i) => 0 <= i < s.len() && s[i] == c && forall|j: int| i < j < s.len() ==> s[j] != c,
            None => forall|j: int| 0 <= j < s.len() ==> s[j] != c,
        },
    decreases s.len(),
{
    if s.len() > 0 && s.last() != c {
        lemma_last_index_of(s.drop_last(), c);
        assert forall|j: int| 0 <= j < s.len() - 1 implies s[j] == s.drop_last()[j] by {}
    }
}

/// The position of the first path equal to `p`, if any.
pub open spec fn position_of(paths: Seq<Seq<char>>, p: Seq<char>) -> Option<int>
    decreases paths.len(),
{
    if paths.len() == 0 {
        None
    } else {
        match position_of(paths.drop_last(), p) {
            Some(i) => Some(i),
            None => if paths.last() == p {
                Some(paths.len() - 1)
            } else {
                None
            },
        }
    }
}

/// The position of the first path equal to `p`, or else to its nearest
/// ancestor (`p` cut before its last `/`, again and again).
pub open spec fn find_position(paths: Seq<Seq<char>>, p: Seq<char>) -> Option<int>
    decreases p.len(),
{
    match position_of(paths, p) {
        Some(i) => Some(i),
        None => match last_index_of(p, '/') {
            Some(j) => if 0 <= j < p.len() {
                find_position(paths, p.take(j))
            } else {
                None
            },
            None => None,
        },
    }
}

/// The paths of identifiers.
pub open spec fn paths_of(keys: Seq<WidgetId>) -> Seq<Seq<char>> {
    keys.map_values(|k: WidgetId| join_parts(k@.parts))
}

/// The position of the first identifier whose path is `p`.
fn position_in(keys: &[WidgetId], p: &str) -> (r: Option<usize>)
    ensures
        match r {
            Some(i) => position_of(paths_of(keys@), p@) == Some(i as int),
            None => position_of(paths_of(keys@), p@) is None,
        },
{
    let ghost paths = paths_of(keys@);
    let mut i: usize = 0;
    while i < keys.len()
        invariant
            i <= keys@.len(),
            paths == paths_of(keys@),
            position_of(paths.take(i as int), p@) is None,
        decreases keys@.len() - i,
    {
        let found = str_eq(keys[i].path(), p);
        proof {
            let t = paths.take(i + 1);
            assert(t.drop_last() =~= paths.take(i as int));
            assert(t.last() == paths[i as int]);
        }
        if found {
            proof {
                assert(paths[i as int] == join_parts(keys@[i as int]@.parts));
                assert(position_of(paths.take(i + 1), p@) == Some(i as int));
                lemma_position_prefix(paths, i + 1);
            }
            return Some(i);
        }
        i = i + 1;
    }
    proof {
        assert(paths.take(i as int) =~= paths);
    }
    None
}

/// A position found among the first `k` paths is the position among all.
proof fn lemma_position_prefix(paths: Seq<Seq<char>>, k: int)
    requires
        0 <= k <= paths.len(),
    ensures
        forall|p: Seq<char>| #[trigger] position_of(paths.take(k), p) is Some ==> position_of(
            paths,
            p,
        ) == position_of(paths.take(k), p),
    decreases paths.len() - k,
{
    if k < paths.len() {
        lemma_position_prefix(paths, k + 1);
        assert forall|p: Seq<char>| #[trigger] position_of(paths.take(k), p) is Some implies position_of(
            paths,
            p,
        ) == position_of(paths.take(k), p) by {
            assert(paths.take(k + 1).drop_last() =~= paths.take(k));
            assert(position_of(paths.take(k + 1), p) == position_of(paths.take(k), p));
        }
    } else {
        assert(paths.take(k) =~= paths);
    }
}

/// The position of the last `/` among the first `end` characters.
fn last_slash(chars: &Vec<char>, end: usize) -> (r: Option<usize>)
    requires
        end <= chars@.len(),
    ensures
        match r {
            Some(j) => last_index_of(chars@.take(end as int), '/') == Some(j as int),
            None => last_index_of(chars@.take(end as int), '/') is None,
        },
{
    let ghost s = chars@.take(end as int);
    let mut k: usize = end;
    while k > 0
        invariant
            k <= end <= chars@.len(),
            s == chars@.take(end as int),
            forall|j: int| k <= j < end ==> s[j] != '/',
        decreases k,
    {
        if chars[k - 1] == '/' {
            proof {
                assert(s[k - 1] == '/');
                lemma_last_index_of(s, '/');
                match last_index_of(s, '/') {
                    Some(i) => {
                        if i < k - 1 {
                            assert(s[k - 1] != '/');
                        } else if i > k - 1 {
                            assert(s[i] != '/');
                        }
                    },
                    None => {
                        assert(s[k - 1] != '/');
                    },
                }
            }
            return Some(k - 1);
        }
        k = k - 1;
    }
    proof {
        lemma_last_index_of(s, '/');
        match last_index_of(s, '/') {
            Some(i) => {
                assert(s[i] != '/');
            },
            None => {},
        }
    }
    None
}

/// The position of the layout to use for the widget at `path`: the first
/// key whose path is `path`, or else, cutting `path` before its last `/`
/// again and again, the first key whose path is the cut; `None` when no cut
/// matches.
pub fn find_layout_index(keys: &[WidgetId], path: &str) -> (r: Option<usize>)
    ensures
        match r {
            Some(i) => find_position(paths_of(keys@), path@) == Some(i as int),
            None => find_position(paths_of(keys@), path@) is None,
        },
{
    let ghost paths = paths_of(keys@);
    let chars = chars_of(path);
    let mut end: usize = chars.len();
    proof {
        assert(path@.take(end as int) =~= path@);
    }
    loop
        invariant
            end <= chars@.len(),
            chars@ == path@,
            paths == paths_of(keys@),
            find_position(paths, path@) == find_position(paths, path@.take(end as int)),
        decreases end,
    {
        let cur = path.substring_char(0, end);
        proof {
            assert(cur@ =~= path@.take(end as int));
        }
        match position_in(keys, cur) {
            Some(i) => {
                return Some(i);
            },
            None => {},
        }
        match last_slash(&chars, end) {
            Some(j) => {
                proof {
                    lemma_last_index_of(path@.take(end as int), '/');
                    assert(path@.take(end as int).take(j as int) =~= path@.take(j as int));
                }
                end = j;
            },
            None => {
                return None;
            },
        }
    }
}

proof fn lemma_position_of(paths: Seq<Seq<char>>, p: Seq<char>)
    ensures
        match position_of(paths, p) {
            Some(i) => 0 <= i < paths.len() && paths[i] == p && forall|k: int| 0 <= k < i ==> paths[k] != p,
            None => forall|k: int| 0 <= k < paths.len() ==> paths[k] != p,
        },
    decreases paths.len(),
{
    if paths.len() > 0 {
        lemma_position_of(paths.drop_last(), p);
        assert forall|k: int| 0 <= k < paths.len() - 1 implies paths[k] == paths.drop_last()[k] by {}
    }
}

/// `p` cut at `j` is `p` itself or one of its ancestors: the cut is at the
/// end or just before a `/`.
pub open spec fn is_cut(p: Seq<char>, j: int) -> bool {
    0 <= j <= p.len() && (j == p.len() || p[j] == '/')
}

/// Law: the layout found for a path belongs to the path itself or to one of
/// its ancestors (the path cut just before a `/`), and to the nearest one
/// that has a layout; when none is found, no ancestor has one.
pub proof fn law_found_layout_is_nearest_ancestor(paths: Seq<Seq<char>>, p: Seq<char>)
    ensures
        match find_position(paths, p) {
            Some(i) => 0 <= i < paths.len() && exists|j: int|
                #[trigger] is_cut(p, j) && paths[i] == p.take(j) && forall|m: int|
                    j < m && #[trigger] is_cut(p, m) ==> !paths.contains(p.take(m)),
            None => forall|m: int| #[trigger] is_cut(p, m) ==> !paths.contains(p.take(m)),
        },
    decreases p.len(),
{
    lemma_position_of(paths, p);
    assert(p.take(p.len() as int) =~= p);
    match position_of(paths, p) {
        Some(i) => {
            assert(is_cut(p, p.len() as int));
            assert(paths[i] == p.take(p.len() as int));
        },
        None => {
            assert(!paths.contains(p)) by {
                if paths.contains(p) {
                    let k = choose|k: int| 0 <= k < paths.len() && paths[k] == p;
                }
            }
            lemma_last_index_of(p, '/');
            match last_index_of(p, '/') {
                Some(j) => {
                    let q = p.take(j);
                    assert(find_position(paths, p) == find_position(paths, q));
                    law_found_layout_is_nearest_ancestor(paths, q);
                    assert forall|m: int| 0 <= m <= j implies #[trigger] q.take(m) == p.take(m) by {
                        assert(q.take(m) =~= p.take(m));
                    }
                    assert forall|m: int| #[trigger] is_cut(p, m) && m <= j implies is_cut(q, m) by {
                        if m < j {
                            assert(q[m] == p[m]);
                        }
                    }
                    assert forall|m: int| #[trigger] is_cut(p, m) && m > j implies m == p.len()
                        by {
                        if m < p.len() {
                            assert(p[m] != '/');
                        }
                    }
                    match find_position(paths, q) {
                        Some(i) => {
                            let jj = choose|jj: int|
                                #[trigger] is_cut(q, jj) && paths[i] == q.take(jj) && forall|m: int|
                                    jj < m && #[trigger] is_cut(q, m) ==> !paths.contains(q.take(m));
                            assert(q.take(jj) == p.take(jj));
                            assert(is_cut(p, jj)) by {
                                if jj < q.len() {
                                    assert(q[jj] == p[jj]);
                                }
                            }
                            assert forall|m: int| jj < m && #[trigger] is_cut(p, m) implies !paths.contains(
                                p.take(m),
                            ) by {
                                if m <= j {
                                    assert(is_cut(q, m));
                                    assert(q.take(m) == p.take(m));
                                }
                            }
                        },
                        None => {
                            assert forall|m: int| #[trigger] is_cut(p, m) implies !paths.contains(
                                p.take(m),
                            ) by {
                                if m <= j {
                                    assert(is_cut(q, m));
                                    assert(q.take(m) == p.take(m));
                                }
                            }
                        },
                    }
                },
                None => {
                    assert forall|m: int| #[trigger] is_cut(p, m) implies !paths.contains(p.take(m)) by {
                        if m < p.len() {
                            assert(p[m] != '/');
                        }
                    }
                },
            }
        },
    }
}

} // verus!
