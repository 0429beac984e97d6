//! The directory-tree model and the traversal that collects every matching
//! directory.
//!
//! A `DirTree` value stands for one directory: its base name and its
//! immediate subdirectories. The traversal walks the entries of a root
//! depth-first; a hidden entry (leading dot) is neither matched nor entered,
//! and an entry matches when its lowercased name contains the (already
//! lowercased) query as a substring. The root directory itself is never a
//! candidate: only entries found below it are.

use vstd::prelude::*;

use crate::strutil::{contains_substring, is_substring, lower_of, lowercase};

verus! {

/// One directory: its base name and its immediate subdirectories.
pub struct DirTree {
    pub name: String,
    pub children: Vec<DirTree>,
}

/// A name that begins with a dot is hidden.
pub open spec fn is_hidden(name: Seq<char>) -> bool {
    name.len() > 0 && name[0] == '.'
}

/// A directory name matches when its lowercased form contains the query,
/// which is itself already lowercased.
pub open spec fn name_matches(name: Seq<char>, query: Seq<char>) -> bool {
    is_substring(query, lower_of(name))
}

/// The full path of a directory entry under a prefix.
pub open spec fn child_path(prefix: Seq<char>, name: Seq<char>) -> Seq<char> {
    prefix + seq!['/'] + name
}

/// The paths of every matching, non-hidden-reachable directory among `nodes`
/// and their descendants, in depth-first discovery order. `prefix` is the
/// path of the directory whose entries `nodes` are.
pub open spec fn matched_in(nodes: Seq<DirTree>, prefix: Seq<char>, query: Seq<char>) -> Seq<
    Seq<char>,
>
    decreases nodes,
{
    if nodes.len() == 0 {
        Seq::empty()
    } else {
        let node = nodes[0];
        let rest = matched_in(nodes.drop_first(), prefix, query);
        if is_hidden(node.name@) {
            rest
        } else {
            let p = child_path(prefix, node.name@);
            let here: Seq<Seq<char>> = if name_matches(node.name@, query) {
                seq![p]
            } else {
                Seq::empty()
            };
            here + matched_in(node.children@, p, query) + rest
        }
    }
}

/// A path is borne by some matching directory among `nodes` and their
/// descendants, every ancestor of which (below the root) is non-hidden.
/// This is the membership form of the matched set.
pub open spec fn tree_has_match(
    nodes: Seq<DirTree>,
    prefix: Seq<char>,
    query: Seq<char>,
    path: Seq<char>,
) -> bool
    decreases nodes,
{
    if nodes.len() == 0 {
        false
    } else {
        let node = nodes[0];
        tree_has_match(nodes.drop_first(), prefix, query, path) || (!is_hidden(node.name@) && {
            let p = child_path(prefix, node.name@);
            (path == p && name_matches(node.name@, query)) || tree_has_match(
                node.children@,
                p,
                query,
                path,
            )
        })
    }
}

/// The views of a sequence of strings.
pub open spec fn views_of(v: Seq<String>) -> Seq<Seq<char>> {
    v.map_values(|s: String| s@)
}

/// Splitting a sequence of entries splits the matched paths.
proof fn lemma_matched_in_concat(a: Seq<DirTree>, b: Seq<DirTree>, prefix: Seq<char>, query: Seq<char>)
    ensures
        matched_in(a + b, prefix, query) == matched_in(a, prefix, query) + matched_in(
            b,
            prefix,
            query,
        ),
    decreases a,
{
    if a.len() == 0 {
        assert(a + b =~= b);
        assert(matched_in(a, prefix, query) + matched_in(b, prefix, query) =~= matched_in(
            b,
            prefix,
            query,
        ));
    } else {
        lemma_matched_in_concat(a.drop_first(), b, prefix, query);
        assert((a + b).drop_first() =~= a.drop_first() + b);
        assert((a + b)[0] == a[0]);
        assert(matched_in(a + b, prefix, query) =~= matched_in(a, prefix, query) + matched_in(
            b,
            prefix,
            query,
        ));
    }
}

/// The matched paths of a single entry, written out.
proof fn lemma_matched_in_singleton(node: DirTree, prefix: Seq<char>, query: Seq<char>)
    ensures
        matched_in(seq![node], prefix, query) == (if is_hidden(node.name@) {
            Seq::<Seq<char>>::empty()
        } else {
            (if name_matches(node.name@, query) {
                seq![child_path(prefix, node.name@)]
            } else {
                Seq::<Seq<char>>::empty()
            }) + matched_in(node.children@, child_path(prefix, node.name@), query)
        }),
{
    let s = seq![node];
    assert(s.drop_first() =~= Seq::<DirTree>::empty());
    assert(matched_in(Seq::<DirTree>::empty(), prefix, query) == Seq::<Seq<char>>::empty());
    if is_hidden(node.name@) {
        assert(matched_in(s, prefix, query) == Seq::<Seq<char>>::empty());
    } else {
        let p = child_path(prefix, node.name@);
        assert(matched_in(s, prefix, query) =~= (if name_matches(node.name@, query) {
            seq![p]
        } else {
            Seq::<Seq<char>>::empty()
        }) + matched_in(node.children@, p, query));
    }
}

/// Appends `prefix + "/" + name` to fresh storage.
fn join_path(prefix: &str, name: &str) -> (r: String)
    ensures
        r@ == child_path(prefix@, name@),
{
    let mut p = String::from_str(prefix);
    p.append("/");
    p.append(name);
    proof {
        reveal_strlit("/");
        assert("/"@ =~= seq!['/']);
    }
    p
}

/// Whether a directory entry of this name is hidden.
fn hidden_name(name: &str) -> (r: bool)
    ensures
        r == is_hidden(name@),
{
    name.unicode_len() > 0 && name.get_char(0) == '.'
}

/// Whether a directory of this name matches the lowercased query.
pub fn matches_query(name: &str, query: &str) -> (r: bool)
    ensures
        r == name_matches(name@, query@),
{
    let low = lowercase(name);
    contains_substring(low.as_str(), query)
}

/// Walks `nodes` (the entries of the directory at `prefix`) depth-first and
/// appends the path of every matching, non-hidden-reachable directory.
fn collect_into(nodes: &Vec<DirTree>, prefix: &str, query: &str, out: &mut Vec<String>)
    ensures
        views_of(final(out)@) == views_of(old(out)@) + matched_in(nodes@, prefix@, query@),
    decreases nodes@,
{
    let ghost out0 = out@;
    let mut i: usize = 0;
    while i < nodes.len()
        invariant
            i <= nodes@.len(),
            views_of(out@) == views_of(out0) + matched_in(nodes@.take(i as int), prefix@, query@),
        decreases nodes@.len() - i,
    {
        let ghost done = nodes@.take(i as int);
        let node = &nodes[i];
        proof {
            assert(nodes@.take(i + 1) =~= done + seq![nodes@[i as int]]);
            lemma_matched_in_concat(done, seq![nodes@[i as int]], prefix@, query@);
            lemma_matched_in_singleton(nodes@[i as int], prefix@, query@);
        }
        if !hidden_name(node.name.as_str()) {
            let p = join_path(prefix, node.name.as_str());
            if matches_query(node.name.as_str(), query) {
                let ghost before = out@;
                out.push(p.clone());
                proof {
                    assert(views_of(out@) =~= views_of(before) + seq![p@]);
                }
            }
            proof {
                assert(decreases_to!(nodes@ => nodes@[i as int]));
                assert(decreases_to!(nodes@[i as int] => nodes@[i as int].children));
                assert(decreases_to!(nodes@[i as int].children => nodes@[i as int].children@));
            }
            collect_into(&node.children, p.as_str(), query, out);
            proof {
                assert(views_of(out@) =~= views_of(out0) + matched_in(
                    nodes@.take(i + 1),
                    prefix@,
                    query@,
                ));
            }
        } else {
            proof {
                assert(matched_in(seq![nodes@[i as int]], prefix@, query@) =~= Seq::<
                    Seq<char>,
                >::empty());
                assert(views_of(out@) =~= views_of(out0) + matched_in(
                    nodes@.take(i + 1),
                    prefix@,
                    query@,
                ));
            }
        }
        i = i + 1;
    }
    proof {
        assert(nodes@.take(nodes@.len() as int) =~= nodes@);
    }
}

/// Collects the paths of every directory below `root` whose name matches the
/// lowercased `query`, skipping hidden entries and everything below them.
/// `entries` are the immediate subdirectories of the root; the root itself is
/// never a candidate.
pub fn collect_matches(entries: &Vec<DirTree>, root: &str, query: &str) -> (r: Vec<String>)
    ensures
        views_of(r@) == matched_in(entries@, root@, query@),
{
    let mut out: Vec<String> = Vec::new();
    proof {
        assert(views_of(Seq::<String>::empty()) =~= Seq::<Seq<char>>::empty());
    }
    collect_into(entries, root, query, &mut out);
    out
}

} // verus!
