//! The traversal laws: what the matched set is, and that an unchanged tree
//! always yields the same one.

use vstd::prelude::*;

use crate::tree::{child_path, is_hidden, matched_in, name_matches, tree_has_match, DirTree};

verus! {

/// The traversal produces a path precisely when the membership predicate
/// `tree_has_match` holds of it: some directory among `nodes` and their
/// descendants bears it, its name matches the query, and neither it nor any
/// directory on the way to it is hidden.
pub proof fn lemma_matched_iff_visible_match(
    nodes: Seq<DirTree>,
    prefix: Seq<char>,
    query: Seq<char>,
    path: Seq<char>,
)
    ensures
        matched_in(nodes, prefix, query).contains(path) <==> tree_has_match(
            nodes,
            prefix,
            query,
            path,
        ),
    decreases nodes,
{
    broadcast use vstd::seq_lib::lemma_seq_concat_contains_all_elements;

    if nodes.len() == 0 {
        assert(!matched_in(nodes, prefix, query).contains(path));
    } else {
        let node = nodes[0];
        let rest = nodes.drop_first();
        lemma_matched_iff_visible_match(rest, prefix, query, path);
        if !is_hidden(node.name@) {
            let p = child_path(prefix, node.name@);
            assert(decreases_to!(nodes => node));
            assert(decreases_to!(node => node.children));
            assert(decreases_to!(node.children => node.children@));
            lemma_matched_iff_visible_match(node.children@, p, query, path);
            let here: Seq<Seq<char>> = if name_matches(node.name@, query) {
                seq![p]
            } else {
                Seq::empty()
            };
            assert(matched_in(nodes, prefix, query) == here + matched_in(node.children@, p, query)
                + matched_in(rest, prefix, query));
            assert(here.contains(path) <==> (name_matches(node.name@, query) && path == p)) by {
                if name_matches(node.name@, query) && here.contains(path) {
                    assert(here[choose|i: int| 0 <= i < here.len() && here[i] == path] == p);
                }
                if name_matches(node.name@, query) && path == p {
                    assert(here[0] == path);
                }
            }
        }
    }
}

/// `addr` is a chain of child indices that reaches, through non-hidden
/// directories only, a directory whose name matches the query and whose full
/// path is `path`. This addresses one concrete node of the tree.
pub open spec fn visible_match_at(
    nodes: Seq<DirTree>,
    prefix: Seq<char>,
    query: Seq<char>,
    path: Seq<char>,
    addr: Seq<int>,
) -> bool
    decreases nodes,
{
    addr.len() >= 1 && 0 <= addr[0] < nodes.len() && !is_hidden(nodes[addr[0]].name@) && (if addr.len() == 1 {
        path == child_path(prefix, nodes[addr[0]].name@) && name_matches(
            nodes[addr[0]].name@,
            query,
        )
    } else {
        visible_match_at(
            nodes[addr[0]].children@,
            child_path(prefix, nodes[addr[0]].name@),
            query,
            path,
            addr.drop_first(),
        )
    })
}

/// The membership form of the matched set says exactly that some node of the
/// tree is a visible match bearing the path.
pub proof fn lemma_has_match_iff_addressed(
    nodes: Seq<DirTree>,
    prefix: Seq<char>,
    query: Seq<char>,
    path: Seq<char>,
)
    ensures
        tree_has_match(nodes, prefix, query, path) <==> (exists|addr: Seq<int>|
            visible_match_at(nodes, prefix, query, path, addr)),
    decreases nodes,
{
    if nodes.len() == 0 {
        assert(forall|addr: Seq<int>| !visible_match_at(nodes, prefix, query, path, addr));
    } else {
        let node = nodes[0];
        let rest = nodes.drop_first();
        let p = child_path(prefix, node.name@);
        lemma_has_match_iff_addressed(rest, prefix, query, path);
        assert(decreases_to!(nodes => node));
        assert(decreases_to!(node => node.children));
        assert(decreases_to!(node.children => node.children@));
        lemma_has_match_iff_addressed(node.children@, p, query, path);
        if tree_has_match(nodes, prefix, query, path) {
            if tree_has_match(rest, prefix, query, path) {
                let tail = choose|a: Seq<int>| visible_match_at(rest, prefix, query, path, a);
                let lifted = seq![tail[0] + 1] + tail.drop_first();
                assert(lifted[0] == tail[0] + 1);
                assert(lifted.drop_first() =~= tail.drop_first());
                assert(nodes[lifted[0]] == rest[tail[0]]);
                assert(visible_match_at(nodes, prefix, query, path, lifted));
            } else if !is_hidden(node.name@) && path == p && name_matches(node.name@, query) {
                assert(visible_match_at(nodes, prefix, query, path, seq![0int]));
            } else {
                let tail = choose|a: Seq<int>|
                    visible_match_at(node.children@, p, query, path, a);
                let lifted = seq![0int] + tail;
                assert(lifted.drop_first() =~= tail);
                assert(visible_match_at(nodes, prefix, query, path, lifted));
            }
        }
        if exists|addr: Seq<int>| visible_match_at(nodes, prefix, query, path, addr) {
            let addr = choose|a: Seq<int>| visible_match_at(nodes, prefix, query, path, a);
            if addr[0] == 0 {
                if addr.len() > 1 {
                    assert(visible_match_at(node.children@, p, query, path, addr.drop_first()));
                }
                assert(tree_has_match(nodes, prefix, query, path));
            } else {
                let lowered = seq![addr[0] - 1] + addr.drop_first();
                assert(lowered.drop_first() =~= addr.drop_first());
                assert(rest[lowered[0]] == nodes[addr[0]]);
                assert(visible_match_at(rest, prefix, query, path, lowered));
            }
        }
    }
}

/// Law: the traversal collects a path precisely when some node of the tree
/// is a non-hidden-reachable directory whose name matches the query and
/// whose full path it is. Together with the contract of `collect_matches`,
/// the collected set is exactly the matched set of the tree.
pub proof fn lemma_matched_set_exact(
    nodes: Seq<DirTree>,
    prefix: Seq<char>,
    query: Seq<char>,
    path: Seq<char>,
)
    ensures
        matched_in(nodes, prefix, query).contains(path) <==> (exists|addr: Seq<int>|
            visible_match_at(nodes, prefix, query, path, addr)),
{
    lemma_matched_iff_visible_match(nodes, prefix, query, path);
    lemma_has_match_iff_addressed(nodes, prefix, query, path);
}

/// Law: traversing an unmodified tree twice yields the same set of matches,
/// whatever order each run lists them in.
pub proof fn lemma_traversal_idempotent(
    nodes: Seq<DirTree>,
    prefix: Seq<char>,
    query: Seq<char>,
    first_run: Seq<Seq<char>>,
    second_run: Seq<Seq<char>>,
)
    requires
        first_run == matched_in(nodes, prefix, query),
        second_run == matched_in(nodes, prefix, query),
    ensures
        first_run.to_set() == second_run.to_set(),
{
}

} // verus!
