use vstd::prelude::*;
use crate::models::{OrgNode, OrgNodeView, node_view, nodes_view, lemma_nodes_view_push, lemma_nodes_view_index};
use crate::clock::now_utc;
use crate::ids::{random_str, id_chars};
use crate::models::ApiError;
use crate::text::{trim, trimmed, u64_to_decimal, decimal, views, str_eq, contains_str, clone_strings, sort_dedup, strictly_sorted};

verus! {

/// The first node, in pre-order, whose id is `id`.
pub open spec fn find_view(n: OrgNodeView, id: Seq<char>) -> Option<OrgNodeView>
    decreases n,
{
    if n.id == id {
        Some(n)
    } else {
        find_in(n.children, id)
    }
}

/// The first node, in pre-order over the trees of `s` in turn, whose id is `id`.
pub open spec fn find_in(s: Seq<OrgNodeView>, id: Seq<char>) -> Option<OrgNodeView>
    decreases s,
{
    if s.len() == 0 {
        None
    } else {
        match find_view(s[0], id) {
            Some(x) => Some(x),
            None => find_in(s.drop_first(), id),
        }
    }
}

/// Applies `f` to the first node, in pre-order, whose id is `id`; says whether there was one.
pub open spec fn update_first(
    n: OrgNodeView,
    id: Seq<char>,
    f: spec_fn(OrgNodeView) -> OrgNodeView,
) -> (OrgNodeView, bool)
    decreases n,
{
    if n.id == id {
        (f(n), true)
    } else {
        let (cs, found) = update_first_in(n.children, id, f);
        (OrgNodeView { children: cs, ..n }, found)
    }
}

/// Applies `f` to the first node, in pre-order over the trees of `s`, whose id is `id`.
pub open spec fn update_first_in(
    s: Seq<OrgNodeView>,
    id: Seq<char>,
    f: spec_fn(OrgNodeView) -> OrgNodeView,
) -> (Seq<OrgNodeView>, bool)
    decreases s,
{
    if s.len() == 0 {
        (s, false)
    } else {
        let (h, found) = update_first(s[0], id, f);
        if found {
            (seq![h] + s.drop_first(), true)
        } else {
            let (t, found_rest) = update_first_in(s.drop_first(), id, f);
            (seq![s[0]] + t, found_rest)
        }
    }
}

/// The position of the first node of `s` whose own id is `id`.
pub open spec fn child_index(s: Seq<OrgNodeView>, id: Seq<char>) -> Option<int>
    decreases s.len(),
{
    if s.len() == 0 {
        None
    } else if s[0].id == id {
        Some(0)
    } else {
        match child_index(s.drop_first(), id) {
            Some(k) => Some(k + 1),
            None => None,
        }
    }
}

/// Removes the first node whose id is `id` below `n`: at each level a direct child with
/// that id goes first; otherwise the children's subtrees are searched in order.
pub open spec fn remove_below(n: OrgNodeView, id: Seq<char>) -> (OrgNodeView, bool)
    decreases n,
{
    match child_index(n.children, id) {
        Some(k) => (OrgNodeView { children: n.children.remove(k), ..n }, true),
        None => {
            let (cs, found) = remove_below_in(n.children, id);
            (OrgNodeView { children: cs, ..n }, found)
        },
    }
}

/// [`remove_below`] over the trees of `s` in turn, stopping at the first that has such a node.
pub open spec fn remove_below_in(s: Seq<OrgNodeView>, id: Seq<char>) -> (Seq<OrgNodeView>, bool)
    decreases s,
{
    if s.len() == 0 {
        (s, false)
    } else {
        let (h, found) = remove_below(s[0], id);
        if found {
            (seq![h] + s.drop_first(), true)
        } else {
            let (t, found_rest) = remove_below_in(s.drop_first(), id);
            (seq![s[0]] + t, found_rest)
        }
    }
}

/// The members of a node and of every node below it.
pub open spec fn subtree_members(n: OrgNodeView) -> Set<Seq<char>>
    decreases n,
{
    n.members.to_set().union(subtrees_members(n.children))
}

/// The members of the trees of `s`.
pub open spec fn subtrees_members(s: Seq<OrgNodeView>) -> Set<Seq<char>>
    decreases s,
{
    if s.len() == 0 {
        Set::empty()
    } else {
        subtree_members(s[0]).union(subtrees_members(s.drop_first()))
    }
}

/// Appends `c` to a node's children.
pub open spec fn with_child(c: OrgNodeView) -> spec_fn(OrgNodeView) -> OrgNodeView {
    |n: OrgNodeView| OrgNodeView { children: n.children.push(c), ..n }
}

/// Replacing one node of a sequence replaces its view.
pub proof fn lemma_nodes_view_update(s: Seq<OrgNode>, i: int, x: OrgNode)
    requires
        0 <= i < s.len(),
    ensures
        nodes_view(s.update(i, x)) == nodes_view(s).update(i, node_view(x)),
{
    lemma_nodes_view_index(s);
    lemma_nodes_view_index(s.update(i, x));
    assert(nodes_view(s.update(i, x)) =~= nodes_view(s).update(i, node_view(x)));
}

/// Appends a copy of `child` to the children of the first node, in pre-order, whose
/// id is `parent_id`; says whether there was such a node.
fn add_child(node: &mut OrgNode, parent_id: &str, child: &OrgNode) -> (found: bool)
    ensures
        (final(node)@, found) == update_first(old(node)@, parent_id@, with_child(child@)),
    decreases *old(node),
{
    let ghost f = with_child(child@);
    if str_eq(node.id.as_str(), parent_id) {
        let c = child.clone();
        proof {
            lemma_nodes_view_push(node.children@, c);
        }
        node.children.push(c);
        assert(node@ == f(old(node)@));
        return true;
    }
    let ghost v = nodes_view(node.children@);
    proof {
        lemma_nodes_view_index(node.children@);
    }
    let mut i: usize = 0;
    while i < node.children.len()
        invariant
            0 <= i <= node.children@.len(),
            node.children@.len() == old(node).children@.len(),
            nodes_view(node.children@) == v,
            v == old(node)@.children,
            v.len() == node.children@.len(),
            node.id@ == old(node).id@,
            node.name@ == old(node).name@,
            node.node_type@ == old(node).node_type@,
            views(node.members@) == views(old(node).members@),
            old(node).id@ != parent_id@,
            f == with_child(child@),
            forall|j: int| i <= j < node.children@.len() ==> node.children@[j] == old(node).children@[j],
            forall|j: int| 0 <= j < i ==> !(#[trigger] update_first(v[j], parent_id@, f)).1,
        decreases node.children@.len() - i,
    {
        let ghost before = node.children@;
        let mut c = node.children.remove(i);
        assert(c == old(node).children@[i as int]);
        proof {
            lemma_nodes_view_index(before);
        }
        let found = add_child(&mut c, parent_id, child);
        node.children.insert(i, c);
        assert(node.children@ =~= before.update(i as int, c));
        proof {
            lemma_nodes_view_update(before, i as int, c);
            lemma_update_first_in_skip(v, parent_id@, f, i as int);
            lemma_update_first(v[i as int], parent_id@, f);
        }
        if found {
            assert(v.skip(i as int)[0] == v[i as int]);
            assert(v.skip(i as int).drop_first() =~= v.skip(i + 1));
            assert(v.take(i as int) + (seq![node_view(c)] + v.skip(i + 1)) =~= v.update(i as int, node_view(c)));
            return true;
        }
        assert(nodes_view(node.children@) =~= v);
        i = i + 1;
    }
    proof {
        lemma_update_first_in_skip(v, parent_id@, f, i as int);
        assert(v.skip(i as int) =~= Seq::<OrgNodeView>::empty());
        assert(v.take(i as int) =~= v);
        assert(node@ == old(node)@);
    }
    false
}

/// `ms` followed by each id of `ids`, in order, that is not already there.
pub open spec fn append_missing(ms: Seq<Seq<char>>, ids: Seq<Seq<char>>) -> Seq<Seq<char>>
    decreases ids.len(),
{
    if ids.len() == 0 {
        ms
    } else {
        let prev = append_missing(ms, ids.drop_last());
        if prev.contains(ids.last()) {
            prev
        } else {
            prev.push(ids.last())
        }
    }
}

/// `ms` without the ids of `ids`.
pub open spec fn remove_listed(ms: Seq<Seq<char>>, ids: Seq<Seq<char>>) -> Seq<Seq<char>> {
    ms.filter(|m: Seq<char>| !ids.contains(m))
}

/// What a member update does to a node: `add` appends the missing ids, `remove`
/// drops the listed ones, any other action leaves the node as it is.
pub open spec fn member_update(action: Seq<char>, ids: Seq<Seq<char>>) -> spec_fn(OrgNodeView) -> OrgNodeView {
    |n: OrgNodeView|
        if action == "add"@ {
            OrgNodeView { members: append_missing(n.members, ids), ..n }
        } else if action == "remove"@ {
            OrgNodeView { members: remove_listed(n.members, ids), ..n }
        } else {
            n
        }
}

/// Applies a member action to one node's own member list.
fn apply_member_action(members: &mut Vec<String>, action: &str, user_ids: &Vec<String>)
    ensures
        views(final(members)@) == (if action@ == "add"@ {
            append_missing(views(old(members)@), views(user_ids@))
        } else if action@ == "remove"@ {
            remove_listed(views(old(members)@), views(user_ids@))
        } else {
            views(old(members)@)
        }),
{
    if str_eq(action, "add") {
        let ghost ms0 = views(members@);
        let ghost ids = views(user_ids@);
        let mut i: usize = 0;
        assert(ids.take(0) =~= Seq::<Seq<char>>::empty());
        while i < user_ids.len()
            invariant
                0 <= i <= user_ids@.len(),
                ids == views(user_ids@),
                views(members@) == append_missing(ms0, ids.take(i as int)),
            decreases user_ids@.len() - i,
        {
            assert(ids.take(i + 1).drop_last() =~= ids.take(i as int));
            assert(ids.take(i + 1).last() == user_ids@[i as int]@);
            if !contains_str(members, user_ids[i].as_str()) {
                let u = user_ids[i].clone();
                members.push(u);
                assert(views(members@) =~= append_missing(ms0, ids.take(i as int)).push(u@));
            }
            i = i + 1;
        }
        assert(ids.take(user_ids@.len() as int) =~= ids);
    } else if str_eq(action, "remove") {
        let ghost ms0 = views(members@);
        let ghost ids = views(user_ids@);
        let ghost pred = |m: Seq<char>| !ids.contains(m);
        let mut kept: Vec<String> = Vec::new();
        let mut i: usize = 0;
        assert(ms0.take(0) =~= Seq::<Seq<char>>::empty());
        assert(ms0.take(0).filter(pred) =~= Seq::<Seq<char>>::empty()) by {
            reveal(Seq::filter);
        }
        while i < members.len()
            invariant
                0 <= i <= members@.len(),
                ms0 == views(members@),
                ids == views(user_ids@),
                pred == (|m: Seq<char>| !ids.contains(m)),
                views(kept@) == ms0.take(i as int).filter(pred),
            decreases members@.len() - i,
        {
            proof {
                reveal(Seq::filter);
                assert(ms0.take(i + 1).drop_last() =~= ms0.take(i as int));
                assert(ms0.take(i + 1).last() == ms0[i as int]);
            }
            if !contains_str(user_ids, members[i].as_str()) {
                let m = members[i].clone();
                kept.push(m);
                assert(views(kept@) =~= ms0.take(i as int).filter(pred).push(m@));
            }
            i = i + 1;
        }
        assert(ms0.take(members@.len() as int) =~= ms0);
        *members = kept;
    }
}

/// Applies a member action to the first node, in pre-order, whose id is `id`; says
/// whether there was such a node.
fn update_node_members(node: &mut OrgNode, id: &str, action: &str, user_ids: &Vec<String>) -> (found: bool)
    ensures
        (final(node)@, found) == update_first(old(node)@, id@, member_update(action@, views(user_ids@))),
    decreases *old(node),
{
    let ghost f = member_update(action@, views(user_ids@));
    if str_eq(node.id.as_str(), id) {
        apply_member_action(&mut node.members, action, user_ids);
        assert(node@ == f(old(node)@));
        return true;
    }
    let ghost v = nodes_view(node.children@);
    proof {
        lemma_nodes_view_index(node.children@);
    }
    let mut i: usize = 0;
    while i < node.children.len()
        invariant
            0 <= i <= node.children@.len(),
            node.children@.len() == old(node).children@.len(),
            nodes_view(node.children@) == v,
            v == old(node)@.children,
            v.len() == node.children@.len(),
            node.id@ == old(node).id@,
            node.name@ == old(node).name@,
            node.node_type@ == old(node).node_type@,
            views(node.members@) == views(old(node).members@),
            old(node).id@ != id@,
            f == member_update(action@, views(user_ids@)),
            forall|j: int| i <= j < node.children@.len() ==> node.children@[j] == old(node).children@[j],
            forall|j: int| 0 <= j < i ==> !(#[trigger] update_first(v[j], id@, f)).1,
        decreases node.children@.len() - i,
    {
        let ghost before = node.children@;
        let mut c = node.children.remove(i);
        assert(c == old(node).children@[i as int]);
        proof {
            lemma_nodes_view_index(before);
        }
        let found = update_node_members(&mut c, id, action, user_ids);
        node.children.insert(i, c);
        assert(node.children@ =~= before.update(i as int, c));
        proof {
            lemma_nodes_view_update(before, i as int, c);
            lemma_update_first_in_skip(v, id@, f, i as int);
            lemma_update_first(v[i as int], id@, f);
        }
        if found {
            assert(v.skip(i as int)[0] == v[i as int]);
            assert(v.skip(i as int).drop_first() =~= v.skip(i + 1));
            assert(v.take(i as int) + (seq![node_view(c)] + v.skip(i + 1)) =~= v.update(i as int, node_view(c)));
            return true;
        }
        assert(nodes_view(node.children@) =~= v);
        i = i + 1;
    }
    proof {
        lemma_update_first_in_skip(v, id@, f, i as int);
        assert(v.skip(i as int) =~= Seq::<OrgNodeView>::empty());
        assert(v.take(i as int) =~= v);
        assert(node@ == old(node)@);
    }
    false
}

/// The first direct child with the id is the one [`child_index`] names.
pub proof fn lemma_child_index_first(s: Seq<OrgNodeView>, id: Seq<char>, j: int)
    requires
        0 <= j <= s.len(),
        forall|k: int| 0 <= k < j ==> (#[trigger] s[k]).id != id,
        j < s.len() ==> s[j].id == id,
    ensures
        child_index(s, id) == (if j < s.len() { Some(j) } else { None::<int> }),
    decreases j,
{
    if j > 0 {
        let t = s.drop_first();
        assert forall|k: int| 0 <= k < j - 1 implies (#[trigger] t[k]).id != id by {
            assert(t[k] == s[k + 1]);
        }
        lemma_child_index_first(t, id, j - 1);
    }
}

/// Once the first `i` trees hold no node below their root with the id, the removal
/// starts at tree `i`.
pub proof fn lemma_remove_below_in_skip(s: Seq<OrgNodeView>, id: Seq<char>, i: int)
    requires
        0 <= i <= s.len(),
        forall|j: int| 0 <= j < i ==> !(#[trigger] remove_below(s[j], id)).1,
    ensures
        remove_below_in(s, id).0 == s.take(i) + remove_below_in(s.skip(i), id).0,
        remove_below_in(s, id).1 == remove_below_in(s.skip(i), id).1,
    decreases i,
{
    if i == 0 {
        assert(s.skip(0) =~= s);
        assert(s.take(0) + remove_below_in(s, id).0 =~= remove_below_in(s, id).0);
    } else {
        assert(!remove_below(s[0], id).1);
        let t = s.drop_first();
        assert forall|j: int| 0 <= j < i - 1 implies !(#[trigger] remove_below(t[j], id)).1 by {
            assert(t[j] == s[j + 1]);
        }
        lemma_remove_below_in_skip(t, id, i - 1);
        assert(t.skip(i - 1) =~= s.skip(i));
        assert(s.take(i) =~= seq![s[0]] + t.take(i - 1));
        assert(seq![s[0]] + (t.take(i - 1) + remove_below_in(s.skip(i), id).0) =~= s.take(i)
            + remove_below_in(s.skip(i), id).0);
    }
}

/// Removes the first node below the root whose id is `id` (a direct child first, then
/// the children's subtrees in order); says whether one was removed.
pub fn remove_child_from_tree(tree: &mut OrgNode, id: &str) -> (found: bool)
    ensures
        (final(tree)@, found) == remove_below(old(tree)@, id@),
    decreases *old(tree),
{
    let ghost v = nodes_view(tree.children@);
    proof {
        lemma_nodes_view_index(tree.children@);
    }
    let mut j: usize = 0;
    while j < tree.children.len() && !str_eq(tree.children[j].id.as_str(), id)
        invariant
            0 <= j <= tree.children@.len(),
            v == nodes_view(tree.children@),
            v.len() == tree.children@.len(),
            forall|k: int| 0 <= k < tree.children@.len() ==> #[trigger] v[k] == node_view(tree.children@[k]),
            forall|k: int| 0 <= k < j ==> (#[trigger] v[k]).id != id@,
        decreases tree.children@.len() - j,
    {
        j = j + 1;
    }
    proof {
        lemma_child_index_first(v, id@, j as int);
    }
    if j < tree.children.len() {
        let ghost before = tree.children@;
        tree.children.remove(j);
        proof {
            lemma_nodes_view_index(tree.children@);
            assert(nodes_view(tree.children@) =~= v.remove(j as int));
        }
        return true;
    }
    let mut i: usize = 0;
    while i < tree.children.len()
        invariant
            0 <= i <= tree.children@.len(),
            tree.children@.len() == old(tree).children@.len(),
            nodes_view(tree.children@) == v,
            v == old(tree)@.children,
            v.len() == tree.children@.len(),
            child_index(v, id@) is None,
            tree.id@ == old(tree).id@,
            tree.name@ == old(tree).name@,
            tree.node_type@ == old(tree).node_type@,
            views(tree.members@) == views(old(tree).members@),
            forall|k: int| i <= k < tree.children@.len() ==> tree.children@[k] == old(tree).children@[k],
            forall|k: int| 0 <= k < i ==> !(#[trigger] remove_below(v[k], id@)).1,
        decreases tree.children@.len() - i,
    {
        let ghost before = tree.children@;
        let mut c = tree.children.remove(i);
        assert(c == old(tree).children@[i as int]);
        proof {
            lemma_nodes_view_index(before);
        }
        let found = remove_child_from_tree(&mut c, id);
        tree.children.insert(i, c);
        assert(tree.children@ =~= before.update(i as int, c));
        proof {
            lemma_nodes_view_update(before, i as int, c);
            lemma_remove_below_in_skip(v, id@, i as int);
            lemma_remove_below(v[i as int], id@);
        }
        if found {
            assert(v.skip(i as int)[0] == v[i as int]);
            assert(v.skip(i as int).drop_first() =~= v.skip(i + 1));
            assert(v.take(i as int) + (seq![node_view(c)] + v.skip(i + 1)) =~= v.update(i as int, node_view(c)));
            return true;
        }
        assert(nodes_view(tree.children@) =~= v);
        i = i + 1;
    }
    proof {
        lemma_remove_below_in_skip(v, id@, i as int);
        assert(v.skip(i as int) =~= Seq::<OrgNodeView>::empty());
        assert(v.take(i as int) =~= v);
        assert(tree@ == old(tree)@);
    }
    false
}

/// Once the first `i` trees hold no node with the id, the search starts at tree `i`.
pub proof fn lemma_find_in_skip(s: Seq<OrgNodeView>, id: Seq<char>, i: int)
    requires
        0 <= i <= s.len(),
        forall|j: int| 0 <= j < i ==> (#[trigger] find_view(s[j], id)) is None,
    ensures
        find_in(s, id) == find_in(s.skip(i), id),
    decreases i,
{
    if i == 0 {
        assert(s.skip(0) =~= s);
    } else {
        let t = s.drop_first();
        assert(find_view(s[0], id) is None);
        assert forall|j: int| 0 <= j < i - 1 implies (#[trigger] find_view(t[j], id)) is None by {
            assert(t[j] == s[j + 1]);
        }
        lemma_find_in_skip(t, id, i - 1);
        assert(t.skip(i - 1) =~= s.skip(i));
    }
}

/// The first node, in pre-order, whose id is `id`.
pub fn find_node_in_tree<'a>(node: &'a OrgNode, id: &str) -> (r: Option<&'a OrgNode>)
    ensures
        match r {
            Some(x) => find_view(node@, id@) == Some(x@),
            None => find_view(node@, id@) is None,
        },
    decreases node,
{
    if str_eq(node.id.as_str(), id) {
        return Some(node);
    }
    let ghost v = nodes_view(node.children@);
    proof {
        lemma_nodes_view_index(node.children@);
    }
    let mut i: usize = 0;
    while i < node.children.len()
        invariant
            0 <= i <= node.children@.len(),
            v == nodes_view(node.children@),
            v == node@.children,
            v.len() == node.children@.len(),
            node.id@ != id@,
            forall|k: int| 0 <= k < node.children@.len() ==> #[trigger] v[k] == node_view(node.children@[k]),
            forall|k: int| 0 <= k < i ==> (#[trigger] find_view(v[k], id@)) is None,
        decreases node.children@.len() - i,
    {
        let r = find_node_in_tree(&node.children[i], id);
        proof {
            lemma_find_in_skip(v, id@, i as int);
            assert(v.skip(i as int)[0] == v[i as int]);
            assert(v.skip(i as int).drop_first() =~= v.skip(i + 1));
        }
        if r.is_some() {
            return r;
        }
        i = i + 1;
    }
    proof {
        lemma_find_in_skip(v, id@, i as int);
        assert(v.skip(i as int) =~= Seq::<OrgNodeView>::empty());
    }
    None
}

/// The members of the trees of `s` gathered tree by tree from the back.
pub proof fn lemma_subtrees_members_push(s: Seq<OrgNodeView>, x: OrgNodeView)
    ensures
        subtrees_members(s.push(x)) == subtrees_members(s).union(subtree_members(x)),
    decreases s.len(),
{
    if s.len() == 0 {
        assert(s.push(x).drop_first() =~= Seq::<OrgNodeView>::empty());
        assert(s.push(x)[0] == x);
        assert(subtrees_members(s.push(x).drop_first()) == Set::<Seq<char>>::empty());
        assert(subtrees_members(s) == Set::<Seq<char>>::empty());
        assert(subtrees_members(s.push(x)) =~= subtrees_members(s).union(subtree_members(x)));
    } else {
        assert(s.push(x).drop_first() =~= s.drop_first().push(x));
        lemma_subtrees_members_push(s.drop_first(), x);
        assert(subtrees_members(s.push(x)) =~= subtrees_members(s).union(subtree_members(x)));
    }
}

/// Adds to `acc` every member of `node` and of the nodes below it.
fn gather_members(node: &OrgNode, acc: &mut Vec<String>)
    ensures
        views(final(acc)@).to_set() == views(old(acc)@).to_set().union(subtree_members(node@)),
    decreases node,
{
    let ghost start = views(acc@).to_set();
    let mut k: usize = 0;
    while k < node.members.len()
        invariant
            0 <= k <= node.members@.len(),
            views(acc@).to_set() == start.union(views(node.members@).take(k as int).to_set()),
        decreases node.members@.len() - k,
    {
        let ghost before = views(acc@);
        let m = node.members[k].clone();
        acc.push(m);
        proof {
            assert(views(acc@) =~= before.push(m@));
            before.lemma_push_to_set_commute(m@);
            assert(views(node.members@).take(k + 1) =~= views(node.members@).take(k as int).push(m@));
            views(node.members@).take(k as int).lemma_push_to_set_commute(m@);
            assert(views(acc@).to_set() =~= start.union(views(node.members@).take(k + 1).to_set()));
        }
        k = k + 1;
    }
    assert(views(node.members@).take(node.members@.len() as int) =~= views(node.members@));
    let ghost v = nodes_view(node.children@);
    proof {
        lemma_nodes_view_index(node.children@);
        assert(v.take(0) =~= Seq::<OrgNodeView>::empty());
        assert(views(acc@).to_set() =~= start.union(node@.members.to_set()).union(subtrees_members(v.take(0))));
    }
    let mut i: usize = 0;
    while i < node.children.len()
        invariant
            0 <= i <= node.children@.len(),
            v == nodes_view(node.children@),
            v == node@.children,
            v.len() == node.children@.len(),
            forall|j: int| 0 <= j < node.children@.len() ==> #[trigger] v[j] == node_view(node.children@[j]),
            views(acc@).to_set() == start.union(node@.members.to_set()).union(subtrees_members(v.take(i as int))),
        decreases node.children@.len() - i,
    {
        gather_members(&node.children[i], acc);
        proof {
            assert(v.take(i + 1) =~= v.take(i as int).push(v[i as int]));
            lemma_subtrees_members_push(v.take(i as int), v[i as int]);
            assert(views(acc@).to_set() =~= start.union(node@.members.to_set()).union(subtrees_members(v.take(i + 1))));
        }
        i = i + 1;
    }
    assert(v.take(i as int) =~= v);
    assert(views(acc@).to_set() =~= start.union(subtree_members(node@)));
}

/// All members of `node` and of the nodes below it, sorted, each once.
pub fn collect_members_from(node: &OrgNode) -> (r: Vec<String>)
    ensures
        strictly_sorted(views(r@)),
        views(r@).to_set() == subtree_members(node@),
{
    let mut acc: Vec<String> = Vec::new();
    assert(views(acc@).to_set() =~= Set::<Seq<char>>::empty());
    gather_members(node, &mut acc);
    assert(views(acc@).to_set() =~= subtree_members(node@));
    sort_dedup(acc)
}

/// The own members of the first node, in pre-order, whose id is `id`; none if there is no such node.
pub fn tree_members_by_id(tree: &OrgNode, id: &str) -> (r: Vec<String>)
    ensures
        views(r@) == match find_view(tree@, id@) {
            Some(n) => n.members,
            None => Seq::empty(),
        },
{
    match find_node_in_tree(tree, id) {
        Some(n) => clone_strings(&n.members),
        None => Vec::new(),
    }
}

/// One line of the flattened tree.
#[derive(Debug)]
pub struct FlatNode {
    pub id: String,
    pub name: String,
    pub node_type: String,
    pub depth: usize,
    pub member_count: usize,
}

/// The value of a [`FlatNode`] with its strings taken as character sequences.
pub struct FlatNodeView {
    pub id: Seq<char>,
    pub name: Seq<char>,
    pub node_type: Seq<char>,
    pub depth: int,
    pub member_count: int,
}

impl View for FlatNode {
    type V = FlatNodeView;

    open spec fn view(&self) -> FlatNodeView {
        FlatNodeView {
            id: self.id@,
            name: self.name@,
            node_type: self.node_type@,
            depth: self.depth as int,
            member_count: self.member_count as int,
        }
    }
}

/// The nodes of a tree in pre-order, each with its depth below the tree's root
/// (counted from `depth`) and its own member count.
pub open spec fn flatten(n: OrgNodeView, depth: int) -> Seq<FlatNodeView>
    decreases n,
{
    seq![FlatNodeView {
        id: n.id,
        name: n.name,
        node_type: n.node_type,
        depth,
        member_count: n.members.len() as int,
    }] + flatten_in(n.children, depth + 1)
}

/// [`flatten`] over the trees of `s` in turn, all at the same depth.
pub open spec fn flatten_in(s: Seq<OrgNodeView>, depth: int) -> Seq<FlatNodeView>
    decreases s,
{
    if s.len() == 0 {
        Seq::empty()
    } else {
        flatten(s[0], depth) + flatten_in(s.drop_first(), depth)
    }
}

/// The number of levels of a tree.
pub open spec fn height(n: OrgNodeView) -> nat
    decreases n,
{
    1 + heights(n.children)
}

/// The greatest height of the trees of `s`.
pub open spec fn heights(s: Seq<OrgNodeView>) -> nat
    decreases s,
{
    if s.len() == 0 {
        0
    } else {
        let h = height(s[0]);
        let t = heights(s.drop_first());
        if h > t { h } else { t }
    }
}

/// No tree of `s` is taller than [`heights`] says.
pub proof fn lemma_heights_bound(s: Seq<OrgNodeView>, i: int)
    requires
        0 <= i < s.len(),
    ensures
        height(s[i]) <= heights(s),
    decreases i,
{
    if i > 0 {
        lemma_heights_bound(s.drop_first(), i - 1);
    }
}

/// Flattening trees one after another appends their flattenings.
pub proof fn lemma_flatten_in_push(s: Seq<OrgNodeView>, x: OrgNodeView, depth: int)
    ensures
        flatten_in(s.push(x), depth) == flatten_in(s, depth) + flatten(x, depth),
    decreases s.len(),
{
    if s.len() == 0 {
        assert(s.push(x).drop_first() =~= Seq::<OrgNodeView>::empty());
        assert(s.push(x)[0] == x);
        assert(flatten_in(s.push(x).drop_first(), depth) == Seq::<FlatNodeView>::empty());
        assert(flatten_in(s, depth) == Seq::<FlatNodeView>::empty());
        assert(flatten_in(s.push(x), depth) =~= flatten_in(s, depth) + flatten(x, depth));
    } else {
        assert(s.push(x).drop_first() =~= s.drop_first().push(x));
        lemma_flatten_in_push(s.drop_first(), x, depth);
        assert(s.push(x)[0] == s[0]);
        assert(flatten_in(s.push(x), depth) =~= flatten_in(s, depth) + flatten(x, depth));
    }
}

/// The flat views of a vector of flat nodes.
pub open spec fn flat_views(s: Seq<FlatNode>) -> Seq<FlatNodeView> {
    s.map_values(|f: FlatNode| f@)
}

fn walk(node: &OrgNode, depth: usize, nodes: &mut Vec<FlatNode>)
    requires
        depth + height(node@) <= usize::MAX,
    ensures
        flat_views(final(nodes)@) == flat_views(old(nodes)@) + flatten(node@, depth as int),
    decreases node,
{
    let ghost start = flat_views(nodes@);
    nodes.push(FlatNode {
        id: node.id.clone(),
        name: node.name.clone(),
        node_type: node.node_type.clone(),
        depth,
        member_count: node.members.len(),
    });
    let ghost v = nodes_view(node.children@);
    proof {
        lemma_nodes_view_index(node.children@);
        assert(v.take(0) =~= Seq::<OrgNodeView>::empty());
        assert(flat_views(nodes@) =~= start + seq![flatten(node@, depth as int)[0]]);
    }
    let mut i: usize = 0;
    while i < node.children.len()
        invariant
            0 <= i <= node.children@.len(),
            v == nodes_view(node.children@),
            v == node@.children,
            v.len() == node.children@.len(),
            depth + height(node@) <= usize::MAX,
            forall|j: int| 0 <= j < node.children@.len() ==> #[trigger] v[j] == node_view(node.children@[j]),
            flat_views(nodes@) == start + seq![flatten(node@, depth as int)[0]] + flatten_in(v.take(i as int), depth + 1),
        decreases node.children@.len() - i,
    {
        proof {
            lemma_heights_bound(v, i as int);
        }
        walk(&node.children[i], depth + 1, nodes);
        proof {
            assert(v.take(i + 1) =~= v.take(i as int).push(v[i as int]));
            lemma_flatten_in_push(v.take(i as int), v[i as int], depth + 1);
            assert(flat_views(nodes@) =~= start + seq![flatten(node@, depth as int)[0]] + flatten_in(v.take(i + 1), depth + 1));
        }
        i = i + 1;
    }
    assert(v.take(i as int) =~= v);
    assert(flat_views(nodes@) =~= start + flatten(node@, depth as int));
}

/// The view of a freshly created node.
pub open spec fn new_node_view(id: Seq<char>, name: Seq<char>, node_type: Seq<char>) -> OrgNodeView {
    OrgNodeView { id, name, node_type, children: Seq::empty(), members: Seq::empty() }
}

/// The ids that [`generate_id`] gives: `node_`, a millisecond time, `_` and six id characters.
pub open spec fn is_generated_node_id(id: Seq<char>) -> bool {
    exists|millis: u64, seed: u64| id == "node_"@ + decimal(millis as nat) + "_"@ + id_chars(seed, 6)
}

/// A fresh node id from the clock and six random characters.
pub fn generate_id() -> (id: String)
    ensures
        is_generated_node_id(id@),
{
    let now = now_utc();
    let millis = u64_to_decimal(now.millis);
    let suffix = random_str(6);
    let id = "node_".to_string().concat(millis.as_str()).concat("_").concat(suffix.as_str());
    proof {
        let seed = choose|seed: u64| suffix@ == id_chars(seed, 6);
        assert(id@ == "node_"@ + decimal(now.millis as nat) + "_"@ + id_chars(seed, 6));
    }
    id
}

/// Adds a node named `name` (trimmed) of type `node_type` with the given id under the
/// first node, in pre-order, whose id is `parent_id`.
pub fn add_node_with_id(
    tree: &mut OrgNode,
    parent_id: &str,
    name: &str,
    node_type: &str,
    id: String,
) -> (r: Result<OrgNode, ApiError>)
    ensures
        name@.len() == 0 || node_type@.len() == 0 ==> (r matches Err(ApiError::EmptyNodeNameOrType)
            && final(tree)@ == old(tree)@),
        name@.len() > 0 && node_type@.len() > 0 ==> {
            let nv = new_node_view(id@, trimmed(name@), node_type@);
            let (t, found) = update_first(old(tree)@, parent_id@, with_child(nv));
            &&& final(tree)@ == t
            &&& found ==> (r matches Ok(n) && n@ == nv)
            &&& !found ==> r matches Err(ApiError::ParentNodeNotFound)
        },
{
    if name.is_empty() || node_type.is_empty() {
        return Err(ApiError::EmptyNodeNameOrType);
    }
    let node = OrgNode {
        id,
        name: trim(name),
        node_type: node_type.to_string(),
        children: Vec::new(),
        members: Vec::new(),
    };
    assert(node@ == new_node_view(node.id@, trimmed(name@), node_type@)) by {
        assert(nodes_view(node.children@) =~= Seq::<OrgNodeView>::empty());
        assert(views(node.members@) =~= Seq::<Seq<char>>::empty());
    }
    let found = add_child(tree, parent_id, &node);
    if found {
        Ok(node)
    } else {
        Err(ApiError::ParentNodeNotFound)
    }
}

/// Adds a node with a fresh id under the node `parent_id`.
pub fn add_node(tree: &mut OrgNode, parent_id: &str, name: &str, node_type: &str) -> (r: Result<
    OrgNode,
    ApiError,
>)
    ensures
        name@.len() == 0 || node_type@.len() == 0 ==> (r matches Err(ApiError::EmptyNodeNameOrType)
            && final(tree)@ == old(tree)@),
        name@.len() > 0 && node_type@.len() > 0 ==> {
            &&& r matches Ok(n) ==> {
                let nv = new_node_view(n.id@, trimmed(name@), node_type@);
                &&& n@ == nv
                &&& is_generated_node_id(n.id@)
                &&& (final(tree)@, true) == update_first(old(tree)@, parent_id@, with_child(nv))
            }
            &&& r matches Err(e) ==> e == ApiError::ParentNodeNotFound && final(tree)@ == old(tree)@
                && find_view(old(tree)@, parent_id@) is None
        },
{
    if name.is_empty() || node_type.is_empty() {
        return add_node_with_id(tree, parent_id, name, node_type, String::new());
    }
    let id = generate_id();
    let ghost gid = id@;
    let r = add_node_with_id(tree, parent_id, name, node_type, id);
    proof {
        let nv = new_node_view(gid, trimmed(name@), node_type@);
        lemma_update_first(old(tree)@, parent_id@, with_child(nv));
    }
    r
}

/// Deletes the node `id` with everything below it; the root cannot be deleted.
pub fn delete_node(tree: &mut OrgNode, id: &str) -> (r: Result<(), ApiError>)
    ensures
        id@ == old(tree).id@ ==> (r matches Err(ApiError::CannotDeleteRoot) && final(tree)@ == old(tree)@),
        id@ != old(tree).id@ ==> {
            let (t, found) = remove_below(old(tree)@, id@);
            &&& final(tree)@ == t
            &&& found ==> r is Ok
            &&& !found ==> r matches Err(ApiError::NodeNotFound)
        },
        r is Ok <==> id@ != old(tree).id@ && find_in(old(tree)@.children, id@) is Some,
{
    proof {
        lemma_remove_below(tree@, id@);
    }
    if str_eq(id, tree.id.as_str()) {
        return Err(ApiError::CannotDeleteRoot);
    }
    if remove_child_from_tree(tree, id) {
        Ok(())
    } else {
        Err(ApiError::NodeNotFound)
    }
}

/// Adds members to, or removes members from, the node `id`, and gives that node's
/// members afterwards.
pub fn update_members(tree: &mut OrgNode, id: &str, action: &str, user_ids: &Vec<String>) -> (r:
    Result<Vec<String>, ApiError>)
    ensures
        action@.len() == 0 || user_ids@.len() == 0 ==> (r matches Err(ApiError::InvalidParameters)
            && final(tree)@ == old(tree)@),
        action@.len() > 0 && user_ids@.len() > 0 ==> {
            let (t, found) = update_first(old(tree)@, id@, member_update(action@, views(user_ids@)));
            &&& final(tree)@ == t
            &&& found ==> (r matches Ok(ms) && find_view(t, id@) matches Some(n) && views(ms@) == n.members)
            &&& !found ==> r matches Err(ApiError::NodeNotFound)
        },
{
    if action.is_empty() || user_ids.len() == 0 {
        return Err(ApiError::InvalidParameters);
    }
    let found = update_node_members(tree, id, action, user_ids);
    if found {
        proof {
            lemma_update_first_keeps_found(old(tree)@, id@, member_update(action@, views(user_ids@)));
        }
        Ok(tree_members_by_id(tree, id))
    } else {
        Err(ApiError::NodeNotFound)
    }
}

/// All members of the node `id` and of the nodes below it, sorted, each once.
pub fn get_node_members(tree: &OrgNode, id: &str) -> (r: Result<Vec<String>, ApiError>)
    ensures
        match find_view(tree@, id@) {
            Some(n) => (r matches Ok(ms) && strictly_sorted(views(ms@)) && views(ms@).to_set()
                == subtree_members(n)),
            None => r matches Err(ApiError::NodeNotFound),
        },
{
    match find_node_in_tree(tree, id) {
        Some(node) => Ok(collect_members_from(node)),
        None => Err(ApiError::NodeNotFound),
    }
}

/// The nodes of the tree in pre-order with their depths and member counts.
pub fn get_flat_nodes(tree: &OrgNode) -> (r: Vec<FlatNode>)
    requires
        height(tree@) <= usize::MAX,
    ensures
        flat_views(r@) == flatten(tree@, 0),
{
    let mut nodes: Vec<FlatNode> = Vec::new();
    walk(tree, 0, &mut nodes);
    assert(flat_views(nodes@) =~= Seq::<FlatNodeView>::empty() + flatten(tree@, 0));
    nodes
}

// ---- Laws of the tree operations ----

/// A search that finds nothing changes nothing, and it finds something exactly
/// where a node with that id exists.
pub proof fn lemma_update_first(n: OrgNodeView, id: Seq<char>, f: spec_fn(OrgNodeView) -> OrgNodeView)
    ensures
        update_first(n, id, f).1 == find_view(n, id) is Some,
        !update_first(n, id, f).1 ==> update_first(n, id, f).0 == n,
    decreases n,
{
    if n.id != id {
        lemma_update_first_in(n.children, id, f);
    }
}

/// An update that keeps ids leaves the updated node where a search finds it.
pub proof fn lemma_update_first_keeps_found(n: OrgNodeView, id: Seq<char>, f: spec_fn(OrgNodeView) -> OrgNodeView)
    requires
        update_first(n, id, f).1,
        forall|x: OrgNodeView| (#[trigger] f(x)).id == x.id,
    ensures
        find_view(update_first(n, id, f).0, id) is Some,
    decreases n,
{
    if n.id != id {
        lemma_update_first_in_keeps_found(n.children, id, f);
    }
}

/// [`lemma_update_first_keeps_found`] for a sequence of trees.
pub proof fn lemma_update_first_in_keeps_found(
    s: Seq<OrgNodeView>,
    id: Seq<char>,
    f: spec_fn(OrgNodeView) -> OrgNodeView,
)
    requires
        update_first_in(s, id, f).1,
        forall|x: OrgNodeView| (#[trigger] f(x)).id == x.id,
    ensures
        find_in(update_first_in(s, id, f).0, id) is Some,
    decreases s,
{
    let (h, found) = update_first(s[0], id, f);
    let r = update_first_in(s, id, f).0;
    if found {
        lemma_update_first_keeps_found(s[0], id, f);
        assert(r[0] == h);
    } else {
        lemma_update_first(s[0], id, f);
        lemma_update_first_in_keeps_found(s.drop_first(), id, f);
        assert(r[0] == s[0]);
        assert(r.drop_first() =~= update_first_in(s.drop_first(), id, f).0);
    }
}

/// [`lemma_update_first`] for a sequence of trees.
pub proof fn lemma_update_first_in(
    s: Seq<OrgNodeView>,
    id: Seq<char>,
    f: spec_fn(OrgNodeView) -> OrgNodeView,
)
    ensures
        update_first_in(s, id, f).1 == find_in(s, id) is Some,
        !update_first_in(s, id, f).1 ==> update_first_in(s, id, f).0 == s,
        update_first_in(s, id, f).0.len() == s.len(),
    decreases s,
{
    if s.len() > 0 {
        lemma_update_first(s[0], id, f);
        lemma_update_first_in(s.drop_first(), id, f);
        if !update_first(s[0], id, f).1 && !update_first_in(s.drop_first(), id, f).1 {
            assert(seq![s[0]] + s.drop_first() =~= s);
        }
    }
}

/// Once the first `i` trees hold no node with the id, the work starts at tree `i`.
pub proof fn lemma_update_first_in_skip(
    s: Seq<OrgNodeView>,
    id: Seq<char>,
    f: spec_fn(OrgNodeView) -> OrgNodeView,
    i: int,
)
    requires
        0 <= i <= s.len(),
        forall|j: int| 0 <= j < i ==> !(#[trigger] update_first(s[j], id, f)).1,
    ensures
        update_first_in(s, id, f).0 == s.take(i) + update_first_in(s.skip(i), id, f).0,
        update_first_in(s, id, f).1 == update_first_in(s.skip(i), id, f).1,
    decreases i,
{
    if i == 0 {
        assert(s.skip(0) =~= s);
        assert(s.take(0) + update_first_in(s, id, f).0 =~= update_first_in(s, id, f).0);
    } else {
        assert(!update_first(s[0], id, f).1);
        let t = s.drop_first();
        assert forall|j: int| 0 <= j < i - 1 implies !(#[trigger] update_first(t[j], id, f)).1 by {
            assert(t[j] == s[j + 1]);
        }
        lemma_update_first_in_skip(t, id, f, i - 1);
        assert(t.skip(i - 1) =~= s.skip(i));
        assert(s.take(i) =~= seq![s[0]] + t.take(i - 1));
        assert(seq![s[0]] + (t.take(i - 1) + update_first_in(s.skip(i), id, f).0) =~= s.take(i)
            + update_first_in(s.skip(i), id, f).0);
    }
}

/// Tree removal finds something exactly where a node other than the root has the id,
/// and a removal that finds nothing changes nothing.
pub proof fn lemma_remove_below(n: OrgNodeView, id: Seq<char>)
    ensures
        remove_below(n, id).1 == find_in(n.children, id) is Some,
        !remove_below(n, id).1 ==> remove_below(n, id).0 == n,
    decreases n,
{
    lemma_child_index_some(n.children, id);
    lemma_remove_below_in(n.children, id);
    lemma_find_in_split(n.children, id);
    if !remove_below(n, id).1 {
        assert(OrgNodeView { children: n.children, ..n } == n);
    }
}

/// [`lemma_remove_below`] for a sequence of trees.
pub proof fn lemma_remove_below_in(s: Seq<OrgNodeView>, id: Seq<char>)
    ensures
        remove_below_in(s, id).1 == subtrees_have_proper(s, id),
        !remove_below_in(s, id).1 ==> remove_below_in(s, id).0 == s,
    decreases s,
{
    if s.len() > 0 {
        lemma_remove_below(s[0], id);
        lemma_remove_below_in(s.drop_first(), id);
        if !remove_below(s[0], id).1 && !remove_below_in(s.drop_first(), id).1 {
            assert(seq![s[0]] + s.drop_first() =~= s);
        }
    }
}

/// Some tree of `s` has a node other than its root with the id.
pub open spec fn subtrees_have_proper(s: Seq<OrgNodeView>, id: Seq<char>) -> bool
    decreases s,
{
    if s.len() == 0 {
        false
    } else {
        find_in(s[0].children, id) is Some || subtrees_have_proper(s.drop_first(), id)
    }
}

/// A tree of `s` holds the id exactly where one of them has it at its root or below.
pub proof fn lemma_find_in_split(s: Seq<OrgNodeView>, id: Seq<char>)
    ensures
        (find_in(s, id) is Some) == ((exists|k: int| 0 <= k < s.len() && s[k].id == id)
            || subtrees_have_proper(s, id)),
    decreases s.len(),
{
    if s.len() > 0 {
        lemma_find_in_split(s.drop_first(), id);
        assert((find_in(s, id) is Some) == (find_view(s[0], id) is Some || find_in(s.drop_first(), id) is Some));
        assert((find_view(s[0], id) is Some) == (s[0].id == id || find_in(s[0].children, id) is Some));
        assert(subtrees_have_proper(s, id) == (find_in(s[0].children, id) is Some || subtrees_have_proper(s.drop_first(), id)));
        if exists|k: int| 0 <= k < s.drop_first().len() && s.drop_first()[k].id == id {
            let k = choose|k: int| 0 <= k < s.drop_first().len() && s.drop_first()[k].id == id;
            assert(s[k + 1].id == id);
        }
        if exists|k: int| 0 <= k < s.len() && s[k].id == id {
            let k = choose|k: int| 0 <= k < s.len() && s[k].id == id;
            if k > 0 {
                assert(s.drop_first()[k - 1].id == id);
            }
        }
    }
}

/// A direct child with the id exists exactly where [`child_index`] finds one.
pub proof fn lemma_child_index_some(s: Seq<OrgNodeView>, id: Seq<char>)
    ensures
        child_index(s, id) is Some <==> exists|k: int| 0 <= k < s.len() && s[k].id == id,
        child_index(s, id) matches Some(k) ==> 0 <= k < s.len() && s[k].id == id,
    decreases s.len(),
{
    if s.len() > 0 {
        lemma_child_index_some(s.drop_first(), id);
        if s[0].id != id {
            if exists|k: int| 0 <= k < s.len() && s[k].id == id {
                let k = choose|k: int| 0 <= k < s.len() && s[k].id == id;
                assert(s.drop_first()[k - 1].id == id);
            }
        }
    }
}

} // verus!
