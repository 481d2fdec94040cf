//! Collecting the matching text runs of a decoded document.
//!
//! A decoded document is a tree of nodes. A node has a `type` and a `data`
//! payload; the payload of a node of type `text` holds the literal `text`,
//! and the payload of any other node may hold `children`. The tree is walked
//! first in, first out: all children of a node are queued before any of
//! their own children is looked at, so the runs come out level by level.

use crate::error::SearchError;
use crate::json::{lemma_member_is_smaller, lemma_total_size_add, lemma_total_size_front, total_size, Json};
use crate::pattern::regex_matches;
use crate::text::{all_present, same_text, texts_of};
use regex::Regex;
use std::collections::VecDeque;
use vstd::prelude::*;
use vstd::string::*;

verus! {

/// Whether `node` is tagged as a text leaf.
pub open spec fn is_text_node(node: Json) -> bool {
    match node.member_of("type"@) {
        Some(kind) => kind.text_of() == Some("text"@),
        None => false,
    }
}

/// The member `key` of the payload of `node`.
pub open spec fn payload_of(node: Json, key: Seq<char>) -> Option<Json> {
    match node.member_of("data"@) {
        Some(data) => data.member_of(key),
        None => None,
    }
}

/// The literal text in the payload of `node`, when it holds one.
pub open spec fn leaf_text(node: Json) -> Option<Seq<char>> {
    match payload_of(node, "text"@) {
        Some(text) => text.text_of(),
        None => None,
    }
}

/// The children in the payload of `node`, in order; none when the payload
/// holds no list of children.
pub open spec fn children_of(node: Json) -> Seq<Json> {
    match payload_of(node, "children"@) {
        Some(children) => match children.items_of() {
            Some(items) => items,
            None => Seq::empty(),
        },
        None => Seq::empty(),
    }
}

/// The nodes the walk starts from: the children of the `document` member of
/// the root.
pub open spec fn top_level(root: Json) -> Seq<Json> {
    match root.member_of("document"@) {
        Some(document) => match document.member_of("children"@) {
            Some(children) => match children.items_of() {
                Some(items) => items,
                None => Seq::empty(),
            },
            None => Seq::empty(),
        },
        None => Seq::empty(),
    }
}

/// What the walk meets when it starts with `queue`: for every text leaf, in
/// the order the leaves are taken from the queue, its literal text, or `None`
/// where a leaf holds none. A node that is no text leaf is replaced by its
/// children, which join the queue at its back.
pub open spec fn visit(queue: Seq<Json>) -> Seq<Option<Seq<char>>>
    decreases total_size(queue),
    via visit_terminates
{
    if queue.len() == 0 {
        Seq::empty()
    } else if is_text_node(queue[0]) {
        seq![leaf_text(queue[0])] + visit(queue.drop_first())
    } else {
        visit(queue.drop_first() + children_of(queue[0]))
    }
}

#[via_fn]
proof fn visit_terminates(queue: Seq<Json>) {
    if queue.len() > 0 {
        lemma_total_size_front(queue);
        lemma_children_are_smaller(queue[0]);
        lemma_total_size_add(queue.drop_first(), children_of(queue[0]));
    }
}

/// The children of a node are, taken together, smaller than the node.
pub proof fn lemma_children_are_smaller(node: Json)
    ensures
        total_size(children_of(node)) < node.size(),
{
    assert(total_size(Seq::<Json>::empty()) == 0);
    lemma_member_is_smaller(node, "data"@);
    match node.member_of("data"@) {
        Some(data) => {
            lemma_member_is_smaller(data, "children"@);
        },
        None => {},
    }
}

/// The texts of all text leaves of a document, in walking order.
pub open spec fn leaf_texts(root: Json) -> Seq<Option<Seq<char>>> {
    visit(top_level(root))
}

/// Those texts of `visited` that `re` matches, in the same order.
pub open spec fn matching(visited: Seq<Option<Seq<char>>>, re: Regex) -> Seq<Seq<char>>
    decreases visited.len(),
{
    if visited.len() == 0 {
        Seq::empty()
    } else {
        let earlier = matching(visited.drop_last(), re);
        match visited.last() {
            Some(text) => if regex_matches(re, text) {
                earlier.push(text)
            } else {
                earlier
            },
            None => earlier,
        }
    }
}

/// Whether `re` matches every text of `runs`.
pub open spec fn all_match(runs: Seq<Seq<char>>, re: Regex) -> bool {
    forall|i: int| 0 <= i < runs.len() ==> regex_matches(re, #[trigger] runs[i])
}

/// Whether `runs` is what the walk of `tree` collects for `re`: the tree is
/// well formed, and `runs` holds the matching leaf texts in walking order.
pub open spec fn collected_from(tree: Json, re: Regex, runs: Seq<Seq<char>>) -> bool {
    all_present(leaf_texts(tree)) && runs == matching(leaf_texts(tree), re)
}

/// No text is collected that the pattern does not match.
pub proof fn lemma_matching_all_match(visited: Seq<Option<Seq<char>>>, re: Regex)
    ensures
        all_match(matching(visited, re), re),
    decreases visited.len(),
{
    if visited.len() > 0 {
        lemma_matching_all_match(visited.drop_last(), re);
    }
}

/// The leaf texts of the text nodes of `level`, in order.
pub open spec fn leaves_in(level: Seq<Json>) -> Seq<Option<Seq<char>>>
    decreases level.len(),
{
    if level.len() == 0 {
        Seq::empty()
    } else if is_text_node(level[0]) {
        seq![leaf_text(level[0])] + leaves_in(level.drop_first())
    } else {
        leaves_in(level.drop_first())
    }
}

/// The children of the nodes of `level` that are no text nodes, in order.
pub open spec fn next_level(level: Seq<Json>) -> Seq<Json>
    decreases level.len(),
{
    if level.len() == 0 {
        Seq::empty()
    } else if is_text_node(level[0]) {
        next_level(level.drop_first())
    } else {
        children_of(level[0]) + next_level(level.drop_first())
    }
}

/// The walk deals with all of `level` before it looks at anything that was
/// queued behind it, and the children of `level` come after what was queued.
pub proof fn lemma_walk_takes_front_first(level: Seq<Json>, behind: Seq<Json>)
    ensures
        visit(level + behind) == leaves_in(level) + visit(behind + next_level(level)),
    decreases level.len(),
{
    if level.len() == 0 {
        assert(level + behind =~= behind);
        assert(behind + next_level(level) =~= behind);
        assert(leaves_in(level) + visit(behind) =~= visit(behind));
    } else {
        let queue = level + behind;
        let rest = level.drop_first();
        assert(queue[0] == level[0]);
        assert(queue.drop_first() =~= rest + behind);
        if is_text_node(level[0]) {
            lemma_walk_takes_front_first(rest, behind);
            assert(visit(queue) =~= leaves_in(level) + visit(behind + next_level(level)));
        } else {
            let children = children_of(level[0]);
            lemma_walk_takes_front_first(rest, behind + children);
            assert(queue.drop_first() + children =~= rest + (behind + children));
            assert((behind + children) + next_level(rest) =~= behind + next_level(level));
        }
    }
}

/// The walk is breadth first: the leaf texts of one level all come before
/// those of the level below it. Of two siblings, the texts they hold
/// themselves come first, then those of their children.
pub proof fn lemma_walk_is_level_by_level(level: Seq<Json>)
    ensures
        visit(level) == leaves_in(level) + visit(next_level(level)),
{
    lemma_walk_takes_front_first(level, Seq::empty());
    assert(level + Seq::<Json>::empty() =~= level);
    assert(Seq::<Json>::empty() + next_level(level) =~= next_level(level));
}

/// Collecting the runs of the same document for the same pattern again gives
/// the same runs in the same order.
pub proof fn lemma_collection_repeats(
    tree: Json,
    re: Regex,
    first: Seq<Seq<char>>,
    second: Seq<Seq<char>>,
)
    requires
        collected_from(tree, re, first),
        collected_from(tree, re, second),
    ensures
        first == second,
{
}

/// The nodes behind a list of references.
pub open spec fn nodes_of(queue: Seq<&Json>) -> Seq<Json> {
    Seq::new(queue.len(), |i: int| *queue[i])
}

fn node_is_text(node: &Json) -> (is_text: bool)
    ensures
        is_text == is_text_node(*node),
{
    match node.member("type") {
        Some(kind) => match kind.text() {
            Some(tag) => same_text(tag, "text"),
            None => false,
        },
        None => false,
    }
}

fn node_payload<'a>(node: &'a Json, key: &str) -> (found: Option<&'a Json>)
    ensures
        found matches Some(m) ==> payload_of(*node, key@) == Some(*m),
        found is None ==> payload_of(*node, key@) is None,
{
    match node.member("data") {
        Some(data) => data.member(key),
        None => None,
    }
}

fn node_text<'a>(node: &'a Json) -> (found: Option<&'a str>)
    ensures
        found matches Some(s) ==> leaf_text(*node) == Some(s@),
        found is None ==> leaf_text(*node) is None,
{
    match node_payload(node, "text") {
        Some(text) => text.text(),
        None => None,
    }
}

/// Queues the elements of `listing`, when it is an array, behind `queue`.
fn enqueue_items<'a>(queue: &mut VecDeque<&'a Json>, listing: Option<&'a Json>)
    ensures
        nodes_of(final(queue)@) == nodes_of(old(queue)@) + match listing {
            Some(value) => match value.items_of() {
                Some(items) => items,
                None => Seq::empty(),
            },
            None => Seq::empty(),
        },
{
    let ghost before = nodes_of(queue@);
    match listing {
        Some(value) => match value.items() {
            Some(items) => {
                let mut k: usize = 0;
                while k < items.len()
                    invariant
                        k <= items.len(),
                        nodes_of(queue@) == before + items@.take(k as int),
                    decreases items.len() - k,
                {
                    let ghost queued = queue@;
                    queue.push_back(&items[k]);
                    assert(nodes_of(queue@) =~= nodes_of(queued).push(items@[k as int]));
                    assert(items@.take(k + 1) =~= items@.take(k as int).push(items@[k as int]));
                    assert(nodes_of(queue@) =~= before + items@.take(k + 1));
                    k = k + 1;
                }
                assert(items@.take(k as int) =~= items@);
            },
            None => {
                assert(before + Seq::<Json>::empty() =~= before);
            },
        },
        None => {
            assert(before + Seq::<Json>::empty() =~= before);
        },
    }
}

/// Collects the text runs of the document `root` that `search_re` matches,
/// in walking order.
///
/// The walk starts from the children of the document and is first in, first
/// out. A text leaf is tested against the pattern and its exact text is kept
/// when it matches; any other node has its children queued. A text leaf
/// without literal text means the document is malformed: the result is then
/// a `Decode` failure.
pub fn xtract_text_from_doctree(root: &Json, search_re: &Regex) -> (res: Result<
    Vec<String>,
    SearchError,
>)
    ensures
        match res {
            Ok(runs) => collected_from(*root, *search_re, texts_of(runs@)),
            Err(e) => e is Decode && !all_present(leaf_texts(*root)),
        },
        res matches Ok(runs) ==> all_match(texts_of(runs@), *search_re),
{
    let mut queue: VecDeque<&Json> = VecDeque::new();
    let mut matching_runs: Vec<String> = Vec::new();
    let ghost mut visited: Seq<Option<Seq<char>>> = Seq::empty();
    let listing = match root.member("document") {
        Some(document) => document.member("children"),
        None => None,
    };
    assert(nodes_of(queue@) =~= Seq::<Json>::empty());
    enqueue_items(&mut queue, listing);
    assert(nodes_of(queue@) =~= top_level(*root));
    assert(visited + visit(nodes_of(queue@)) =~= leaf_texts(*root));
    while queue.len() > 0
        invariant
            visited + visit(nodes_of(queue@)) == leaf_texts(*root),
            all_present(visited),
            texts_of(matching_runs@) == matching(visited, *search_re),
        decreases total_size(nodes_of(queue@)),
    {
        let ghost waiting = nodes_of(queue@);
        let node = queue.pop_front().unwrap();
        proof {
            assert(nodes_of(queue@) =~= waiting.drop_first());
            assert(*node == waiting[0]);
            lemma_total_size_front(waiting);
        }
        if node_is_text(node) {
            match node_text(node) {
                Some(text) => {
                    let ghost earlier = visited;
                    if search_re.is_match(text) {
                        matching_runs.push(text.to_owned());
                    }
                    proof {
                        visited = earlier.push(Some(text@));
                        assert(visited.drop_last() =~= earlier);
                        assert(texts_of(matching_runs@) =~= matching(visited, *search_re));
                        assert(visited + visit(nodes_of(queue@)) =~= earlier + visit(waiting));
                    }
                },
                None => {
                    proof {
                        let all = leaf_texts(*root);
                        assert(all =~= visited + visit(waiting));
                        assert(all[visited.len() as int] is None);
                    }
                    return Err(
                        SearchError::Decode("a text node holds no literal text".to_owned()),
                    );
                },
            }
        } else {
            let listing = node_payload(node, "children");
            enqueue_items(&mut queue, listing);
            proof {
                lemma_children_are_smaller(*node);
                lemma_total_size_add(waiting.drop_first(), children_of(*node));
            }
        }
    }
    proof {
        assert(nodes_of(queue@) =~= Seq::<Json>::empty());
        assert(visited + Seq::<Option<Seq<char>>>::empty() =~= visited);
        lemma_matching_all_match(visited, *search_re);
    }
    Ok(matching_runs)
}

} // verus!
