//! A prefix tree over ASCII-case-folded characters. Each node holds the
//! words, as they were written, whose folded spelling leads to it. A search
//! walks down the folded prefix and gathers words from the subtree below.
use crate::text::{lower, lowercase_chars, texts};
use vstd::prelude::*;
use vstd::string::StringExecFns;

verus! {

/// The words among `words` that begin with `prefix`, letters compared
/// without regard to ASCII case.
pub open spec fn matching(words: Set<Seq<char>>, prefix: Seq<char>) -> Set<Seq<char>> {
    with_prefix(words, lower(prefix))
}

/// The words among `words` whose folded spelling begins with `folded`.
pub open spec fn with_prefix(words: Set<Seq<char>>, folded: Seq<char>) -> Set<Seq<char>> {
    words.filter(|w: Seq<char>| folded.is_prefix_of(lower(w)))
}

/// Whether `result` is a selection of at most `limit` words from `from`:
/// each word of it is in `from`, none occurs twice, and it holds `limit`
/// words, or all of `from` where that has fewer.
pub open spec fn is_selection(result: Seq<Seq<char>>, from: Set<Seq<char>>, limit: nat) -> bool {
    &&& result.no_duplicates()
    &&& forall|i: int| 0 <= i < result.len() ==> from.contains(#[trigger] result[i])
    &&& result.len() == if limit <= from.len() {
        limit
    } else {
        from.len()
    }
}

/// A selection never holds more words than the limit, nor more than there
/// are to select from.
pub proof fn lemma_selection_is_bounded(result: Seq<Seq<char>>, from: Set<Seq<char>>, limit: nat)
    requires
        is_selection(result, from, limit),
    ensures
        result.len() <= limit,
        result.len() <= from.len(),
{
}

/// Searching is case-insensitive: two prefixes that differ only in the case
/// of ASCII letters select from the same words.
pub proof fn lemma_search_ignores_prefix_case(
    words: Set<Seq<char>>,
    prefix: Seq<char>,
    other: Seq<char>,
)
    requires
        lower(prefix) == lower(other),
    ensures
        matching(words, prefix) == matching(words, other),
{
}

/// Whether a word matches a prefix depends on neither's case: a word that
/// is stored matches every prefix whose folded spelling begins its own.
pub proof fn lemma_match_ignores_word_case(
    words: Set<Seq<char>>,
    prefix: Seq<char>,
    word: Seq<char>,
)
    requires
        words.contains(word),
    ensures
        matching(words, prefix).contains(word) <==> lower(prefix).is_prefix_of(lower(word)),
{
}

/// Inserting is idempotent: a word inserted twice is held once.
pub proof fn lemma_insert_is_idempotent(words: Set<Seq<char>>, word: Seq<char>)
    ensures
        words.insert(word).insert(word) == words.insert(word),
        forall|prefix: Seq<char>|
            matching(words.insert(word).insert(word), prefix) == #[trigger] matching(
                words.insert(word),
                prefix,
            ),
{
    assert(words.insert(word).insert(word) =~= words.insert(word));
}

struct TrieNode {
    /// The characters that lead on from here, each with the index of the
    /// node it leads to.
    children: Vec<(char, usize)>,
    /// The words that end here, as they were inserted.
    original_words: Vec<String>,
    /// The folded characters that lead from the root to this node.
    path: Ghost<Seq<char>>,
}

impl TrieNode {
    fn new(Ghost(path): Ghost<Seq<char>>) -> (node: Self)
        ensures
            node.children@.len() == 0,
            node.original_words@.len() == 0,
            node.path@ == path,
    {
        TrieNode { children: Vec::new(), original_words: Vec::new(), path: Ghost(path) }
    }
}

spec fn path_of(nodes: Seq<TrieNode>, i: int) -> Seq<char> {
    nodes[i].path@
}

spec fn edge(nodes: Seq<TrieNode>, i: int, k: int) -> bool {
    0 <= i < nodes.len() && 0 <= k < nodes[i].children@.len()
}

spec fn key_of(nodes: Seq<TrieNode>, i: int, k: int) -> char {
    nodes[i].children@[k].0
}

spec fn child_of(nodes: Seq<TrieNode>, i: int, k: int) -> int {
    nodes[i].children@[k].1 as int
}

spec fn stored(nodes: Seq<TrieNode>, i: int, j: int) -> bool {
    0 <= i < nodes.len() && 0 <= j < nodes[i].original_words@.len()
}

spec fn word_at(nodes: Seq<TrieNode>, i: int, j: int) -> Seq<char> {
    nodes[i].original_words@[j]@
}

spec fn has_parent(nodes: Seq<TrieNode>, j: int) -> bool {
    exists|i: int, k: int| #[trigger] edge(nodes, i, k) && child_of(nodes, i, k) == j
}

spec fn holds(nodes: Seq<TrieNode>, w: Seq<char>) -> bool {
    exists|i: int, j: int| #[trigger] stored(nodes, i, j) && word_at(nodes, i, j) == w
}

/// The shape of the tree: node 0 is the root; every edge leads to a later
/// node whose path is one character longer; a node's keys differ; a word is
/// stored once, at the node its folded spelling leads to; no two nodes have
/// the same path; and every node but the root hangs on an edge.
spec fn wf_nodes(nodes: Seq<TrieNode>) -> bool {
    &&& nodes.len() >= 1
    &&& path_of(nodes, 0) == Seq::<char>::empty()
    &&& forall|i: int, k: int| #[trigger]
        edge(nodes, i, k) ==> i < child_of(nodes, i, k) < nodes.len() && path_of(
            nodes,
            child_of(nodes, i, k),
        ) == path_of(nodes, i).push(key_of(nodes, i, k))
    &&& forall|i: int, k1: int, k2: int|
        #[trigger] edge(nodes, i, k1) && #[trigger] edge(nodes, i, k2) && k1 != k2 ==> key_of(
            nodes,
            i,
            k1,
        ) != key_of(nodes, i, k2)
    &&& forall|i: int, j: int| #[trigger]
        stored(nodes, i, j) ==> lower(word_at(nodes, i, j)) == path_of(nodes, i)
    &&& forall|i: int, j1: int, j2: int|
        #[trigger] stored(nodes, i, j1) && #[trigger] stored(nodes, i, j2) && j1 != j2
            ==> word_at(nodes, i, j1) != word_at(nodes, i, j2)
    &&& forall|i: int, j: int|
        #![trigger path_of(nodes, i), path_of(nodes, j)]
        0 <= i < nodes.len() && 0 <= j < nodes.len() && i != j ==> path_of(nodes, i) != path_of(
            nodes,
            j,
        )
    &&& forall|j: int| 1 <= j < nodes.len() ==> #[trigger] has_parent(nodes, j)
}

/// `words` is finite and holds exactly what the nodes store.
spec fn wf_words(nodes: Seq<TrieNode>, words: Set<Seq<char>>) -> bool {
    &&& words.finite()
    &&& forall|w: Seq<char>|
        #![trigger words.contains(w)]
        #![trigger holds(nodes, w)]
        words.contains(w) <==> holds(nodes, w)
}

/// Every prefix of a node's path is the path of some node.
proof fn lemma_ancestor(nodes: Seq<TrieNode>, j: int, m: int) -> (a: int)
    requires
        wf_nodes(nodes),
        0 <= j < nodes.len(),
        0 <= m <= path_of(nodes, j).len(),
    ensures
        0 <= a < nodes.len(),
        path_of(nodes, a) == path_of(nodes, j).take(m),
    decreases j,
{
    if m == path_of(nodes, j).len() {
        assert(path_of(nodes, j).take(m) == path_of(nodes, j));
        j
    } else {
        assert(has_parent(nodes, j));
        let (i, k) = choose|i: int, k: int| #[trigger]
            edge(nodes, i, k) && child_of(nodes, i, k) == j;
        let a = lemma_ancestor(nodes, i, m);
        assert(path_of(nodes, i).take(m) == path_of(nodes, j).take(m));
        a
    }
}

/// Where a node's path is a proper prefix of another node's path, the first
/// node has an edge for the next character of that path.
proof fn lemma_descend(nodes: Seq<TrieNode>, n: int, j: int) -> (k: int)
    requires
        wf_nodes(nodes),
        0 <= n < nodes.len(),
        0 <= j < nodes.len(),
        path_of(nodes, n).is_prefix_of(path_of(nodes, j)),
        path_of(nodes, n).len() < path_of(nodes, j).len(),
    ensures
        edge(nodes, n, k),
        key_of(nodes, n, k) == path_of(nodes, j)[path_of(nodes, n).len() as int],
        path_of(nodes, child_of(nodes, n, k)).is_prefix_of(path_of(nodes, j)),
{
    let q = path_of(nodes, j);
    let m: int = path_of(nodes, n).len() as int + 1;
    let a = lemma_ancestor(nodes, j, m);
    assert(path_of(nodes, a).len() == m);
    assert(a != 0);
    assert(has_parent(nodes, a));
    let (i, k) = choose|i: int, k: int| #[trigger]
        edge(nodes, i, k) && child_of(nodes, i, k) == a;
    assert(path_of(nodes, i) == q.take(m).drop_last());
    assert(q.take(m).drop_last() == path_of(nodes, n));
    assert(q.take(m).last() == key_of(nodes, i, k));
    assert(q.take(m).is_prefix_of(q));
    k
}

/// Hanging a fresh leaf on node `n`, under a character that `n` has no edge
/// for, keeps the tree well formed and stores nothing new.
proof fn lemma_add_child(old_nodes: Seq<TrieNode>, new_nodes: Seq<TrieNode>, n: int, c: char)
    requires
        wf_nodes(old_nodes),
        0 <= n < old_nodes.len(),
        old_nodes.len() <= usize::MAX,
        forall|k: int| #[trigger] edge(old_nodes, n, k) ==> key_of(old_nodes, n, k) != c,
        new_nodes.len() == old_nodes.len() + 1,
        forall|i: int| 0 <= i < old_nodes.len() && i != n ==> new_nodes[i] == old_nodes[i],
        new_nodes[n].children@ == old_nodes[n].children@.push((c, old_nodes.len() as usize)),
        new_nodes[n].original_words == old_nodes[n].original_words,
        new_nodes[n].path == old_nodes[n].path,
        new_nodes[old_nodes.len() as int].children@.len() == 0,
        new_nodes[old_nodes.len() as int].original_words@.len() == 0,
        new_nodes[old_nodes.len() as int].path@ == old_nodes[n].path@.push(c),
    ensures
        wf_nodes(new_nodes),
        forall|w: Seq<char>| holds(new_nodes, w) <==> holds(old_nodes, w),
{
    let t = old_nodes.len() as int;
    let fresh = path_of(old_nodes, n).push(c);
    assert forall|i: int| 0 <= i < t implies path_of(new_nodes, i) == path_of(old_nodes, i) by {}
    assert forall|i: int, k: int| #[trigger] edge(new_nodes, i, k) implies i < child_of(
        new_nodes,
        i,
        k,
    ) < new_nodes.len() && path_of(new_nodes, child_of(new_nodes, i, k)) == path_of(
        new_nodes,
        i,
    ).push(key_of(new_nodes, i, k)) by {
        if i == n && k == old_nodes[n].children@.len() {
        } else {
            assert(edge(old_nodes, i, k));
        }
    }
    assert forall|i: int, k1: int, k2: int|
        #[trigger] edge(new_nodes, i, k1) && #[trigger] edge(new_nodes, i, k2) && k1
            != k2 implies key_of(new_nodes, i, k1) != key_of(new_nodes, i, k2) by {
        let last = old_nodes[n].children@.len() as int;
        if i == n && k1 == last {
            assert(edge(old_nodes, i, k2));
        } else if i == n && k2 == last {
            assert(edge(old_nodes, i, k1));
        } else {
            assert(edge(old_nodes, i, k1) && edge(old_nodes, i, k2));
        }
    }
    assert forall|i: int, j: int| #[trigger] stored(new_nodes, i, j) implies lower(
        word_at(new_nodes, i, j),
    ) == path_of(new_nodes, i) by {
        assert(stored(old_nodes, i, j));
    }
    assert forall|i: int, j1: int, j2: int|
        #[trigger] stored(new_nodes, i, j1) && #[trigger] stored(new_nodes, i, j2) && j1
            != j2 implies word_at(new_nodes, i, j1) != word_at(new_nodes, i, j2) by {
        assert(stored(old_nodes, i, j1) && stored(old_nodes, i, j2));
    }
    assert forall|i: int| 0 <= i < t implies path_of(old_nodes, i) != fresh by {
        if path_of(old_nodes, i) == fresh {
            assert(fresh.len() > 0);
            assert(has_parent(old_nodes, i));
            let (p, k) = choose|p: int, k: int| #[trigger]
                edge(old_nodes, p, k) && child_of(old_nodes, p, k) == i;
            assert(path_of(old_nodes, p) == fresh.drop_last());
            assert(fresh.drop_last() == path_of(old_nodes, n));
            assert(key_of(old_nodes, p, k) == fresh.last());
            assert(path_of(old_nodes, p) == path_of(old_nodes, n));
            assert(p == n);
        }
    }
    assert forall|i: int, j: int|
        #![trigger path_of(new_nodes, i), path_of(new_nodes, j)]
        0 <= i < new_nodes.len() && 0 <= j < new_nodes.len() && i != j implies path_of(
            new_nodes,
            i,
        ) != path_of(new_nodes, j) by {
        if i < t && j < t {
            assert(path_of(old_nodes, i) != path_of(old_nodes, j));
        }
    }
    assert forall|j: int| 1 <= j < new_nodes.len() implies #[trigger] has_parent(
        new_nodes,
        j,
    ) by {
        if j == t {
            let last = old_nodes[n].children@.len() as int;
            assert(edge(new_nodes, n, last) && child_of(new_nodes, n, last) == j);
        } else {
            assert(has_parent(old_nodes, j));
            let (p, k) = choose|p: int, k: int| #[trigger]
                edge(old_nodes, p, k) && child_of(old_nodes, p, k) == j;
            assert(edge(new_nodes, p, k) && child_of(new_nodes, p, k) == j);
        }
    }
    assert forall|w: Seq<char>| holds(new_nodes, w) <==> holds(old_nodes, w) by {
        if holds(new_nodes, w) {
            let (i, j) = choose|i: int, j: int| #[trigger]
                stored(new_nodes, i, j) && word_at(new_nodes, i, j) == w;
            assert(stored(old_nodes, i, j) && word_at(old_nodes, i, j) == w);
        }
        if holds(old_nodes, w) {
            let (i, j) = choose|i: int, j: int| #[trigger]
                stored(old_nodes, i, j) && word_at(old_nodes, i, j) == w;
            assert(stored(new_nodes, i, j) && word_at(new_nodes, i, j) == w);
        }
    }
}

/// Storing a word that node `n` does not hold yet, and whose folded spelling
/// is the path of `n`, keeps the tree well formed and adds that word alone.
proof fn lemma_add_word(
    old_nodes: Seq<TrieNode>,
    new_nodes: Seq<TrieNode>,
    n: int,
    word: Seq<char>,
)
    requires
        wf_nodes(old_nodes),
        0 <= n < old_nodes.len(),
        lower(word) == path_of(old_nodes, n),
        forall|j: int| #[trigger] stored(old_nodes, n, j) ==> word_at(old_nodes, n, j) != word,
        new_nodes.len() == old_nodes.len(),
        forall|i: int| 0 <= i < old_nodes.len() && i != n ==> new_nodes[i] == old_nodes[i],
        new_nodes[n].children == old_nodes[n].children,
        new_nodes[n].path == old_nodes[n].path,
        new_nodes[n].original_words@.len() == old_nodes[n].original_words@.len() + 1,
        forall|j: int|
            0 <= j < old_nodes[n].original_words@.len() ==> new_nodes[n].original_words@[j]
                == old_nodes[n].original_words@[j],
        new_nodes[n].original_words@.last()@ == word,
    ensures
        wf_nodes(new_nodes),
        forall|w: Seq<char>| holds(new_nodes, w) <==> (w == word || holds(old_nodes, w)),
{
    let last = old_nodes[n].original_words@.len() as int;
    assert forall|i: int| 0 <= i < old_nodes.len() implies path_of(new_nodes, i) == path_of(
        old_nodes,
        i,
    ) by {}
    assert forall|i: int, k: int| #[trigger] edge(new_nodes, i, k) implies i < child_of(
        new_nodes,
        i,
        k,
    ) < new_nodes.len() && path_of(new_nodes, child_of(new_nodes, i, k)) == path_of(
        new_nodes,
        i,
    ).push(key_of(new_nodes, i, k)) by {
        assert(edge(old_nodes, i, k));
    }
    assert forall|i: int, k1: int, k2: int|
        #[trigger] edge(new_nodes, i, k1) && #[trigger] edge(new_nodes, i, k2) && k1
            != k2 implies key_of(new_nodes, i, k1) != key_of(new_nodes, i, k2) by {
        assert(edge(old_nodes, i, k1) && edge(old_nodes, i, k2));
    }
    assert forall|i: int, j: int| #[trigger] stored(new_nodes, i, j) implies lower(
        word_at(new_nodes, i, j),
    ) == path_of(new_nodes, i) by {
        if !(i == n && j == last) {
            assert(stored(old_nodes, i, j));
        }
    }
    assert forall|i: int, j1: int, j2: int|
        #[trigger] stored(new_nodes, i, j1) && #[trigger] stored(new_nodes, i, j2) && j1
            != j2 implies word_at(new_nodes, i, j1) != word_at(new_nodes, i, j2) by {
        if i == n && j1 == last {
            assert(stored(old_nodes, i, j2));
        } else if i == n && j2 == last {
            assert(stored(old_nodes, i, j1));
        } else {
            assert(stored(old_nodes, i, j1) && stored(old_nodes, i, j2));
        }
    }
    assert forall|i: int, j: int|
        #![trigger path_of(new_nodes, i), path_of(new_nodes, j)]
        0 <= i < new_nodes.len() && 0 <= j < new_nodes.len() && i != j implies path_of(
            new_nodes,
            i,
        ) != path_of(new_nodes, j) by {
        assert(path_of(old_nodes, i) != path_of(old_nodes, j));
    }
    assert forall|j: int| 1 <= j < new_nodes.len() implies #[trigger] has_parent(
        new_nodes,
        j,
    ) by {
        assert(has_parent(old_nodes, j));
        let (p, k) = choose|p: int, k: int| #[trigger]
            edge(old_nodes, p, k) && child_of(old_nodes, p, k) == j;
        assert(edge(new_nodes, p, k) && child_of(new_nodes, p, k) == j);
    }
    assert forall|w: Seq<char>| holds(new_nodes, w) <==> (w == word || holds(
        old_nodes,
        w,
    )) by {
        if holds(new_nodes, w) {
            let (i, j) = choose|i: int, j: int| #[trigger]
                stored(new_nodes, i, j) && word_at(new_nodes, i, j) == w;
            if !(i == n && j == last) {
                assert(stored(old_nodes, i, j) && word_at(old_nodes, i, j) == w);
            }
        }
        if holds(old_nodes, w) {
            let (i, j) = choose|i: int, j: int| #[trigger]
                stored(old_nodes, i, j) && word_at(old_nodes, i, j) == w;
            assert(stored(new_nodes, i, j) && word_at(new_nodes, i, j) == w);
        }
        if w == word {
            assert(stored(new_nodes, n, last) && word_at(new_nodes, n, last) == w);
        }
    }
}

/// Node `a` lies on the way from the root to node `b`, or is `b`.
spec fn below(nodes: Seq<TrieNode>, a: int, b: int) -> bool {
    path_of(nodes, a).is_prefix_of(path_of(nodes, b))
}

/// The nodes that a child list leads to, in order.
spec fn targets(children: Seq<(char, usize)>) -> Seq<usize> {
    children.map_values(|e: (char, usize)| e.1)
}

/// Every node on the stack lies below `start`, and no node on it lies below
/// another one.
spec fn stack_ok(nodes: Seq<TrieNode>, stack: Seq<usize>, start: int) -> bool {
    &&& forall|s: int|
        0 <= s < stack.len() ==> (#[trigger] stack[s]) < nodes.len() && below(
            nodes,
            start,
            stack[s] as int,
        )
    &&& forall|s1: int, s2: int|
        0 <= s1 < stack.len() && 0 <= s2 < stack.len() && s1 != s2 ==> !below(
            nodes,
            #[trigger] stack[s1] as int,
            #[trigger] stack[s2] as int,
        )
}

/// Node `j` is still to be visited: it lies below a node on the stack.
spec fn pending(nodes: Seq<TrieNode>, stack: Seq<usize>, j: int) -> bool {
    exists|s: int| 0 <= s < stack.len() && below(nodes, #[trigger] stack[s] as int, j)
}

/// Every node below `start` is either visited or pending, never both.
spec fn cover_ok(nodes: Seq<TrieNode>, stack: Seq<usize>, visited: Set<int>, start: int) -> bool {
    &&& visited.finite()
    &&& forall|v: int| #[trigger]
        visited.contains(v) ==> 0 <= v < nodes.len() && below(nodes, start, v) && !pending(
            nodes,
            stack,
            v,
        )
    &&& forall|j: int|
        0 <= j < nodes.len() && #[trigger] below(nodes, start, j) ==> visited.contains(j)
            || pending(nodes, stack, j)
}

/// Word `jj` of node `v` has been gathered: `v` is visited, or `v` is the
/// node in progress and `jj` is among its first `done` words.
spec fn taken(
    nodes: Seq<TrieNode>,
    visited: Set<int>,
    node: int,
    done: int,
    v: int,
    jj: int,
) -> bool {
    stored(nodes, v, jj) && (visited.contains(v) || (v == node && jj < done))
}

spec fn from_taken(
    nodes: Seq<TrieNode>,
    visited: Set<int>,
    node: int,
    done: int,
    w: Seq<char>,
) -> bool {
    exists|v: int, jj: int| #[trigger]
        taken(nodes, visited, node, done, v, jj) && word_at(nodes, v, jj) == w
}

/// `found` holds the gathered words, each once.
spec fn found_ok(
    nodes: Seq<TrieNode>,
    found: Seq<Seq<char>>,
    visited: Set<int>,
    node: int,
    done: int,
) -> bool {
    &&& found.no_duplicates()
    &&& forall|p: int|
        0 <= p < found.len() ==> from_taken(nodes, visited, node, done, #[trigger] found[p])
    &&& forall|v: int, jj: int| #[trigger]
        taken(nodes, visited, node, done, v, jj) ==> found.contains(word_at(nodes, v, jj))
}

proof fn lemma_prefix_of_push(a: Seq<char>, b: Seq<char>, x: char)
    requires
        a.is_prefix_of(b.push(x)),
    ensures
        a.is_prefix_of(b) || a == b.push(x),
{
    if a.len() <= b.len() {
        assert(a =~= b.subrange(0, a.len() as int));
    } else {
        assert(a =~= b.push(x));
    }
}

proof fn lemma_prefix_transitive(a: Seq<char>, b: Seq<char>, c: Seq<char>)
    requires
        a.is_prefix_of(b),
        b.is_prefix_of(c),
    ensures
        a.is_prefix_of(c),
{
    assert(a =~= c.subrange(0, a.len() as int));
}

/// While no word of a node has been gathered, it does not matter which node
/// is in progress.
proof fn lemma_retag(
    nodes: Seq<TrieNode>,
    found: Seq<Seq<char>>,
    visited: Set<int>,
    a: int,
    b: int,
)
    requires
        found_ok(nodes, found, visited, a, 0),
    ensures
        found_ok(nodes, found, visited, b, 0),
{
    assert forall|p: int| 0 <= p < found.len() implies from_taken(
        nodes,
        visited,
        b,
        0,
        #[trigger] found[p],
    ) by {
        assert(from_taken(nodes, visited, a, 0, found[p]));
        let (v, jj) = choose|v: int, jj: int| #[trigger]
            taken(nodes, visited, a, 0, v, jj) && word_at(nodes, v, jj) == found[p];
        assert(taken(nodes, visited, b, 0, v, jj));
    }
    assert forall|v: int, jj: int| #[trigger]
        taken(nodes, visited, b, 0, v, jj) implies found.contains(word_at(nodes, v, jj)) by {
        assert(taken(nodes, visited, a, 0, v, jj));
    }
}

/// Gathering the next word of the node in progress.
proof fn lemma_take_word(
    nodes: Seq<TrieNode>,
    found: Seq<Seq<char>>,
    visited: Set<int>,
    node: int,
    done: int,
)
    requires
        wf_nodes(nodes),
        found_ok(nodes, found, visited, node, done),
        stored(nodes, node, done),
        !visited.contains(node),
        forall|v: int| visited.contains(v) ==> 0 <= v < nodes.len(),
    ensures
        found_ok(nodes, found.push(word_at(nodes, node, done)), visited, node, done + 1),
{
    let w = word_at(nodes, node, done);
    let next = found.push(w);
    assert forall|p: int| 0 <= p < found.len() implies found[p] != w by {
        assert(from_taken(nodes, visited, node, done, found[p]));
        let (v, jj) = choose|v: int, jj: int| #[trigger]
            taken(nodes, visited, node, done, v, jj) && word_at(nodes, v, jj) == found[p];
        assert(stored(nodes, v, jj));
        if found[p] == w {
            if v == node {
                assert(jj != done);
            } else {
                assert(path_of(nodes, v) == path_of(nodes, node));
            }
        }
    }
    assert(next.no_duplicates());
    assert forall|p: int| 0 <= p < next.len() implies from_taken(
        nodes,
        visited,
        node,
        done + 1,
        #[trigger] next[p],
    ) by {
        if p < found.len() {
            assert(from_taken(nodes, visited, node, done, found[p]));
            let (v, jj) = choose|v: int, jj: int| #[trigger]
                taken(nodes, visited, node, done, v, jj) && word_at(nodes, v, jj) == found[p];
            assert(taken(nodes, visited, node, done + 1, v, jj));
        } else {
            assert(taken(nodes, visited, node, done + 1, node, done));
        }
    }
    assert forall|v: int, jj: int| #[trigger]
        taken(nodes, visited, node, done + 1, v, jj) implies next.contains(
        word_at(nodes, v, jj),
    ) by {
        if v == node && jj == done && !visited.contains(v) {
            assert(next[found.len() as int] == w);
        } else {
            assert(taken(nodes, visited, node, done, v, jj));
            let p = choose|p: int| 0 <= p < found.len() && found[p] == word_at(nodes, v, jj);
            assert(next[p] == word_at(nodes, v, jj));
        }
    }
}

/// What has been gathered below `start` is part of what is stored there.
proof fn lemma_collected_some(
    nodes: Seq<TrieNode>,
    words: Set<Seq<char>>,
    found: Seq<Seq<char>>,
    visited: Set<int>,
    node: int,
    done: int,
    start: int,
)
    requires
        wf_nodes(nodes),
        wf_words(nodes, words),
        0 <= node < nodes.len(),
        below(nodes, start, node),
        forall|v: int| visited.contains(v) ==> 0 <= v < nodes.len() && below(nodes, start, v),
        found_ok(nodes, found, visited, node, done),
    ensures
        forall|p: int|
            0 <= p < found.len() ==> with_prefix(words, path_of(nodes, start)).contains(
                #[trigger] found[p],
            ),
        with_prefix(words, path_of(nodes, start)).finite(),
        found.len() <= with_prefix(words, path_of(nodes, start)).len(),
{
    let root = path_of(nodes, start);
    let target = with_prefix(words, root);
    words.lemma_len_filter(|w: Seq<char>| root.is_prefix_of(lower(w)));
    assert forall|p: int| 0 <= p < found.len() implies target.contains(#[trigger] found[p]) by {
        assert(from_taken(nodes, visited, node, done, found[p]));
        let (v, jj) = choose|v: int, jj: int| #[trigger]
            taken(nodes, visited, node, done, v, jj) && word_at(nodes, v, jj) == found[p];
        assert(stored(nodes, v, jj));
        assert(holds(nodes, found[p]));
        assert(below(nodes, start, v));
    }
    found.unique_seq_to_set();
    assert(found.to_set().subset_of(target)) by {
        assert forall|w: Seq<char>| found.to_set().contains(w) implies target.contains(w) by {
            let p = choose|p: int| 0 <= p < found.len() && found[p] == w;
            assert(target.contains(found[p]));
        }
    }
    vstd::set_lib::lemma_len_subset(found.to_set(), target);
}

/// Once nothing is pending, everything stored below `start` has been
/// gathered.
proof fn lemma_collected_all(
    nodes: Seq<TrieNode>,
    words: Set<Seq<char>>,
    found: Seq<Seq<char>>,
    visited: Set<int>,
    start: int,
)
    requires
        wf_nodes(nodes),
        wf_words(nodes, words),
        0 <= start < nodes.len(),
        cover_ok(nodes, Seq::<usize>::empty(), visited, start),
        found_ok(nodes, found, visited, 0, 0),
    ensures
        found.len() == with_prefix(words, path_of(nodes, start)).len(),
{
    let root = path_of(nodes, start);
    let target = with_prefix(words, root);
    assert(below(nodes, start, start)) by {
        assert(root =~= root.subrange(0, root.len() as int));
    }
    lemma_retag(nodes, found, visited, 0, start);
    lemma_collected_some(nodes, words, found, visited, start, 0, start);
    assert forall|w: Seq<char>| target.contains(w) implies found.to_set().contains(w) by {
        assert(holds(nodes, w));
        let (i, j) = choose|i: int, j: int| #[trigger]
            stored(nodes, i, j) && word_at(nodes, i, j) == w;
        assert(below(nodes, start, i));
        assert(!pending(nodes, Seq::<usize>::empty(), i));
        assert(taken(nodes, visited, 0, 0, i, j));
        assert(found.contains(w));
    }
    assert(found.to_set() =~= target) by {
        assert forall|w: Seq<char>| found.to_set().contains(w) implies target.contains(w) by {
            let p = choose|p: int| 0 <= p < found.len() && found[p] == w;
            assert(target.contains(found[p]));
        }
    }
    found.unique_seq_to_set();
}

/// The words that node `i` holds, in the order in which it keeps them.
spec fn node_texts(nodes: Seq<TrieNode>, i: int) -> Seq<Seq<char>> {
    texts(nodes[i].original_words@)
}

/// What the walk over the tree gathers from where it stands: with `found`
/// in hand and the nodes of `stack` still to visit, it takes the node on
/// top, adds that node's words as far as the limit allows, and goes on with
/// the node's children on top of the rest. `fuel` bounds the nodes visited.
spec fn gather(
    nodes: Seq<TrieNode>,
    stack: Seq<usize>,
    found: Seq<Seq<char>>,
    limit: nat,
    fuel: nat,
) -> Seq<Seq<char>>
    decreases fuel,
{
    if fuel == 0 || stack.len() == 0 || found.len() >= limit {
        found
    } else {
        let node = stack.last() as int;
        let words = node_texts(nodes, node);
        let room = limit - found.len();
        if words.len() >= room {
            found + words.take(room)
        } else {
            gather(
                nodes,
                stack.drop_last() + targets(nodes[node].children@),
                found + words,
                limit,
                (fuel - 1) as nat,
            )
        }
    }
}

/// The node that `folded` leads to, where there is one.
spec fn locate(nodes: Seq<TrieNode>, folded: Seq<char>) -> Option<int> {
    if exists|i: int| 0 <= i < nodes.len() && #[trigger] path_of(nodes, i) == folded {
        Some(choose|i: int| 0 <= i < nodes.len() && #[trigger] path_of(nodes, i) == folded)
    } else {
        None
    }
}

/// A node that is not visited yet leaves room among the visited.
proof fn lemma_room_left(nodes: Seq<TrieNode>, visited: Set<int>, node: int)
    requires
        visited.finite(),
        forall|v: int| visited.contains(v) ==> 0 <= v < nodes.len(),
        0 <= node < nodes.len(),
        !visited.contains(node),
    ensures
        visited.len() < nodes.len(),
{
    let seen = visited.insert(node);
    vstd::set_lib::lemma_int_range(0, nodes.len() as int);
    assert(seen.subset_of(vstd::set_lib::set_int_range(0, nodes.len() as int)));
    vstd::set_lib::lemma_len_subset(seen, vstd::set_lib::set_int_range(0, nodes.len() as int));
}

/// Leaving a node: all its words are gathered, so it counts as visited, and
/// its children take its place on the stack.
proof fn lemma_finish_node(
    nodes: Seq<TrieNode>,
    rest: Seq<usize>,
    after: Seq<usize>,
    visited: Set<int>,
    found: Seq<Seq<char>>,
    node: usize,
    start: int,
)
    requires
        wf_nodes(nodes),
        stack_ok(nodes, rest.push(node), start),
        cover_ok(nodes, rest.push(node), visited, start),
        found_ok(nodes, found, visited, node as int, nodes[node as int].original_words@.len() as int),
        after == rest + targets(nodes[node as int].children@),
    ensures
        stack_ok(nodes, after, start),
        cover_ok(nodes, after, visited.insert(node as int), start),
        found_ok(nodes, found, visited.insert(node as int), 0, 0),
        !visited.contains(node as int),
        visited.insert(node as int).len() == visited.len() + 1,
        visited.insert(node as int).len() <= nodes.len(),
{
    let before = rest.push(node);
    let n = node as int;
    let m = rest.len() as int;
    let kids = targets(nodes[n].children@);
    let seen = visited.insert(n);
    let here = path_of(nodes, n);
    assert(before[m] == node);
    assert(0 <= n < nodes.len());
    assert(below(nodes, start, n));
    assert(below(nodes, n, n)) by {
        assert(here =~= here.subrange(0, here.len() as int));
    }
    assert(!visited.contains(n)) by {
        if visited.contains(n) {
            assert(pending(nodes, before, n));
        }
    }
    assert forall|k: int| 0 <= k < kids.len() implies edge(nodes, n, k) && kids[k] == child_of(
        nodes,
        n,
        k,
    ) && path_of(nodes, kids[k] as int) == here.push(key_of(nodes, n, k)) && below(
        nodes,
        n,
        kids[k] as int,
    ) by {
        assert(edge(nodes, n, k));
        assert(here =~= here.push(key_of(nodes, n, k)).subrange(0, here.len() as int));
    }
    assert forall|s: int| 0 <= s < after.len() implies (#[trigger] after[s]) < nodes.len()
        && below(nodes, start, after[s] as int) by {
        if s < m {
            assert(after[s] == before[s]);
        } else {
            assert(after[s] == kids[s - m]);
            lemma_prefix_transitive(path_of(nodes, start), here, path_of(nodes, after[s] as int));
        }
    }
    assert forall|s1: int, s2: int|
        0 <= s1 < after.len() && 0 <= s2 < after.len() && s1 != s2 implies !below(
        nodes,
        #[trigger] after[s1] as int,
        #[trigger] after[s2] as int,
    ) by {
        let a = after[s1] as int;
        let b = after[s2] as int;
        if below(nodes, a, b) {
            if s1 < m && s2 < m {
                assert(after[s1] == before[s1] && after[s2] == before[s2]);
            } else if s1 < m {
                assert(after[s1] == before[s1]);
                assert(after[s2] == kids[s2 - m]);
                lemma_prefix_of_push(path_of(nodes, a), here, key_of(nodes, n, s2 - m));
                if path_of(nodes, a).is_prefix_of(here) {
                    assert(below(nodes, before[s1] as int, before[m] as int));
                } else {
                    assert(below(nodes, before[m] as int, before[s1] as int));
                }
            } else if s2 < m {
                assert(after[s2] == before[s2]);
                assert(after[s1] == kids[s1 - m]);
                lemma_prefix_transitive(here, path_of(nodes, a), path_of(nodes, b));
                assert(below(nodes, before[m] as int, before[s2] as int));
            } else {
                assert(after[s1] == kids[s1 - m]);
                assert(after[s2] == kids[s2 - m]);
                let x = key_of(nodes, n, s1 - m);
                let y = key_of(nodes, n, s2 - m);
                assert(here.push(x) =~= here.push(y));
                assert(here.push(x).last() == here.push(y).last());
                assert(edge(nodes, n, s1 - m) && edge(nodes, n, s2 - m));
            }
        }
    }
    assert forall|v: int| #[trigger] seen.contains(v) implies 0 <= v < nodes.len() && below(
        nodes,
        start,
        v,
    ) && !pending(nodes, after, v) by {
        if pending(nodes, after, v) {
            let s = choose|s: int| 0 <= s < after.len() && below(nodes, #[trigger] after[s] as int, v);
            if s < m {
                assert(after[s] == before[s]);
                if v == n {
                    assert(below(nodes, before[s] as int, before[m] as int));
                } else {
                    assert(pending(nodes, before, v));
                }
            } else {
                assert(after[s] == kids[s - m]);
                if v == n {
                    assert(path_of(nodes, after[s] as int).len() == here.len() + 1);
                } else {
                    lemma_prefix_transitive(here, path_of(nodes, after[s] as int), path_of(nodes, v));
                    assert(below(nodes, before[m] as int, v));
                    assert(pending(nodes, before, v));
                }
            }
        }
    }
    assert forall|j: int| 0 <= j < nodes.len() && #[trigger] below(nodes, start, j) implies seen.contains(j)
        || pending(nodes, after, j) by {
        if !visited.contains(j) && j != n {
            assert(pending(nodes, before, j));
            let s = choose|s: int| 0 <= s < before.len() && below(nodes, #[trigger] before[s] as int, j);
            if s < m {
                assert(after[s] == before[s]);
            } else {
                assert(path_of(nodes, n) != path_of(nodes, j));
                if here.len() == path_of(nodes, j).len() {
                    assert(here =~= path_of(nodes, j));
                }
                let k = lemma_descend(nodes, n, j);
                assert(after[m + k] == kids[k]);
                assert(below(nodes, after[m + k] as int, j));
            }
        }
    }
    assert forall|p: int| 0 <= p < found.len() implies from_taken(
        nodes,
        seen,
        0,
        0,
        #[trigger] found[p],
    ) by {
        let done = nodes[n].original_words@.len() as int;
        assert(from_taken(nodes, visited, n, done, found[p]));
        let (v, jj) = choose|v: int, jj: int| #[trigger]
            taken(nodes, visited, n, done, v, jj) && word_at(nodes, v, jj) == found[p];
        assert(taken(nodes, seen, 0, 0, v, jj));
    }
    assert forall|v: int, jj: int| #[trigger] taken(nodes, seen, 0, 0, v, jj) implies found.contains(
        word_at(nodes, v, jj),
    ) by {
        let done = nodes[n].original_words@.len() as int;
        assert(taken(nodes, visited, n, done, v, jj));
    }
    vstd::set_lib::lemma_int_range(0, nodes.len() as int);
    assert(seen.subset_of(vstd::set_lib::set_int_range(0, nodes.len() as int)));
    vstd::set_lib::lemma_len_subset(seen, vstd::set_lib::set_int_range(0, nodes.len() as int));
}

/// A set of words that can be searched by prefix without regard to ASCII
/// case. Its view is the set of words inserted so far.
pub struct Trie {
    nodes: Vec<TrieNode>,
    words: Ghost<Set<Seq<char>>>,
}

impl View for Trie {
    type V = Set<Seq<char>>;

    closed spec fn view(&self) -> Set<Seq<char>> {
        self.words@
    }
}

impl Trie {
    /// The tree is well formed and stores exactly the words of the view.
    pub closed spec fn wf(&self) -> bool {
        wf_nodes(self.nodes@) && wf_words(self.nodes@, self.words@)
    }

    /// What a search for `prefix` with the limit `limit` returns, in the
    /// order in which it returns it. The order depends on how the tree was
    /// built and is not told; what is told is that it is the same for every
    /// search of the same trie.
    pub closed spec fn found(&self, prefix: Seq<char>, limit: nat) -> Seq<Seq<char>> {
        match locate(self.nodes@, lower(prefix)) {
            Some(start) => gather(
                self.nodes@,
                seq![start as usize],
                Seq::empty(),
                limit,
                self.nodes@.len(),
            ),
            None => Seq::empty(),
        }
    }

    /// A well-formed trie holds finitely many words.
    pub proof fn lemma_finite(&self)
        requires
            self.wf(),
        ensures
            self@.finite(),
    {
    }

    pub fn new() -> (trie: Self)
        ensures
            trie.wf(),
            trie@ == Set::<Seq<char>>::empty(),
    {
        let mut nodes: Vec<TrieNode> = Vec::new();
        nodes.push(TrieNode::new(Ghost(Seq::empty())));
        let trie = Trie { nodes, words: Ghost(Set::empty()) };
        proof {
            assert forall|j: int| 1 <= j < trie.nodes@.len() implies #[trigger] has_parent(
                trie.nodes@,
                j,
            ) by {}
            assert forall|w: Seq<char>| !holds(trie.nodes@, w) by {
                if holds(trie.nodes@, w) {
                    let (i, j) = choose|i: int, j: int| #[trigger]
                        stored(trie.nodes@, i, j) && word_at(trie.nodes@, i, j) == w;
                }
            }
        }
        trie
    }

    /// The node that the edge of `node` for `c` leads to, where there is one.
    fn find_child(&self, node: usize, c: char) -> (r: Option<usize>)
        requires
            self.wf(),
            node < self.nodes@.len(),
        ensures
            match r {
                Some(t) => t < self.nodes@.len() && path_of(self.nodes@, t as int) == path_of(
                    self.nodes@,
                    node as int,
                ).push(c),
                None => forall|k: int| #[trigger]
                    edge(self.nodes@, node as int, k) ==> key_of(self.nodes@, node as int, k)
                        != c,
            },
    {
        let children = &self.nodes[node].children;
        let mut k: usize = 0;
        while k < children.len()
            invariant
                self.wf(),
                k <= children@.len(),
                node < self.nodes@.len(),
                children@ == self.nodes@[node as int].children@,
                forall|i: int| 0 <= i < k ==> children@[i].0 != c,
            decreases children@.len() - k,
        {
            if children[k].0 == c {
                assert(edge(self.nodes@, node as int, k as int));
                return Some(children[k].1);
            }
            k += 1;
        }
        None
    }

    /// Hangs a fresh node on `node` under `c` and returns its index.
    fn add_child(&mut self, node: usize, c: char) -> (t: usize)
        requires
            old(self).wf(),
            node < old(self).nodes@.len(),
            forall|k: int| #[trigger]
                edge(old(self).nodes@, node as int, k) ==> key_of(
                    old(self).nodes@,
                    node as int,
                    k,
                ) != c,
        ensures
            final(self).wf(),
            final(self)@ == old(self)@,
            t < final(self).nodes@.len(),
            path_of(final(self).nodes@, t as int) == path_of(old(self).nodes@, node as int).push(
                c,
            ),
    {
        let t = self.nodes.len();
        let ghost path = self.nodes@[node as int].path@.push(c);
        self.nodes.push(TrieNode::new(Ghost(path)));
        self.nodes[node].children.push((c, t));
        proof {
            lemma_add_child(old(self).nodes@, self.nodes@, node as int, c);
        }
        t
    }

    /// Stores `word` at `node` unless it is there already.
    fn add_word(&mut self, node: usize, word: &str)
        requires
            old(self).wf(),
            node < old(self).nodes@.len(),
            lower(word@) == path_of(old(self).nodes@, node as int),
        ensures
            final(self).wf(),
            final(self)@ == old(self)@.insert(word@),
    {
        let owned = String::from_str(word);
        let mut j: usize = 0;
        while j < self.nodes[node].original_words.len()
            invariant
                node < self.nodes@.len(),
                j <= self.nodes@[node as int].original_words@.len(),
                *self == *old(self),
                self.wf(),
                owned@ == word@,
                forall|i: int| 0 <= i < j ==> word_at(self.nodes@, node as int, i) != word@,
            decreases self.nodes@[node as int].original_words@.len() - j,
        {
            if self.nodes[node].original_words[j] == owned {
                proof {
                    assert(stored(self.nodes@, node as int, j as int));
                    assert(holds(self.nodes@, word@));
                    assert(self.words@.contains(word@));
                    assert(self.words@.insert(word@) =~= self.words@);
                }
                return ;
            }
            j += 1;
        }
        self.nodes[node].original_words.push(owned);
        self.words = Ghost(self.words@.insert(word@));
        proof {
            lemma_add_word(old(self).nodes@, self.nodes@, node as int, word@);
        }
    }

    /// Gathers up to `limit` of the words stored at `start` and below it.
    fn collect(&self, start: usize, limit: usize) -> (res: Vec<String>)
        requires
            self.wf(),
            start < self.nodes@.len(),
        ensures
            is_selection(
                texts(res@),
                with_prefix(self@, path_of(self.nodes@, start as int)),
                limit as nat,
            ),
            texts(res@) == gather(
                self.nodes@,
                seq![start],
                Seq::empty(),
                limit as nat,
                self.nodes@.len(),
            ),
    {
        let mut res: Vec<String> = Vec::new();
        let ghost root = path_of(self.nodes@, start as int);
        let ghost goal = gather(
            self.nodes@,
            seq![start],
            Seq::empty(),
            limit as nat,
            self.nodes@.len(),
        );
        if limit == 0 {
            assert(texts(res@) =~= Seq::<Seq<char>>::empty());
            return res;
        }
        let mut stack: Vec<usize> = Vec::new();
        stack.push(start);
        let ghost mut visited: Set<int> = Set::empty();
        proof {
            assert(below(self.nodes@, start as int, start as int)) by {
                assert(root =~= root.subrange(0, root.len() as int));
            }
            assert forall|j: int|
                0 <= j < self.nodes@.len() && #[trigger] below(
                    self.nodes@,
                    start as int,
                    j,
                ) implies pending(self.nodes@, stack@, j) by {
                assert(below(self.nodes@, stack@[0] as int, j));
            }
            assert(texts(res@) =~= Seq::<Seq<char>>::empty());
            assert(stack@ =~= seq![start]);
        }
        while stack.len() > 0
            invariant
                self.wf(),
                start < self.nodes@.len(),
                limit > 0,
                res@.len() < limit,
                goal == gather(
                    self.nodes@,
                    seq![start],
                    Seq::empty(),
                    limit as nat,
                    self.nodes@.len(),
                ),
                gather(
                    self.nodes@,
                    stack@,
                    texts(res@),
                    limit as nat,
                    (self.nodes@.len() - visited.len()) as nat,
                ) == goal,
                stack_ok(self.nodes@, stack@, start as int),
                cover_ok(self.nodes@, stack@, visited, start as int),
                found_ok(self.nodes@, texts(res@), visited, 0, 0),
                visited.len() <= self.nodes@.len(),
            decreases self.nodes@.len() - visited.len(),
        {
            let ghost before = stack@;
            let node = stack.pop().unwrap();
            let ghost rest = stack@;
            proof {
                assert(before =~= rest.push(node));
                assert(before[rest.len() as int] == node);
                let here = path_of(self.nodes@, node as int);
                assert(below(self.nodes@, node as int, node as int)) by {
                    assert(here =~= here.subrange(0, here.len() as int));
                }
                if visited.contains(node as int) {
                    assert(pending(self.nodes@, before, node as int));
                }
                lemma_retag(self.nodes@, texts(res@), visited, 0, node as int);
                lemma_room_left(self.nodes@, visited, node as int);
            }
            let words = &self.nodes[node].original_words;
            let ghost base = texts(res@);
            let ghost here = node_texts(self.nodes@, node as int);
            let ghost room = limit - base.len();
            let ghost onward = gather(
                self.nodes@,
                rest + targets(self.nodes@[node as int].children@),
                base + here,
                limit as nat,
                (self.nodes@.len() - visited.len() - 1) as nat,
            );
            proof {
                assert(before.last() == node);
                assert(before.drop_last() =~= rest);
                assert(base + here.take(0) =~= base);
            }
            let mut j: usize = 0;
            while j < words.len()
                invariant
                    here == texts(words@),
                    goal == gather(
                        self.nodes@,
                        seq![start],
                        Seq::empty(),
                        limit as nat,
                        self.nodes@.len(),
                    ),
                    room == limit - base.len(),
                    here.len() >= room ==> goal == base + here.take(room),
                    here.len() < room ==> goal == onward,
                    texts(res@) == base + here.take(j as int),
                    self.wf(),
                    start < self.nodes@.len(),
                    node < self.nodes@.len(),
                    words@ == self.nodes@[node as int].original_words@,
                    j <= words@.len(),
                    res@.len() < limit,
                    below(self.nodes@, start as int, node as int),
                    !visited.contains(node as int),
                    forall|v: int|
                        visited.contains(v) ==> 0 <= v < self.nodes@.len() && below(
                            self.nodes@,
                            start as int,
                            v,
                        ),
                    found_ok(self.nodes@, texts(res@), visited, node as int, j as int),
                decreases words@.len() - j,
            {
                let ghost found = texts(res@);
                res.push(words[j].clone());
                proof {
                    assert(stored(self.nodes@, node as int, j as int));
                    lemma_take_word(self.nodes@, found, visited, node as int, j as int);
                    assert(texts(res@) =~= found.push(word_at(self.nodes@, node as int, j as int)));
                    assert(here.take(j + 1) =~= here.take(j as int).push(here[j as int]));
                    assert(texts(res@) =~= base + here.take(j + 1));
                }
                j += 1;
                if res.len() >= limit {
                    proof {
                        assert(j == room);
                        lemma_collected_some(
                            self.nodes@,
                            self.words@,
                            texts(res@),
                            visited,
                            node as int,
                            j as int,
                            start as int,
                        );
                    }
                    return res;
                }
            }
            let children = &self.nodes[node].children;
            let mut k: usize = 0;
            while k < children.len()
                invariant
                    node < self.nodes@.len(),
                    children@ == self.nodes@[node as int].children@,
                    k <= children@.len(),
                    stack@ == rest + targets(children@).take(k as int),
                decreases children@.len() - k,
            {
                stack.push(children[k].1);
                assert(targets(children@).take(k + 1) =~= targets(children@).take(k as int).push(
                    children@[k as int].1,
                ));
                k += 1;
            }
            proof {
                assert(here.take(j as int) =~= here);
                assert(targets(children@).take(k as int) =~= targets(children@));
                lemma_finish_node(
                    self.nodes@,
                    rest,
                    stack@,
                    visited,
                    texts(res@),
                    node,
                    start as int,
                );
                visited = visited.insert(node as int);
            }
        }
        proof {
            assert(stack@ =~= Seq::<usize>::empty());
            lemma_retag(self.nodes@, texts(res@), visited, 0, start as int);
            assert(root =~= root.subrange(0, root.len() as int));
            lemma_collected_some(
                self.nodes@,
                self.words@,
                texts(res@),
                visited,
                start as int,
                0,
                start as int,
            );
            lemma_collected_all(self.nodes@, self.words@, texts(res@), visited, start as int);
        }
        res
    }

    /// Up to `limit` of the words that begin with `prefix`, letters compared
    /// without regard to ASCII case, each as it was inserted and none twice.
    /// Where fewer than `limit` words match, all of them are returned.
    pub fn search(&self, prefix: &str, limit: usize) -> (res: Vec<String>)
        requires
            self.wf(),
        ensures
            is_selection(texts(res@), matching(self@, prefix@), limit as nat),
            res@.len() <= limit,
            texts(res@) == self.found(prefix@, limit as nat),
    {
        let lowered = lowercase_chars(prefix);
        let mut current: usize = 0;
        let mut depth: usize = 0;
        while depth < lowered.len()
            invariant
                self.wf(),
                lowered@ == lower(prefix@),
                depth <= lowered@.len(),
                current < self.nodes@.len(),
                path_of(self.nodes@, current as int) == lowered@.take(depth as int),
            decreases lowered@.len() - depth,
        {
            let c = lowered[depth];
            match self.find_child(current, c) {
                Some(next) => {
                    current = next;
                },
                None => {
                    proof {
                        self.lemma_miss(current as int, lowered@, depth as int);
                    }
                    return Vec::new();
                },
            }
            assert(lowered@.take(depth + 1) == lowered@.take(depth as int).push(c));
            depth += 1;
        }
        assert(lowered@.take(depth as int) == lowered@);
        assert(locate(self.nodes@, lowered@) == Some(current as int)) by {
            assert(path_of(self.nodes@, current as int) == lowered@);
        }
        self.collect(current, limit)
    }

    /// Where the walk down `folded` finds no edge for its next character,
    /// no stored word begins with `folded`.
    proof fn lemma_miss(&self, n: int, folded: Seq<char>, depth: int)
        requires
            self.wf(),
            0 <= n < self.nodes@.len(),
            0 <= depth < folded.len(),
            path_of(self.nodes@, n) == folded.take(depth),
            forall|k: int| #[trigger]
                edge(self.nodes@, n, k) ==> key_of(self.nodes@, n, k) != folded[depth],
        ensures
            with_prefix(self@, folded) == Set::<Seq<char>>::empty(),
            texts(Seq::<String>::empty()) == Seq::<Seq<char>>::empty(),
            locate(self.nodes@, folded) is None,
    {
        let nodes = self.nodes@;
        assert forall|i: int| 0 <= i < nodes.len() implies #[trigger] path_of(nodes, i)
            != folded by {
            if path_of(nodes, i) == folded {
                assert(folded.take(depth).is_prefix_of(folded));
                let k = lemma_descend(nodes, n, i);
            }
        }
        assert forall|w: Seq<char>| !with_prefix(self@, folded).contains(w) by {
            if with_prefix(self@, folded).contains(w) {
                assert(holds(nodes, w));
                let (i, j) = choose|i: int, j: int| #[trigger]
                    stored(nodes, i, j) && word_at(nodes, i, j) == w;
                assert(path_of(nodes, i) == lower(w));
                assert(folded.take(depth).is_prefix_of(folded));
                lemma_prefix_transitive(folded.take(depth), folded, lower(w));
                let k = lemma_descend(nodes, n, i);
                assert(lower(w)[depth] == folded[depth]);
            }
        }
        assert(with_prefix(self@, folded) =~= Set::<Seq<char>>::empty());
        assert(texts(Seq::<String>::empty()) =~= Seq::<Seq<char>>::empty());
    }

    /// Adds every word of `words`.
    pub fn insert_all(&mut self, words: &Vec<String>)
        requires
            old(self).wf(),
        ensures
            final(self).wf(),
            final(self)@ == old(self)@.union(texts(words@).to_set()),
    {
        let mut i: usize = 0;
        assert(self@ =~= old(self)@.union(texts(words@.take(0)).to_set()));
        while i < words.len()
            invariant
                self.wf(),
                i <= words@.len(),
                self@ == old(self)@.union(texts(words@.take(i as int)).to_set()),
            decreases words@.len() - i,
        {
            self.insert(words[i].as_str());
            proof {
                let done = texts(words@.take(i as int));
                let next = texts(words@.take(i + 1));
                assert(next =~= done.push(words@[i as int]@));
                assert(next.to_set() =~= done.to_set().insert(words@[i as int]@)) by {
                    assert forall|w: Seq<char>| next.to_set().contains(w) implies done.to_set().insert(
                        words@[i as int]@,
                    ).contains(w) by {
                        let p = choose|p: int| 0 <= p < next.len() && next[p] == w;
                        if p < done.len() {
                            assert(done[p] == w);
                        }
                    }
                    assert forall|w: Seq<char>|
                        done.to_set().insert(words@[i as int]@).contains(
                            w,
                        ) implies next.to_set().contains(w) by {
                        if done.to_set().contains(w) {
                            let p = choose|p: int| 0 <= p < done.len() && done[p] == w;
                            assert(next[p] == w);
                        } else {
                            assert(next[done.len() as int] == w);
                        }
                    }
                }
                assert(self@ =~= old(self)@.union(next.to_set()));
            }
            i += 1;
        }
        assert(words@.take(i as int) =~= words@);
    }

    /// Adds `word`. A word that is there already is not stored again.
    pub fn insert(&mut self, word: &str)
        requires
            old(self).wf(),
        ensures
            final(self).wf(),
            final(self)@ == old(self)@.insert(word@),
    {
        let lowered = lowercase_chars(word);
        let mut current: usize = 0;
        let mut depth: usize = 0;
        while depth < lowered.len()
            invariant
                self.wf(),
                self@ == old(self)@,
                depth <= lowered@.len(),
                current < self.nodes@.len(),
                path_of(self.nodes@, current as int) == lowered@.take(depth as int),
            decreases lowered@.len() - depth,
        {
            let c = lowered[depth];
            current = match self.find_child(current, c) {
                Some(next) => next,
                None => self.add_child(current, c),
            };
            assert(lowered@.take(depth + 1) == lowered@.take(depth as int).push(c));
            depth += 1;
        }
        assert(lowered@.take(depth as int) == lowered@);
        self.add_word(current, word);
    }
}

} // verus!
