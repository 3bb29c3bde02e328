//! Assembly of the dependency graph and detection of its cycles.

use crate::scanner::metrics_calculator::{density, lemma_density_bounds};
use crate::types::{ArchitectureNode, DependencyEdge, DependencyType, ModuleType, Ratio};
use vstd::prelude::*;

verus! {

/// The ends of an edge: the id it leaves and the id it reaches.
pub type Link = (Seq<char>, Seq<char>);

/// The ends of each edge, in order.
pub open spec fn links_of(edges: Seq<DependencyEdge>) -> Seq<Link> {
    Seq::new(edges.len(), |i: int| (edges[i].from@, edges[i].to@))
}

/// Index of the first of the modules from `i` on that is named `name`, or
/// the number of modules where none is.
pub open spec fn resolve_from(nodes: Seq<ArchitectureNode>, name: Seq<char>, i: int) -> int
    decreases nodes.len() - i,
{
    if i < 0 || i >= nodes.len() {
        nodes.len() as int
    } else if nodes[i].name@ == name {
        i
    } else {
        resolve_from(nodes, name, i + 1)
    }
}

/// The module that a dependency name resolves to: the first, in the order
/// of the modules, whose name is exactly `name`.
pub open spec fn resolve(nodes: Seq<ArchitectureNode>, name: Seq<char>) -> Option<int> {
    if resolve_from(nodes, name, 0) < nodes.len() {
        Some(resolve_from(nodes, name, 0))
    } else {
        None
    }
}

/// How a module of one kind relates to a module of another.
pub open spec fn relationship(source: ModuleType, target: ModuleType) -> DependencyType {
    let uses = {
        ||| source is API && target is Core
        ||| source is Core && target is DataProcessing
        ||| source is Execution && target is Core
        ||| source is Integration && target is API
        ||| source is Testing
    };
    if uses {
        DependencyType::Uses
    } else {
        DependencyType::DependsOn
    }
}

/// The strength of a dependency in tenths: a base of 10, one more for each
/// dependency that the source declares, 5 more for a `Core` target and 3
/// more for an `API` source, the whole capped at 10.
pub open spec fn strength_tenths(source: ArchitectureNode, target: ArchitectureNode) -> nat {
    let raw = 10 + source.dependencies@.len() + if target.module_type is Core {
        5nat
    } else {
        0nat
    } + if source.module_type is API {
        3nat
    } else {
        0nat
    };
    if raw > 10 {
        10
    } else {
        raw
    }
}

/// The edges that the first `k` dependency names of the module `source`
/// give rise to, as pairs of the source and the module that the name resolves
/// to. A name that resolves to no module gives no edge.
pub open spec fn ends_of_node(nodes: Seq<ArchitectureNode>, source: int, k: int) -> Seq<(int, int)>
    decreases k,
{
    if k <= 0 || source < 0 || source >= nodes.len() || k > nodes[source].dependencies@.len() {
        Seq::empty()
    } else {
        let rest = ends_of_node(nodes, source, k - 1);
        match resolve(nodes, nodes[source].dependencies@[k - 1]@) {
            Some(target) => rest.push((source, target)),
            None => rest,
        }
    }
}

/// The edges of the first `n` modules: those of each module together, the
/// modules in order.
pub open spec fn ends_of_nodes(nodes: Seq<ArchitectureNode>, n: int) -> Seq<(int, int)>
    decreases n,
{
    if n <= 0 || n > nodes.len() {
        Seq::empty()
    } else {
        ends_of_nodes(nodes, n - 1) + ends_of_node(
            nodes,
            n - 1,
            nodes[n - 1].dependencies@.len() as int,
        )
    }
}

/// The edges of a graph, as pairs of the index of the source and the index
/// of the target.
pub open spec fn edge_ends(nodes: Seq<ArchitectureNode>) -> Seq<(int, int)> {
    ends_of_nodes(nodes, nodes.len() as int)
}

/// `e` is the edge from `source` to `target`, whatever its circularity flag.
pub open spec fn connects(
    e: DependencyEdge,
    source: ArchitectureNode,
    target: ArchitectureNode,
) -> bool {
    &&& e.from@ == source.id@
    &&& e.to@ == target.id@
    &&& e.relationship == relationship(source.module_type, target.module_type)
    &&& e.strength == strength_tenths(source, target)
}

/// `edges` are the edges `ends` between `nodes`, one for one and in order.
pub open spec fn edges_connect(
    edges: Seq<DependencyEdge>,
    nodes: Seq<ArchitectureNode>,
    ends: Seq<(int, int)>,
) -> bool {
    &&& edges.len() == ends.len()
    &&& forall|k: int|
        #![trigger edges[k]]
        #![trigger ends[k]]
        0 <= k < edges.len() ==> {
            &&& 0 <= ends[k].0 < nodes.len()
            &&& 0 <= ends[k].1 < nodes.len()
            &&& connects(edges[k], nodes[ends[k].0], nodes[ends[k].1])
        }
}

/// Index of the first of the ids from `i` on that equals `id`, or the number
/// of ids where none does.
pub open spec fn position_from<T>(ids: Seq<T>, id: T, i: int) -> int
    decreases ids.len() - i,
{
    if i < 0 || i >= ids.len() {
        ids.len() as int
    } else if ids[i] == id {
        i
    } else {
        position_from(ids, id, i + 1)
    }
}

/// Index of the first occurrence of `id` among `ids`, or the number of ids
/// where it does not occur.
pub open spec fn position<T>(ids: Seq<T>, id: T) -> int {
    position_from(ids, id, 0)
}

/// `id` occurs among `ids`.
pub open spec fn holds<T>(ids: Seq<T>, id: T) -> bool {
    position(ids, id) < ids.len()
}

/// What a depth-first search adds: the ids that it visits, in the order of
/// their visit, and the cycles that it finds.
#[verifier::ext_equal]
pub struct Found<T> {
    pub visited: Seq<T>,
    pub cycles: Seq<Seq<T>>,
}

/// A search that finds nothing.
pub open spec fn nothing<T>() -> Found<T> {
    Found { visited: Seq::empty(), cycles: Seq::empty() }
}

/// What two searches add, one after the other.
pub open spec fn both<T>(first: Found<T>, second: Found<T>) -> Found<T> {
    Found { visited: first.visited + second.visited, cycles: first.cycles + second.cycles }
}

/// Number of links whose target is not among the ids visited: what is left
/// for a search to visit.
pub open spec fn unvisited<T>(links: Seq<(T, T)>, visited: Seq<T>) -> nat
    decreases links.len(),
{
    if links.len() == 0 {
        0
    } else {
        unvisited(links.drop_last(), visited) + if holds(visited, links.last().1) {
            0nat
        } else {
            1nat
        }
    }
}

/// Every id visited in `before` is visited in `after`.
pub open spec fn visits_kept<T>(before: Seq<T>, after: Seq<T>) -> bool {
    forall|x: T| holds(before, x) ==> #[trigger] holds(after, x)
}

/// What a visit of `node` adds, reached along `path` with the ids `visited`
/// before it: the node itself, and what following its outgoing links adds,
/// in the order of the links.
pub open spec fn search_node<T>(
    links: Seq<(T, T)>,
    node: T,
    path: Seq<T>,
    visited: Seq<T>,
) -> Found<T>
    decreases unvisited(links, visited.push(node)), links.len() + 1,
{
    let below = search_links(links, node, 0, path.push(node), visited.push(node));
    Found { visited: seq![node] + below.visited, cycles: below.cycles }
}

/// What the link at index `k` adds to a search that follows the links of
/// `node`, the last id of `path`. A link that leaves `node` for an id not yet
/// visited adds the visit of that id. A link that leaves `node` for an id on
/// the path closes a cycle: it adds the part of the path from that id to its
/// end. Any other link adds nothing.
pub open spec fn search_link<T>(
    links: Seq<(T, T)>,
    node: T,
    k: int,
    path: Seq<T>,
    visited: Seq<T>,
) -> Found<T>
    decreases unvisited(links, visited), links.len() - k, 1int,
{
    if k < 0 || k >= links.len() || links[k].0 != node {
        nothing()
    } else if !holds(visited, links[k].1) {
        proof {
            lemma_visit_falls(links, visited, k);
        }
        search_node(links, links[k].1, path, visited)
    } else if holds(path, links[k].1) {
        Found {
            visited: Seq::empty(),
            cycles: seq![path.subrange(position(path, links[k].1), path.len() as int)],
        }
    } else {
        nothing()
    }
}

/// What following the links from index `k` on adds to a search at `node`,
/// the last id of `path`: what each link adds, one after the other, each with
/// the ids visited up to it.
pub open spec fn search_links<T>(
    links: Seq<(T, T)>,
    node: T,
    k: int,
    path: Seq<T>,
    visited: Seq<T>,
) -> Found<T>
    decreases unvisited(links, visited), links.len() - k, 2int,
{
    if k < 0 || k >= links.len() {
        nothing()
    } else {
        let step = search_link(links, node, k, path, visited);
        proof {
            lemma_append_falls(links, visited, step.visited);
        }
        both(step, search_links(links, node, k + 1, path, visited + step.visited))
    }
}

/// What the root at index `k` adds to the search of a graph: the visit of
/// the source of the link at that index, where it was not visited before.
pub open spec fn search_root<T>(links: Seq<(T, T)>, k: int, visited: Seq<T>) -> Found<T> {
    if k < 0 || k >= links.len() || holds(visited, links[k].0) {
        nothing()
    } else {
        search_node(links, links[k].0, Seq::empty(), visited)
    }
}

/// What the roots from index `k` on add to the search of a graph, one after
/// the other, each with the ids visited up to it.
pub open spec fn search_roots<T>(links: Seq<(T, T)>, k: int, visited: Seq<T>) -> Found<T>
    decreases links.len() - k,
{
    if k < 0 || k >= links.len() {
        nothing()
    } else {
        let step = search_root(links, k, visited);
        both(step, search_roots(links, k + 1, visited + step.visited))
    }
}

/// The cycles of a graph given by its links: what a depth-first search
/// finds that starts at the source of each link in turn, as far as it was
/// not visited before. Each cycle is the path from the id that a link leads
/// back to up to the id that the link leaves.
pub open spec fn cycles_of<T>(links: Seq<(T, T)>) -> Seq<Seq<T>> {
    search_roots(links, 0, Seq::empty()).cycles
}

/// No id comes before its first occurrence.
pub proof fn lemma_position_is_first<T>(ids: Seq<T>, id: T, i: int)
    requires
        0 <= i <= ids.len(),
    ensures
        forall|j: int| i <= j < position_from(ids, id, i) && j < ids.len() ==> ids[j] != id,
    decreases ids.len() - i,
{
    if i < ids.len() && ids[i] != id {
        lemma_position_is_first(ids, id, i + 1);
    }
}

/// An id occurs among ids exactly when it is one of them.
pub proof fn lemma_holds_is_membership<T>(ids: Seq<T>, id: T)
    ensures
        holds(ids, id) <==> ids.contains(id),
{
    lemma_position_is_first(ids, id, 0);
    lemma_position_bounds(ids, id, 0);
    if holds(ids, id) {
        assert(ids[position(ids, id)] == id);
    }
}

/// What was visited stays visited when more is visited, and the more is
/// visited too.
pub proof fn lemma_more_visits<T>(visited: Seq<T>, more: Seq<T>)
    ensures
        visits_kept(visited, visited + more),
        forall|i: int| 0 <= i < more.len() ==> holds(visited + more, #[trigger] more[i]),
{
    assert forall|x: T| holds(visited, x) implies #[trigger] holds(visited + more, x) by {
        lemma_holds_is_membership(visited, x);
        lemma_holds_is_membership(visited + more, x);
        let i = choose|i: int| 0 <= i < visited.len() && visited[i] == x;
        assert((visited + more)[i] == x);
    }
    assert forall|i: int| 0 <= i < more.len() implies holds(visited + more, #[trigger] more[i]) by {
        lemma_holds_is_membership(visited + more, more[i]);
        assert((visited + more)[visited.len() + i] == more[i]);
    }
}

/// Where visits are kept, no more is left to visit than before; and less,
/// where the target of a link was not visited before and is now.
pub proof fn lemma_unvisited_falls<T>(links: Seq<(T, T)>, before: Seq<T>, after: Seq<T>)
    requires
        visits_kept(before, after),
    ensures
        unvisited(links, after) <= unvisited(links, before),
        forall|k: int|
            0 <= k < links.len() && !holds(before, (#[trigger] links[k]).1) && holds(
                after,
                links[k].1,
            ) ==> unvisited(links, after) < unvisited(links, before),
    decreases links.len(),
{
    if links.len() > 0 {
        lemma_unvisited_falls(links.drop_last(), before, after);
        assert forall|k: int|
            0 <= k < links.len() && !holds(before, (#[trigger] links[k]).1) && holds(
                after,
                links[k].1,
            ) implies unvisited(links, after) < unvisited(links, before) by {
            if k < links.len() - 1 {
                assert(links.drop_last()[k] == links[k]);
            }
        }
    }
}

/// Visiting the target of a link that was not visited leaves less to visit.
pub proof fn lemma_visit_falls<T>(links: Seq<(T, T)>, visited: Seq<T>, k: int)
    requires
        0 <= k < links.len(),
        !holds(visited, links[k].1),
    ensures
        unvisited(links, visited.push(links[k].1)) < unvisited(links, visited),
{
    let next = links[k].1;
    assert(visited.push(next) =~= visited + seq![next]);
    assert(seq![next][0] == next);
    lemma_more_visits(visited, seq![next]);
    lemma_unvisited_falls(links, visited, visited.push(next));
}

/// Visiting more leaves no more to visit.
pub proof fn lemma_append_falls<T>(links: Seq<(T, T)>, visited: Seq<T>, more: Seq<T>)
    ensures
        unvisited(links, visited + more) <= unvisited(links, visited),
{
    lemma_more_visits(visited, more);
    lemma_unvisited_falls(links, visited, visited + more);
}

/// The index that follows `i` on a cycle of `n` ids: the next, and after the
/// last the first.
pub open spec fn next_on(n: int, i: int) -> int {
    if i + 1 < n {
        i + 1
    } else {
        0
    }
}

/// `a` is directly followed by `b` on the cycle, the last id of the cycle
/// being followed by the first.
pub open spec fn adjacent_in<T>(cycle: Seq<T>, a: T, b: T) -> bool {
    exists|i: int|
        0 <= i < cycle.len() && #[trigger] cycle[i] == a && cycle[next_on(cycle.len() as int, i)]
            == b
}

/// The two ids are adjacent, in either order, on one of the cycles.
pub open spec fn on_cycle<T>(cycles: Seq<Seq<T>>, from: T, to: T) -> bool {
    exists|c: int|
        0 <= c < cycles.len() && (adjacent_in(#[trigger] cycles[c], from, to) || adjacent_in(
            cycles[c],
            to,
            from,
        ))
}

/// Each edge is flagged as circular exactly when its two ends are adjacent,
/// in either order, on one of the cycles of the graph. The edges along a
/// cycle are flagged, the one that closes it among them, and so is an edge
/// from a module to itself.
pub open spec fn flags_follow_cycles(edges: Seq<DependencyEdge>) -> bool {
    forall|k: int|
        0 <= k < edges.len() ==> (#[trigger] edges[k]).is_circular == on_cycle(
            cycles_of(links_of(edges)),
            edges[k].from@,
            edges[k].to@,
        )
}

/// Some link leaves `a` and reaches `b`.
pub open spec fn has_link(links: Seq<Link>, a: Seq<char>, b: Seq<char>) -> bool {
    exists|k: int| 0 <= k < links.len() && #[trigger] links[k] == (a, b)
}

/// Each id of `path` but the last has a link to the id after it.
pub open spec fn follows_links(links: Seq<Link>, path: Seq<Seq<char>>) -> bool {
    forall|i: int| 0 <= i && i + 1 < path.len() ==> has_link(links, #[trigger] path[i], path[i + 1])
}

/// `path` is a cycle of the graph: it is not empty, it follows the links,
/// and a link leads from its last id back to its first.
pub open spec fn is_cycle(links: Seq<Link>, path: Seq<Seq<char>>) -> bool {
    &&& path.len() > 0
    &&& follows_links(links, path)
    &&& has_link(links, path.last(), path.first())
}

/// Every one of the cycles is a cycle of the graph.
pub open spec fn all_cycles(links: Seq<Link>, cycles: Seq<Seq<Seq<char>>>) -> bool {
    forall|c: int| 0 <= c < cycles.len() ==> is_cycle(links, #[trigger] cycles[c])
}

/// The first occurrence of an id from `i` on lies at or after `i`, and where
/// it lies within the ids, the id is there.
pub proof fn lemma_position_bounds<T>(ids: Seq<T>, id: T, i: int)
    requires
        0 <= i <= ids.len(),
    ensures
        i <= position_from(ids, id, i) <= ids.len(),
        position_from(ids, id, i) < ids.len() ==> ids[position_from(ids, id, i)] == id,
    decreases ids.len() - i,
{
    if i < ids.len() && ids[i] != id {
        lemma_position_bounds(ids, id, i + 1);
    }
}

/// Visiting a node along a path that follows the links finds only cycles of
/// the graph.
pub proof fn lemma_search_node_finds_cycles(
    links: Seq<Link>,
    node: Seq<char>,
    path: Seq<Seq<char>>,
    visited: Seq<Seq<char>>,
)
    requires
        follows_links(links, path.push(node)),
    ensures
        all_cycles(links, search_node(links, node, path, visited).cycles),
    decreases unvisited(links, visited.push(node)), links.len() + 1,
{
    lemma_search_links_finds_cycles(links, node, 0, path.push(node), visited.push(node));
}

/// A link of the last id of a path that follows the links adds only cycles
/// of the graph.
pub proof fn lemma_search_link_finds_cycles(
    links: Seq<Link>,
    node: Seq<char>,
    k: int,
    path: Seq<Seq<char>>,
    visited: Seq<Seq<char>>,
)
    requires
        follows_links(links, path),
        path.len() > 0,
        path.last() == node,
    ensures
        all_cycles(links, search_link(links, node, k, path, visited).cycles),
    decreases unvisited(links, visited), links.len() - k, 1int,
{
    if 0 <= k < links.len() && links[k].0 == node {
        let next = links[k].1;
        if !holds(visited, next) {
            lemma_visit_falls(links, visited, k);
            assert(follows_links(links, path.push(next))) by {
                assert forall|i: int| 0 <= i && i + 1 < path.push(next).len() implies has_link(
                    links,
                    #[trigger] path.push(next)[i],
                    path.push(next)[i + 1],
                ) by {
                    if i + 1 < path.len() {
                        assert(has_link(links, path[i], path[i + 1]));
                    } else {
                        assert(links[k] == (node, next));
                    }
                }
            }
            lemma_search_node_finds_cycles(links, next, path, visited);
        } else if holds(path, next) {
            lemma_position_bounds(path, next, 0);
            let start = position(path, next);
            let cycle = path.subrange(start, path.len() as int);
            assert(is_cycle(links, cycle)) by {
                assert forall|i: int| 0 <= i && i + 1 < cycle.len() implies has_link(
                    links,
                    #[trigger] cycle[i],
                    cycle[i + 1],
                ) by {
                    assert(has_link(links, path[start + i], path[start + i + 1]));
                }
                assert(links[k] == (cycle.last(), cycle.first()));
            }
            assert(seq![cycle][0] == cycle);
        }
    }
}

/// Following the links of the last id of a path that follows the links
/// finds only cycles of the graph.
pub proof fn lemma_search_links_finds_cycles(
    links: Seq<Link>,
    node: Seq<char>,
    k: int,
    path: Seq<Seq<char>>,
    visited: Seq<Seq<char>>,
)
    requires
        follows_links(links, path),
        path.len() > 0,
        path.last() == node,
    ensures
        all_cycles(links, search_links(links, node, k, path, visited).cycles),
    decreases unvisited(links, visited), links.len() - k, 2int,
{
    if 0 <= k < links.len() {
        let step = search_link(links, node, k, path, visited);
        lemma_search_link_finds_cycles(links, node, k, path, visited);
        lemma_append_falls(links, visited, step.visited);
        lemma_search_links_finds_cycles(links, node, k + 1, path, visited + step.visited);
        let rest = search_links(links, node, k + 1, path, visited + step.visited);
        lemma_all_cycles_of_both(links, step.cycles, rest.cycles);
    }
}

/// Cycles of the graph, one list after another, are cycles of the graph.
pub proof fn lemma_all_cycles_of_both(
    links: Seq<Link>,
    first: Seq<Seq<Seq<char>>>,
    second: Seq<Seq<Seq<char>>>,
)
    requires
        all_cycles(links, first),
        all_cycles(links, second),
    ensures
        all_cycles(links, first + second),
{
    assert forall|c: int| 0 <= c < (first + second).len() implies is_cycle(
        links,
        #[trigger] (first + second)[c],
    ) by {
        if c < first.len() {
            assert((first + second)[c] == first[c]);
        } else {
            assert((first + second)[c] == second[c - first.len()]);
        }
    }
}

/// Searching from the roots finds only cycles of the graph.
pub proof fn lemma_search_roots_finds_cycles(links: Seq<Link>, k: int, visited: Seq<Seq<char>>)
    ensures
        all_cycles(links, search_roots(links, k, visited).cycles),
    decreases links.len() - k,
{
    if 0 <= k < links.len() {
        let step = search_root(links, k, visited);
        if !holds(visited, links[k].0) {
            assert(Seq::<Seq<char>>::empty().push(links[k].0).len() == 1);
            lemma_search_node_finds_cycles(links, links[k].0, Seq::empty(), visited);
        }
        lemma_search_roots_finds_cycles(links, k + 1, visited + step.visited);
        let rest = search_roots(links, k + 1, visited + step.visited);
        lemma_all_cycles_of_both(links, step.cycles, rest.cycles);
    }
}

/// Cycle soundness. Every cycle found in a graph is a cycle of the graph:
/// each of its ids has an edge to the id after it, and its last id has an
/// edge back to its first. And where the edges are flagged by the cycles
/// found, the two ends of every edge flagged as circular are adjacent on one
/// of these cycles.
pub proof fn lemma_cycle_soundness(edges: Seq<DependencyEdge>)
    ensures
        forall|c: int|
            0 <= c < cycles_of(links_of(edges)).len() ==> is_cycle(
                links_of(edges),
                #[trigger] cycles_of(links_of(edges))[c],
            ),
        flags_follow_cycles(edges) ==> forall|k: int|
            0 <= k < edges.len() && (#[trigger] edges[k]).is_circular ==> on_cycle(
                cycles_of(links_of(edges)),
                edges[k].from@,
                edges[k].to@,
            ),
{
    lemma_search_roots_finds_cycles(links_of(edges), 0, Seq::empty());
}

/// Number of link ends that are `id`: the links that leave it and the links
/// that reach it, a link from an id to itself counting twice.
pub open spec fn degree(links: Seq<Link>, id: Seq<char>) -> nat
    decreases links.len(),
{
    if links.len() == 0 {
        0
    } else {
        degree(links.drop_last(), id) + if links.last().0 == id {
            1nat
        } else {
            0nat
        } + if links.last().1 == id {
            1nat
        } else {
            0nat
        }
    }
}

/// The link ends in order: the source of the first link, its target, the
/// source of the second link, and so on.
pub open spec fn endpoint(links: Seq<Link>, e: int) -> Seq<char> {
    if e % 2 == 0 {
        links[e / 2].0
    } else {
        links[e / 2].1
    }
}

/// `id` is the most connected id of the graph: no id has a higher degree,
/// and every id that comes before its first occurrence among the link ends
/// has a lower one.
pub open spec fn is_most_connected(links: Seq<Link>, id: Seq<char>) -> bool {
    exists|e: int|
        {
            &&& 0 <= e < 2 * links.len()
            &&& #[trigger] endpoint(links, e) == id
            &&& forall|f: int|
                0 <= f < 2 * links.len() ==> degree(links, #[trigger] endpoint(links, f)) <= degree(
                    links,
                    id,
                )
            &&& forall|f: int|
                0 <= f < e ==> degree(links, #[trigger] endpoint(links, f)) < degree(links, id)
        }
}

/// The quotient `count / n`, and zero where `n` is zero.
pub open spec fn per_node(count: nat, n: nat) -> Ratio {
    if n == 0 {
        Ratio { num: 0, den: 1 }
    } else {
        Ratio { num: count as u128, den: n as u128 }
    }
}

/// Metrics about dependencies.
#[derive(Debug, Clone, PartialEq, Eq)]
pub struct DependencyMetrics {
    pub total_dependencies: usize,
    pub circular_dependencies: usize,
    pub dependency_density: Ratio,
    pub average_dependencies_per_node: Ratio,
    pub most_connected_node: Option<String>,
}

/// The strength of every dependency is 10 tenths: the base alone reaches the
/// cap.
pub proof fn lemma_strength_is_flat(source: ArchitectureNode, target: ArchitectureNode)
    ensures
        strength_tenths(source, target) == 10,
{
}

/// Finds the first occurrence of `id` among `ids`.
pub fn position_of(ids: &Vec<String>, id: &String) -> (i: usize)
    ensures
        i == position(ids.deep_view(), id@),
        i <= ids.len(),
{
    let mut i: usize = 0;
    while i < ids.len()
        invariant
            i <= ids.len(),
            position_from(ids.deep_view(), id@, i as int) == position(ids.deep_view(), id@),
        decreases ids.len() - i,
    {
        if ids[i] == *id {
            return i;
        }
        i = i + 1;
    }
    i
}

/// Copies the ids from index `start` on.
pub fn ids_from(ids: &Vec<String>, start: usize) -> (tail: Vec<String>)
    requires
        start <= ids.len(),
    ensures
        tail.deep_view() == ids.deep_view().subrange(start as int, ids.len() as int),
{
    let mut tail: Vec<String> = Vec::new();
    let mut i: usize = start;
    while i < ids.len()
        invariant
            start <= i <= ids.len(),
            tail.deep_view() =~= ids.deep_view().subrange(start as int, i as int),
        decreases ids.len() - i,
    {
        let ghost before = tail.deep_view();
        tail.push(ids[i].clone());
        assert(tail.deep_view() =~= before.push(ids@[i as int]@));
        i = i + 1;
    }
    tail
}

/// Tells whether `a` is directly followed by `b` on the cycle, the last id
/// of the cycle being followed by the first.
pub fn is_adjacent_in(cycle: &Vec<String>, a: &String, b: &String) -> (found: bool)
    ensures
        found == adjacent_in(cycle.deep_view(), a@, b@),
{
    let n = cycle.len();
    let mut i: usize = 0;
    while i < n
        invariant
            n == cycle.len(),
            i <= n,
            forall|j: int|
                0 <= j < i ==> !(#[trigger] cycle.deep_view()[j] == a@ && cycle.deep_view()[next_on(
                    n as int,
                    j,
                )] == b@),
        decreases n - i,
    {
        let next = if i + 1 < n {
            i + 1
        } else {
            0
        };
        if cycle[i] == *a && cycle[next] == *b {
            assert(cycle.deep_view()[i as int] == a@ && cycle.deep_view()[next_on(
                n as int,
                i as int,
            )] == b@);
            return true;
        }
        i = i + 1;
    }
    false
}

/// Tells whether the two ids are adjacent, in either order, on one of the
/// cycles.
pub fn is_on_cycle(cycles: &Vec<Vec<String>>, from: &String, to: &String) -> (found: bool)
    ensures
        found == on_cycle(cycles.deep_view(), from@, to@),
{
    let mut c: usize = 0;
    while c < cycles.len()
        invariant
            c <= cycles.len(),
            forall|d: int|
                0 <= d < c ==> !(adjacent_in(#[trigger] cycles.deep_view()[d], from@, to@)
                    || adjacent_in(cycles.deep_view()[d], to@, from@)),
        decreases cycles.len() - c,
    {
        if is_adjacent_in(&cycles[c], from, to) || is_adjacent_in(&cycles[c], to, from) {
            assert(adjacent_in(cycles.deep_view()[c as int], from@, to@) || adjacent_in(
                cycles.deep_view()[c as int],
                to@,
                from@,
            ));
            return true;
        }
        c = c + 1;
    }
    false
}

/// Counts the edge ends that are `id`.
pub fn degree_of(edges: &[DependencyEdge], id: &String) -> (d: u128)
    ensures
        d == degree(links_of(edges@), id@),
{
    let ghost links = links_of(edges@);
    let mut d: u128 = 0;
    let mut k: usize = 0;
    while k < edges.len()
        invariant
            k <= edges.len(),
            links == links_of(edges@),
            d <= 2 * k,
            d == degree(links.take(k as int), id@),
        decreases edges.len() - k,
    {
        assert(links.take(k + 1).drop_last() =~= links.take(k as int));
        if edges[k].from == *id {
            d = d + 1;
        }
        if edges[k].to == *id {
            d = d + 1;
        }
        k = k + 1;
    }
    assert(links.take(edges@.len() as int) =~= links);
    d
}

/// Analyzes dependencies between modules.
pub struct DependencyAnalyzer {}

impl DependencyAnalyzer {
    /// An analyzer; it keeps no state.
    pub fn new() -> (analyzer: Self) {
        Self {  }
    }

    /// Finds a module by its name: the index of the first with that name.
    pub fn find_node_by_name(&self, nodes: &Vec<ArchitectureNode>, name: &String) -> (found: Option<
        usize,
    >)
        ensures
            match found {
                Some(i) => resolve(nodes@, name@) == Some(i as int),
                None => resolve(nodes@, name@) is None,
            },
    {
        let mut i: usize = 0;
        while i < nodes.len()
            invariant
                i <= nodes.len(),
                resolve_from(nodes@, name@, i as int) == resolve_from(nodes@, name@, 0),
            decreases nodes.len() - i,
        {
            if nodes[i].name == *name {
                return Some(i);
            }
            i = i + 1;
        }
        None
    }

    /// Determines how the source relates to the target, by their kinds.
    pub fn determine_relationship_type(
        &self,
        source: &ArchitectureNode,
        target: &ArchitectureNode,
    ) -> (kind: DependencyType)
        ensures
            kind == relationship(source.module_type, target.module_type),
    {
        match (&source.module_type, &target.module_type) {
            (ModuleType::API, ModuleType::Core) => DependencyType::Uses,
            (ModuleType::Core, ModuleType::DataProcessing) => DependencyType::Uses,
            (ModuleType::Execution, ModuleType::Core) => DependencyType::Uses,
            (ModuleType::Integration, ModuleType::API) => DependencyType::Uses,
            (ModuleType::Testing, _) => DependencyType::Uses,
            _ => DependencyType::DependsOn,
        }
    }

    /// Calculates the strength of the dependency of the source on the
    /// target, in tenths.
    pub fn calculate_dependency_strength(
        &self,
        source: &ArchitectureNode,
        target: &ArchitectureNode,
    ) -> (strength: u64)
        ensures
            strength == strength_tenths(*source, *target),
            strength == 10,
    {
        let mut strength: u128 = 10;
        strength = strength + source.dependencies.len() as u128;
        if matches!(target.module_type, ModuleType::Core) {
            strength = strength + 5;
        }
        if matches!(source.module_type, ModuleType::API) {
            strength = strength + 3;
        }
        if strength > 10 {
            10
        } else {
            strength as u64
        }
    }

    /// Builds the edges of the graph: one for each dependency name of each
    /// module that resolves to a module, the modules and the names of each in
    /// order, and each edge flagged where it lies on a cycle.
    pub fn analyze_dependencies(&self, nodes: &Vec<ArchitectureNode>) -> (edges: Vec<
        DependencyEdge,
    >)
        ensures
            edges_connect(edges@, nodes@, edge_ends(nodes@)),
            flags_follow_cycles(edges@),
    {
        let mut edges: Vec<DependencyEdge> = Vec::new();
        let mut i: usize = 0;
        while i < nodes.len()
            invariant
                i <= nodes.len(),
                edges_connect(edges@, nodes@, ends_of_nodes(nodes@, i as int)),
            decreases nodes.len() - i,
        {
            let source = &nodes[i];
            let mut k: usize = 0;
            assert(ends_of_nodes(nodes@, i as int) + ends_of_node(nodes@, i as int, 0)
                =~= ends_of_nodes(nodes@, i as int));
            while k < source.dependencies.len()
                invariant
                    i < nodes.len(),
                    source == &nodes@[i as int],
                    k <= source.dependencies@.len(),
                    edges_connect(
                        edges@,
                        nodes@,
                        ends_of_nodes(nodes@, i as int) + ends_of_node(nodes@, i as int, k as int),
                    ),
                decreases source.dependencies.len() - k,
            {
                let ghost before = ends_of_nodes(nodes@, i as int) + ends_of_node(
                    nodes@,
                    i as int,
                    k as int,
                );
                let ghost edges_before = edges@;
                if let Some(t) = self.find_node_by_name(nodes, &source.dependencies[k]) {
                    let target = &nodes[t];
                    edges.push(
                        DependencyEdge {
                            from: source.id.clone(),
                            to: target.id.clone(),
                            relationship: self.determine_relationship_type(source, target),
                            strength: self.calculate_dependency_strength(source, target),
                            is_circular: false,
                        },
                    );
                    let ghost after = before.push((i as int, t as int));
                    assert(ends_of_nodes(nodes@, i as int) + ends_of_node(nodes@, i as int, k + 1)
                        =~= after);
                    assert forall|j: int|
                        #![trigger edges@[j]]
                        #![trigger after[j]]
                        0 <= j < edges@.len() implies {
                        &&& 0 <= after[j].0 < nodes@.len()
                        &&& 0 <= after[j].1 < nodes@.len()
                        &&& connects(edges@[j], nodes@[after[j].0], nodes@[after[j].1])
                    } by {
                        if j < edges_before.len() {
                            assert(edges@[j] == edges_before[j]);
                            assert(after[j] == before[j]);
                        }
                    }
                } else {
                    assert(ends_of_nodes(nodes@, i as int) + ends_of_node(nodes@, i as int, k + 1)
                        =~= before);
                }
                k = k + 1;
            }
            i = i + 1;
        }
        let ghost plain = edges@;
        self.update_circular_dependencies(&mut edges);
        proof {
            let ends = edge_ends(nodes@);
            assert forall|j: int|
                #![trigger edges@[j]]
                #![trigger ends[j]]
                0 <= j < edges@.len() implies {
                &&& 0 <= ends[j].0 < nodes@.len()
                &&& 0 <= ends[j].1 < nodes@.len()
                &&& connects(edges@[j], nodes@[ends[j].0], nodes@[ends[j].1])
            } by {
                assert(connects(plain[j], nodes@[ends[j].0], nodes@[ends[j].1]));
            }
        }
        edges
    }

    /// Sets the circularity flag of each edge: on where its two ends are
    /// adjacent, in either order, on one of the cycles of the graph, the last
    /// id of a cycle being followed by the first. Nothing else changes.
    pub fn update_circular_dependencies(&self, edges: &mut Vec<DependencyEdge>)
        ensures
            final(edges)@.len() == old(edges)@.len(),
            forall|k: int|
                0 <= k < old(edges)@.len() ==> {
                    &&& (#[trigger] final(edges)@[k]).from == old(edges)@[k].from
                    &&& final(edges)@[k].to == old(edges)@[k].to
                    &&& final(edges)@[k].relationship == old(edges)@[k].relationship
                    &&& final(edges)@[k].strength == old(edges)@[k].strength
                },
            links_of(final(edges)@) == links_of(old(edges)@),
            flags_follow_cycles(final(edges)@),
    {
        let cycles = self.find_circular_dependencies(edges.as_slice());
        let ghost before = edges@;
        let mut i: usize = 0;
        while i < edges.len()
            invariant
                i <= edges.len(),
                edges@.len() == before.len(),
                cycles.deep_view() == cycles_of(links_of(before)),
                forall|k: int|
                    0 <= k < before.len() ==> {
                        &&& (#[trigger] edges@[k]).from == before[k].from
                        &&& edges@[k].to == before[k].to
                        &&& edges@[k].relationship == before[k].relationship
                        &&& edges@[k].strength == before[k].strength
                    },
                forall|k: int|
                    0 <= k < i ==> (#[trigger] edges@[k]).is_circular == on_cycle(
                        cycles_of(links_of(before)),
                        before[k].from@,
                        before[k].to@,
                    ),
            decreases edges.len() - i,
        {
            let flagged = DependencyEdge {
                from: edges[i].from.clone(),
                to: edges[i].to.clone(),
                relationship: edges[i].relationship,
                strength: edges[i].strength,
                is_circular: is_on_cycle(&cycles, &edges[i].from, &edges[i].to),
            };
            edges.set(i, flagged);
            i = i + 1;
        }
        assert(links_of(edges@) =~= links_of(before));
    }

    /// Calculates the dependency metrics of a graph.
    pub fn calculate_dependency_metrics(
        &self,
        nodes: &Vec<ArchitectureNode>,
        edges: &[DependencyEdge],
    ) -> (m: DependencyMetrics)
        ensures
            m.total_dependencies == edges@.len(),
            m.circular_dependencies == cycles_of(links_of(edges@)).len(),
            m.dependency_density == density(nodes@.len(), edges@.len()),
            m.average_dependencies_per_node == per_node(edges@.len(), nodes@.len()),
            match m.most_connected_node {
                Some(id) => is_most_connected(links_of(edges@), id@),
                None => edges@.len() == 0,
            },
    {
        let node_count = nodes.len();
        let edge_count = edges.len();
        let cycles = self.find_circular_dependencies(edges);
        proof {
            lemma_density_bounds(node_count as nat, edge_count as nat);
        }
        let dependency_density = if node_count <= 1 {
            Ratio::zero()
        } else {
            let n = node_count as u128;
            Ratio { num: edge_count as u128, den: n * (n - 1) }
        };
        let average_dependencies_per_node = if node_count == 0 {
            Ratio::zero()
        } else {
            Ratio { num: edge_count as u128, den: node_count as u128 }
        };
        DependencyMetrics {
            total_dependencies: edge_count,
            circular_dependencies: cycles.len(),
            dependency_density,
            average_dependencies_per_node,
            most_connected_node: self.most_connected_node(edges),
        }
    }

    /// Finds the most connected id of a graph, if the graph has an edge.
    pub fn most_connected_node(&self, edges: &[DependencyEdge]) -> (found: Option<String>)
        ensures
            match found {
                Some(id) => is_most_connected(links_of(edges@), id@),
                None => edges@.len() == 0,
            },
    {
        if edges.len() == 0 {
            return None;
        }
        let ghost links = links_of(edges@);
        let mut best: String = edges[0].from.clone();
        let mut best_degree: u128 = degree_of(edges, &best);
        let ghost mut best_at: int = 0;
        let mut k: usize = 0;
        while k < edges.len()
            invariant
                k <= edges.len(),
                0 < edges.len(),
                links == links_of(edges@),
                0 <= best_at < 2 * links.len(),
                endpoint(links, best_at) == best@,
                best_degree == degree(links, best@),
                forall|f: int|
                    0 <= f < 2 * k ==> degree(links, #[trigger] endpoint(links, f)) <= best_degree,
                forall|f: int|
                    0 <= f < best_at ==> degree(links, #[trigger] endpoint(links, f)) < best_degree,
            decreases edges.len() - k,
        {
            assert(endpoint(links, 2 * k) == edges@[k as int].from@);
            assert(endpoint(links, 2 * k + 1) == edges@[k as int].to@);
            let from_degree = degree_of(edges, &edges[k].from);
            if from_degree > best_degree {
                best = edges[k].from.clone();
                best_degree = from_degree;
                proof {
                    best_at = 2 * k;
                }
            }
            let to_degree = degree_of(edges, &edges[k].to);
            if to_degree > best_degree {
                best = edges[k].to.clone();
                best_degree = to_degree;
                proof {
                    best_at = 2 * k + 1;
                }
            }
            assert forall|f: int| 0 <= f < 2 * (k + 1) implies degree(
                links,
                #[trigger] endpoint(links, f),
            ) <= best_degree by {
                if f == 2 * k {
                } else if f == 2 * k + 1 {
                }
            }
            k = k + 1;
        }
        assert(endpoint(links, best_at) == best@);
        Some(best)
    }

    /// Finds the cycles of the graph with a depth-first search.
    pub fn find_circular_dependencies(&self, edges: &[DependencyEdge]) -> (cycles: Vec<Vec<String>>)
        ensures
            cycles.deep_view() == cycles_of(links_of(edges@)),
    {
        let mut visited: Vec<String> = Vec::new();
        let mut cycles: Vec<Vec<String>> = Vec::new();
        let mut path: Vec<String> = Vec::new();
        let ghost links = links_of(edges@);
        assert(visited.deep_view() =~= Seq::empty());
        assert(cycles.deep_view() =~= Seq::empty());
        assert(path.deep_view() =~= Seq::empty());
        assert(cycles.deep_view() + cycles_of(links) =~= cycles_of(links));
        let mut k: usize = 0;
        while k < edges.len()
            invariant
                k <= edges.len(),
                links == links_of(edges@),
                path.deep_view() == Seq::<Seq<char>>::empty(),
                cycles.deep_view() + search_roots(links, k as int, visited.deep_view()).cycles
                    == cycles_of(links),
            decreases edges.len() - k,
        {
            let ghost seen = visited.deep_view();
            let ghost found = cycles.deep_view();
            let ghost step = search_root(links, k as int, seen);
            if position_of(&visited, &edges[k].from) == visited.len() {
                self.dfs_find_cycles(&edges[k].from, edges, &mut visited, &mut path, &mut cycles);
            }
            proof {
                let rest = search_roots(links, k + 1, seen + step.visited);
                assert(visited.deep_view() =~= seen + step.visited);
                assert(cycles.deep_view() =~= found + step.cycles);
                assert((found + step.cycles) + rest.cycles =~= found + (step.cycles + rest.cycles));
            }
            k = k + 1;
        }
        assert(cycles.deep_view() + Seq::<Seq<Seq<char>>>::empty() =~= cycles.deep_view());
        cycles
    }

    /// Visits `node` in the depth-first search: marks it as visited and
    /// follows the edges that leave it, recording a cycle for each edge that
    /// leads back onto the path. `path` holds the ids from the root of the
    /// search down to the node from which `node` was reached, and is the same
    /// afterwards.
    pub fn dfs_find_cycles(
        &self,
        node: &String,
        edges: &[DependencyEdge],
        visited: &mut Vec<String>,
        path: &mut Vec<String>,
        cycles: &mut Vec<Vec<String>>,
    )
        ensures
            final(visited).deep_view() == old(visited).deep_view() + search_node(
                links_of(edges@),
                node@,
                old(path).deep_view(),
                old(visited).deep_view(),
            ).visited,
            final(cycles).deep_view() == old(cycles).deep_view() + search_node(
                links_of(edges@),
                node@,
                old(path).deep_view(),
                old(visited).deep_view(),
            ).cycles,
            final(path).deep_view() == old(path).deep_view(),
        decreases unvisited(links_of(edges@), old(visited).deep_view().push(node@)),
    {
        let ghost links = links_of(edges@);
        let ghost path_before = path.deep_view();
        let ghost visited_before = visited.deep_view();
        let ghost cycles_before = cycles.deep_view();
        visited.push(node.clone());
        path.push(node.clone());
        let ghost entered = visited_before.push(node@);
        let ghost longer = path_before.push(node@);
        assert(visited.deep_view() =~= entered);
        assert(path.deep_view() =~= longer);
        let ghost goal = search_links(links, node@, 0, longer, entered);
        let ghost mut more: Seq<Seq<char>> = Seq::empty();
        let ghost mut found: Seq<Seq<Seq<char>>> = Seq::empty();
        assert(entered + more =~= entered);
        assert(cycles_before + found =~= cycles_before);
        assert(more + goal.visited =~= goal.visited);
        assert(found + goal.cycles =~= goal.cycles);
        let mut k: usize = 0;
        while k < edges.len()
            invariant
                k <= edges.len(),
                links == links_of(edges@),
                entered == visited_before.push(node@),
                path.deep_view() == longer,
                visited.deep_view() == entered + more,
                cycles.deep_view() == cycles_before + found,
                more + search_links(links, node@, k as int, longer, entered + more).visited
                    == goal.visited,
                found + search_links(links, node@, k as int, longer, entered + more).cycles
                    == goal.cycles,
                unvisited(links, entered) == unvisited(
                    links_of(edges@),
                    old(visited).deep_view().push(node@),
                ),
            decreases edges.len() - k,
        {
            let ghost seen = entered + more;
            let ghost step = search_link(links, node@, k as int, longer, seen);
            let ghost rest = search_links(links, node@, k + 1, longer, seen + step.visited);
            if edges[k].from == *node {
                let next = &edges[k].to;
                if position_of(visited, next) == visited.len() {
                    proof {
                        lemma_visit_falls(links, seen, k as int);
                        lemma_append_falls(links, entered, more);
                    }
                    self.dfs_find_cycles(next, edges, visited, path, cycles);
                } else {
                    let start = position_of(path, next);
                    if start < path.len() {
                        let ghost before = cycles.deep_view();
                        let cycle = ids_from(path, start);
                        cycles.push(cycle);
                        assert(cycles.deep_view() =~= before + seq![
                            longer.subrange(start as int, longer.len() as int),
                        ]);
                    }
                }
            }
            proof {
                assert(visited.deep_view() =~= seen + step.visited);
                assert(cycles.deep_view() =~= (cycles_before + found) + step.cycles);
                assert(seen + step.visited =~= entered + (more + step.visited));
                assert((cycles_before + found) + step.cycles =~= cycles_before + (found
                    + step.cycles));
                assert((more + step.visited) + rest.visited =~= more + (step.visited
                    + rest.visited));
                assert((found + step.cycles) + rest.cycles =~= found + (step.cycles + rest.cycles));
                more = more + step.visited;
                found = found + step.cycles;
            }
            k = k + 1;
        }
        let ghost full = path.deep_view();
        path.pop();
        proof {
            assert(path.deep_view() =~= full.drop_last());
            assert(more + Seq::<Seq<char>>::empty() =~= more);
            assert(found + Seq::<Seq<Seq<char>>>::empty() =~= found);
            assert(entered + more =~= visited_before + (seq![node@] + more));
        }
    }
}

} // verus!
