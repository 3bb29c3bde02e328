//! Assembly of the architecture map from the modules of a scan.

use crate::scanner::dependency_analyzer::{
    connects, cycles_of, edge_ends, edges_connect, flags_follow_cycles, is_cycle,
    lemma_cycle_soundness, links_of, on_cycle, DependencyAnalyzer,
};
use crate::scanner::metrics_calculator::{
    density, is_kind_distribution, lemma_density_bounds, lemma_maintainability_bounds,
    maintainability, max_complexity, mean, min_complexity, sum_counter, total, Counter,
    MetricsCalculator,
};
use crate::types::{
    ArchitectureMap, ArchitectureMetrics, ArchitectureNode, DependencyEdge, Ratio, Timestamp,
};
use vstd::prelude::*;
use vstd::string::StringExecFns;

verus! {

/// The sources of the links that reach `id`, in the order of the links.
pub open spec fn dependents_of<T>(links: Seq<(T, T)>, id: T) -> Seq<T>
    decreases links.len(),
{
    if links.len() == 0 {
        Seq::empty()
    } else if links.last().1 == id {
        dependents_of(links.drop_last(), id).push(links.last().0)
    } else {
        dependents_of(links.drop_last(), id)
    }
}

/// Number of links that leave `id`.
pub open spec fn outgoing<T>(links: Seq<(T, T)>, id: T) -> nat
    decreases links.len(),
{
    if links.len() == 0 {
        0
    } else {
        outgoing(links.drop_last(), id) + if links.last().0 == id {
            1nat
        } else {
            0nat
        }
    }
}

/// `linked` is the module `node` with its place in the graph filled in: its
/// dependents are the sources of the edges that reach it, and its two counts
/// are the numbers of edges that leave and that reach it. Everything else is
/// as in `node`.
pub open spec fn is_linked(
    linked: ArchitectureNode,
    node: ArchitectureNode,
    edges: Seq<DependencyEdge>,
) -> bool {
    &&& linked.dependents.deep_view() == dependents_of(links_of(edges), node.id@)
    &&& linked.metrics.dependency_count == outgoing(links_of(edges), node.id@)
    &&& linked.metrics.dependent_count == dependents_of(links_of(edges), node.id@).len()
    &&& linked.id == node.id
    &&& linked.name == node.name
    &&& linked.module_type == node.module_type
    &&& linked.file_path == node.file_path
    &&& linked.dependencies == node.dependencies
    &&& linked.status == node.status
    &&& linked.last_modified == node.last_modified
    &&& linked.functions == node.functions
    &&& linked.structs == node.structs
    &&& linked.enums == node.enums
    &&& linked.traits == node.traits
    &&& linked.position == node.position
    &&& linked.metrics.lines_of_code == node.metrics.lines_of_code
    &&& linked.metrics.complexity_score == node.metrics.complexity_score
    &&& linked.metrics.test_coverage == node.metrics.test_coverage
    &&& linked.metrics.function_count == node.metrics.function_count
    &&& linked.metrics.struct_count == node.metrics.struct_count
    &&& linked.metrics.enum_count == node.metrics.enum_count
    &&& linked.metrics.trait_count == node.metrics.trait_count
    &&& linked.metrics.last_build_time == node.metrics.last_build_time
    &&& linked.metrics.error_count == node.metrics.error_count
    &&& linked.metrics.warning_count == node.metrics.warning_count
    &&& linked.metrics.cyclomatic_complexity == node.metrics.cyclomatic_complexity
    &&& linked.metrics.cognitive_complexity == node.metrics.cognitive_complexity
}

/// `m` holds the metrics of the graph of `nodes` with `edges` edges.
pub open spec fn is_graph_metrics(
    m: ArchitectureMetrics,
    nodes: Seq<ArchitectureNode>,
    edges: nat,
) -> bool {
    &&& m.total_functions == total(nodes, Counter::Functions)
    &&& m.total_structs == total(nodes, Counter::Structs)
    &&& m.total_enums == total(nodes, Counter::Enums)
    &&& m.total_traits == total(nodes, Counter::Traits)
    &&& m.max_complexity == max_complexity(nodes)
    &&& m.min_complexity == min_complexity(nodes)
    &&& m.dependency_density == density(nodes.len(), edges)
    &&& is_kind_distribution(m.kind_distribution@, nodes)
    &&& m.maintainability_index == maintainability(nodes)
}

/// `map` is the architecture of `nodes`, scanned at `last_scan`: it holds
/// the modules in their order, each linked into the graph; the edges that
/// their dependency names give, flagged by the cycles found; these cycles;
/// and the totals and metrics of the graph.
pub open spec fn is_architecture_of(
    map: ArchitectureMap,
    nodes: Seq<ArchitectureNode>,
    last_scan: Timestamp,
) -> bool {
    &&& map.nodes@.len() == nodes.len()
    &&& forall|i: int|
        0 <= i < nodes.len() ==> is_linked(#[trigger] map.nodes@[i], nodes[i], map.edges@)
    &&& edges_connect(map.edges@, nodes, edge_ends(nodes))
    &&& flags_follow_cycles(map.edges@)
    &&& map.last_scan == last_scan
    &&& map.total_modules == nodes.len()
    &&& map.total_lines == total(nodes, Counter::Lines)
    &&& map.average_complexity == mean(nodes, Counter::Complexity, 10)
    &&& map.circular_dependencies.deep_view() == cycles_of(links_of(map.edges@))
    &&& is_graph_metrics(map.metrics, nodes, map.edges@.len())
}

/// No two of the modules share an id.
pub open spec fn distinct_ids(nodes: Seq<ArchitectureNode>) -> bool {
    forall|i: int, j: int|
        0 <= i < j < nodes.len() ==> (#[trigger] nodes[i]).id@ != (#[trigger] nodes[j]).id@
}

/// Some module has the id `id`.
pub open spec fn has_id(nodes: Seq<ArchitectureNode>, id: Seq<char>) -> bool {
    exists|i: int| 0 <= i < nodes.len() && (#[trigger] nodes[i]).id@ == id
}

/// Index of the first of the modules from `i` on that has the id `id`, or
/// the number of modules where none has.
pub open spec fn id_position(nodes: Seq<ArchitectureNode>, id: Seq<char>, i: int) -> int
    decreases nodes.len() - i,
{
    if i < 0 || i >= nodes.len() {
        nodes.len() as int
    } else if nodes[i].id@ == id {
        i
    } else {
        id_position(nodes, id, i + 1)
    }
}

/// The first module with an id lies where `id_position` says, and no module
/// before it has the id.
pub proof fn lemma_id_position(nodes: Seq<ArchitectureNode>, id: Seq<char>, i: int)
    requires
        0 <= i <= nodes.len(),
    ensures
        i <= id_position(nodes, id, i) <= nodes.len(),
        id_position(nodes, id, i) < nodes.len() ==> nodes[id_position(nodes, id, i)].id@ == id,
        forall|j: int| i <= j < id_position(nodes, id, i) ==> (#[trigger] nodes[j]).id@ != id,
    decreases nodes.len() - i,
{
    if i < nodes.len() && nodes[i].id@ != id {
        lemma_id_position(nodes, id, i + 1);
    }
}

/// The length of the longest id of the modules.
pub open spec fn longest_id(nodes: Seq<ArchitectureNode>) -> nat
    decreases nodes.len(),
{
    if nodes.len() == 0 {
        0
    } else if nodes.last().id@.len() > longest_id(nodes.drop_last()) {
        nodes.last().id@.len()
    } else {
        longest_id(nodes.drop_last())
    }
}

/// Some module has the id `id`, which is then no longer than the longest id.
pub proof fn lemma_id_in_use(nodes: Seq<ArchitectureNode>, id: Seq<char>)
    ensures
        has_id(nodes, id) <==> id_position(nodes, id, 0) < nodes.len(),
        has_id(nodes, id) ==> id.len() <= longest_id(nodes),
    decreases nodes.len(),
{
    lemma_id_position(nodes, id, 0);
    if has_id(nodes, id) {
        let i = choose|i: int| 0 <= i < nodes.len() && (#[trigger] nodes[i]).id@ == id;
        if i < nodes.len() - 1 {
            assert(nodes.drop_last()[i].id@ == id);
            lemma_id_in_use(nodes.drop_last(), id);
        }
    }
    if id_position(nodes, id, 0) < nodes.len() {
        assert(nodes[id_position(nodes, id, 0)].id@ == id);
    }
}

/// The id `id` where no module has it, and else the id lengthened by
/// hyphens until no module has it.
pub open spec fn unused_from(nodes: Seq<ArchitectureNode>, id: Seq<char>) -> Seq<char>
    decreases longest_id(nodes) + 1 - id.len(),
{
    if has_id(nodes, id) {
        proof {
            lemma_id_in_use(nodes, id);
        }
        unused_from(nodes, id.push('-'))
    } else {
        id
    }
}

/// No module has the id that `unused_from` gives.
pub proof fn lemma_unused_from(nodes: Seq<ArchitectureNode>, id: Seq<char>)
    ensures
        !has_id(nodes, unused_from(nodes, id)),
    decreases longest_id(nodes) + 1 - id.len(),
{
    if has_id(nodes, id) {
        lemma_id_in_use(nodes, id);
        lemma_unused_from(nodes, id.push('-'));
    }
}

/// The invariants of an architecture map: the modules are counted; every
/// edge joins two of the modules; an edge is flagged as circular exactly when
/// its two ends are adjacent on one of the cycles, the last id of a cycle
/// being followed by the first; every cycle is a cycle of the graph;
/// the dependency density is zero for fewer than two modules and at most one
/// where the edges are no more than the ordered pairs of distinct modules;
/// and the maintainability index lies between zero and one.
pub open spec fn is_consistent(map: ArchitectureMap) -> bool {
    let n = map.nodes@.len();
    let links = links_of(map.edges@);
    let cycles = map.circular_dependencies.deep_view();
    &&& map.total_modules == n
    &&& forall|k: int|
        0 <= k < map.edges@.len() ==> has_id(map.nodes@, (#[trigger] map.edges@[k]).from@)
            && has_id(map.nodes@, map.edges@[k].to@)
    &&& forall|k: int|
        0 <= k < map.edges@.len() ==> (#[trigger] map.edges@[k]).is_circular == on_cycle(
            cycles,
            map.edges@[k].from@,
            map.edges@[k].to@,
        )
    &&& forall|c: int| 0 <= c < cycles.len() ==> is_cycle(links, #[trigger] cycles[c])
    &&& map.metrics.dependency_density.den > 0
    &&& n <= 1 ==> map.metrics.dependency_density.is_zero()
    &&& map.edges@.len() <= n * (n - 1) ==> map.metrics.dependency_density.in_unit_interval()
    &&& map.metrics.maintainability_index.in_unit_interval()
}

/// The architecture of any modules is consistent, and where no two of the
/// modules share an id, no two modules of the architecture do.
pub proof fn lemma_architecture_is_consistent(
    map: ArchitectureMap,
    nodes: Seq<ArchitectureNode>,
    last_scan: Timestamp,
)
    requires
        is_architecture_of(map, nodes, last_scan),
        nodes.len() <= usize::MAX,
        map.edges@.len() <= usize::MAX,
    ensures
        is_consistent(map),
        distinct_ids(nodes) ==> distinct_ids(map.nodes@),
{
    lemma_cycle_soundness(map.edges@);
    lemma_density_bounds(nodes.len(), map.edges@.len());
    lemma_maintainability_bounds(nodes);
    let ends = edge_ends(nodes);
    assert forall|k: int| 0 <= k < map.edges@.len() implies has_id(
        map.nodes@,
        (#[trigger] map.edges@[k]).from@,
    ) && has_id(map.nodes@, map.edges@[k].to@) by {
        assert(is_linked(map.nodes@[ends[k].0], nodes[ends[k].0], map.edges@));
        assert(is_linked(map.nodes@[ends[k].1], nodes[ends[k].1], map.edges@));
    }
    if distinct_ids(nodes) {
        assert forall|i: int, j: int| 0 <= i < j < map.nodes@.len() implies (
        #[trigger] map.nodes@[i]).id@ != (#[trigger] map.nodes@[j]).id@ by {
            assert(is_linked(map.nodes@[i], nodes[i], map.edges@));
            assert(is_linked(map.nodes@[j], nodes[j], map.edges@));
        }
    }
}

/// Two architecture maps of the same modules, scanned at the same time,
/// agree: in their edges with their flags, in their cycles, in their totals
/// and metrics, and in how each module is linked into the graph.
pub proof fn lemma_architecture_is_determined(
    a: ArchitectureMap,
    b: ArchitectureMap,
    nodes: Seq<ArchitectureNode>,
    last_scan: Timestamp,
)
    requires
        is_architecture_of(a, nodes, last_scan),
        is_architecture_of(b, nodes, last_scan),
    ensures
        a.edges@.len() == b.edges@.len(),
        forall|k: int|
            0 <= k < a.edges@.len() ==> {
                &&& (#[trigger] a.edges@[k]).from@ == b.edges@[k].from@
                &&& a.edges@[k].to@ == b.edges@[k].to@
                &&& a.edges@[k].relationship == b.edges@[k].relationship
                &&& a.edges@[k].strength == b.edges@[k].strength
                &&& a.edges@[k].is_circular == b.edges@[k].is_circular
            },
        a.circular_dependencies.deep_view() == b.circular_dependencies.deep_view(),
        a.last_scan == b.last_scan,
        a.total_modules == b.total_modules,
        a.total_lines == b.total_lines,
        a.average_complexity == b.average_complexity,
        a.metrics.total_functions == b.metrics.total_functions,
        a.metrics.total_structs == b.metrics.total_structs,
        a.metrics.total_enums == b.metrics.total_enums,
        a.metrics.total_traits == b.metrics.total_traits,
        a.metrics.max_complexity == b.metrics.max_complexity,
        a.metrics.min_complexity == b.metrics.min_complexity,
        a.metrics.dependency_density == b.metrics.dependency_density,
        a.metrics.maintainability_index == b.metrics.maintainability_index,
        a.metrics.kind_distribution@.len() == b.metrics.kind_distribution@.len(),
        forall|d: int|
            0 <= d < a.metrics.kind_distribution@.len() ==> (
            #[trigger] a.metrics.kind_distribution@[d]) == b.metrics.kind_distribution@[d],
        a.nodes@.len() == b.nodes@.len(),
        forall|i: int|
            0 <= i < a.nodes@.len() ==> {
                &&& (#[trigger] a.nodes@[i]).id == b.nodes@[i].id
                &&& a.nodes@[i].dependents.deep_view() == b.nodes@[i].dependents.deep_view()
                &&& a.nodes@[i].metrics == b.nodes@[i].metrics
            },
{
    let ends = edge_ends(nodes);
    assert forall|k: int| 0 <= k < a.edges@.len() implies {
        &&& (#[trigger] a.edges@[k]).from@ == b.edges@[k].from@
        &&& a.edges@[k].to@ == b.edges@[k].to@
        &&& a.edges@[k].relationship == b.edges@[k].relationship
        &&& a.edges@[k].strength == b.edges@[k].strength
    } by {
        assert(connects(a.edges@[k], nodes[ends[k].0], nodes[ends[k].1]));
        assert(connects(b.edges@[k], nodes[ends[k].0], nodes[ends[k].1]));
    }
    assert(links_of(a.edges@) =~= links_of(b.edges@));
    assert forall|d: int| 0 <= d < a.metrics.kind_distribution@.len() implies (
    #[trigger] a.metrics.kind_distribution@[d]) == b.metrics.kind_distribution@[d] by {
        assert(b.metrics.kind_distribution@[d].kind == a.metrics.kind_distribution@[d].kind);
    }
    assert forall|i: int| 0 <= i < a.nodes@.len() implies {
        &&& (#[trigger] a.nodes@[i]).id == b.nodes@[i].id
        &&& a.nodes@[i].dependents.deep_view() == b.nodes@[i].dependents.deep_view()
        &&& a.nodes@[i].metrics == b.nodes@[i].metrics
    } by {
        assert(is_linked(a.nodes@[i], nodes[i], a.edges@));
        assert(is_linked(b.nodes@[i], nodes[i], b.edges@));
    }
}

/// Collects the ids of the sources of the edges that reach `id`.
pub fn collect_dependents(edges: &Vec<DependencyEdge>, id: &String) -> (dependents: Vec<String>)
    ensures
        dependents.deep_view() == dependents_of(links_of(edges@), id@),
        dependents@.len() <= edges@.len(),
{
    let ghost links = links_of(edges@);
    let mut dependents: Vec<String> = Vec::new();
    assert(dependents.deep_view() =~= Seq::empty());
    let mut k: usize = 0;
    while k < edges.len()
        invariant
            k <= edges.len(),
            links == links_of(edges@),
            dependents@.len() <= k,
            dependents.deep_view() == dependents_of(links.take(k as int), id@),
        decreases edges.len() - k,
    {
        assert(links.take(k + 1).drop_last() =~= links.take(k as int));
        if edges[k].to == *id {
            let ghost before = dependents.deep_view();
            dependents.push(edges[k].from.clone());
            assert(dependents.deep_view() =~= before.push(edges@[k as int].from@));
        }
        k = k + 1;
    }
    assert(links.take(edges@.len() as int) =~= links);
    dependents
}

/// Counts the edges that leave `id`.
pub fn count_outgoing(edges: &Vec<DependencyEdge>, id: &String) -> (n: usize)
    ensures
        n == outgoing(links_of(edges@), id@),
{
    let ghost links = links_of(edges@);
    let mut n: usize = 0;
    let mut k: usize = 0;
    while k < edges.len()
        invariant
            k <= edges.len(),
            links == links_of(edges@),
            n <= k,
            n == outgoing(links.take(k as int), id@),
        decreases edges.len() - k,
    {
        assert(links.take(k + 1).drop_last() =~= links.take(k as int));
        if edges[k].from == *id {
            n = n + 1;
        }
        k = k + 1;
    }
    assert(links.take(edges@.len() as int) =~= links);
    n
}

/// Links each module into the graph: fills in its dependents and its counts
/// of dependencies and dependents from the edges.
pub fn link_nodes(nodes: &mut Vec<ArchitectureNode>, edges: &Vec<DependencyEdge>)
    ensures
        final(nodes)@.len() == old(nodes)@.len(),
        forall|i: int|
            0 <= i < old(nodes)@.len() ==> is_linked(
                #[trigger] final(nodes)@[i],
                old(nodes)@[i],
                edges@,
            ),
{
    let ghost before = nodes@;
    let mut i: usize = 0;
    while i < nodes.len()
        invariant
            i <= nodes.len(),
            nodes@.len() == before.len(),
            forall|j: int| 0 <= j < i ==> is_linked(#[trigger] nodes@[j], before[j], edges@),
            forall|j: int| i <= j < before.len() ==> #[trigger] nodes@[j] == before[j],
        decreases nodes.len() - i,
    {
        let dependents = collect_dependents(edges, &nodes[i].id);
        let dependency_count = count_outgoing(edges, &nodes[i].id);
        nodes[i].metrics.dependency_count = dependency_count;
        nodes[i].metrics.dependent_count = dependents.len();
        nodes[i].dependents = dependents;
        i = i + 1;
    }
}

/// Finds the first module with an id: its index, or the number of modules
/// where none has the id.
pub fn find_id(nodes: &Vec<ArchitectureNode>, id: &String) -> (i: usize)
    ensures
        i == id_position(nodes@, id@, 0),
        i <= nodes@.len(),
{
    let mut i: usize = 0;
    while i < nodes.len()
        invariant
            i <= nodes.len(),
            id_position(nodes@, id@, i as int) == id_position(nodes@, id@, 0),
        decreases nodes.len() - i,
    {
        if nodes[i].id == *id {
            return i;
        }
        i = i + 1;
    }
    i
}

/// Makes an id that no module has out of an id drawn: the id drawn where
/// it is free, and else the id lengthened by hyphens until it is free.
pub fn unused_id(nodes: &Vec<ArchitectureNode>, drawn: String) -> (id: String)
    ensures
        id@ == unused_from(nodes@, drawn@),
        !has_id(nodes@, id@),
{
    let mut id = drawn;
    proof {
        lemma_unused_from(nodes@, drawn@);
        lemma_id_in_use(nodes@, id@);
    }
    while find_id(nodes, &id) < nodes.len()
        invariant
            unused_from(nodes@, id@) == unused_from(nodes@, drawn@),
            has_id(nodes@, id@) <==> id_position(nodes@, id@, 0) < nodes@.len(),
        decreases longest_id(nodes@) + 1 - id@.len(),
    {
        let ghost taken = id@;
        proof {
            reveal_strlit("-");
            lemma_id_in_use(nodes@, taken);
        }
        id.append("-");
        proof {
            assert(id@ =~= taken.push('-'));
            lemma_id_in_use(nodes@, id@);
        }
    }
    id
}

/// Assembles the architecture map of the modules of a scan.
pub fn build_architecture(nodes: Vec<ArchitectureNode>, last_scan: Timestamp) -> (map:
    ArchitectureMap)
    ensures
        is_architecture_of(map, nodes@, last_scan),
        is_consistent(map),
        distinct_ids(nodes@) ==> distinct_ids(map.nodes@),
{
    let analyzer = DependencyAnalyzer::new();
    let calculator = MetricsCalculator::new();
    let mut nodes = nodes;
    let ghost given = nodes@;
    let edges = analyzer.analyze_dependencies(&nodes);
    let metrics = calculator.calculate_architecture_metrics(&nodes, edges.as_slice());
    let circular_dependencies = analyzer.find_circular_dependencies(edges.as_slice());
    let total_modules = nodes.len();
    let edge_count = edges.len();
    let total_lines = sum_counter(&nodes, Counter::Lines);
    let average_complexity = if total_modules > 0 {
        Ratio { num: sum_counter(&nodes, Counter::Complexity), den: 10 * (total_modules as u128) }
    } else {
        Ratio::zero()
    };
    link_nodes(&mut nodes, &edges);
    let map = ArchitectureMap {
        nodes,
        edges,
        last_scan,
        total_modules,
        total_lines,
        average_complexity,
        circular_dependencies,
        metrics,
    };
    proof {
        lemma_architecture_is_consistent(map, given, last_scan);
    }
    map
}

} // verus!
