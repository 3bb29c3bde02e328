//! Scanning the same modules twice gives the same architecture, whatever ids
//! the modules were given.

use crate::scanner::dependency_analyzer::{
    connects, cycles_of, edge_ends, ends_of_node, ends_of_nodes, links_of, resolve_from,
};
use crate::scanner::metrics_calculator::{
    distinct_kinds, kind_count, lemma_kind_seen_alike, max_complexity, min_complexity, total,
    Counter,
};
use crate::scanner::relabeling::{
    all_in, cycles_in, lemma_relabel_cycles, lemma_relabel_dependents, lemma_relabel_on_cycle,
    lemma_relabel_outgoing, links_in, relabel, relabel_cycles, relabel_links, separates,
};
use crate::scanner::rust_scanner::{is_scan_of, WalkOutcome};
use crate::scanner::ScanError;
use crate::scanner::rust_scanner::{
    is_parse_of, lemma_module_is_determined, modules_of, parsed_ids_differ, read_count,
    ReadOutcome,
};
use crate::scanner::snapshot::{dependents_of, distinct_ids, is_architecture_of, is_linked};
use crate::types::{ArchitectureMap, ArchitectureNode, ModuleType, Timestamp};
use vstd::prelude::*;

verus! {

/// Two modules state the same facts: the same name, kind, path, dependency
/// names and metrics. Their ids may differ.
pub open spec fn same_facts(a: ArchitectureNode, b: ArchitectureNode) -> bool {
    &&& a.name@ == b.name@
    &&& a.module_type == b.module_type
    &&& a.file_path@ == b.file_path@
    &&& a.dependencies.deep_view() == b.dependencies.deep_view()
    &&& a.metrics == b.metrics
}

/// Two lists hold modules that state the same facts, in the same order.
pub open spec fn same_modules(xs: Seq<ArchitectureNode>, ys: Seq<ArchitectureNode>) -> bool {
    &&& xs.len() == ys.len()
    &&& forall|i: int| 0 <= i < xs.len() ==> same_facts(#[trigger] xs[i], ys[i])
}

/// The id of the module at each index.
pub open spec fn id_at(nodes: Seq<ArchitectureNode>) -> spec_fn(int) -> Seq<char> {
    |i: int| nodes[i].id@
}

/// The indices of the modules.
pub open spec fn index_of(nodes: Seq<ArchitectureNode>) -> spec_fn(int) -> bool {
    |i: int| 0 <= i < nodes.len()
}

/// The edges of a graph as links between the indices of the modules.
pub open spec fn index_links(nodes: Seq<ArchitectureNode>) -> Seq<(int, int)> {
    edge_ends(nodes)
}

proof fn lemma_resolve_same(
    xs: Seq<ArchitectureNode>,
    ys: Seq<ArchitectureNode>,
    name: Seq<char>,
    i: int,
)
    requires
        same_modules(xs, ys),
    ensures
        resolve_from(xs, name, i) == resolve_from(ys, name, i),
    decreases xs.len() - i,
{
    if 0 <= i < xs.len() {
        assert(same_facts(xs[i], ys[i]));
        if xs[i].name@ != name {
            lemma_resolve_same(xs, ys, name, i + 1);
        }
    }
}

proof fn lemma_ends_of_node_same(
    xs: Seq<ArchitectureNode>,
    ys: Seq<ArchitectureNode>,
    source: int,
    k: int,
)
    requires
        same_modules(xs, ys),
    ensures
        ends_of_node(xs, source, k) == ends_of_node(ys, source, k),
    decreases k,
{
    if 0 <= source < xs.len() {
        assert(same_facts(xs[source], ys[source]));
        let dx = xs[source].dependencies;
        let dy = ys[source].dependencies;
        assert(dx@.len() == dx.deep_view().len());
        assert(dy@.len() == dy.deep_view().len());
        if 0 < k <= dx@.len() {
            assert(dx.deep_view()[k - 1] == dx@[k - 1]@);
            assert(dy.deep_view()[k - 1] == dy@[k - 1]@);
            lemma_resolve_same(xs, ys, dx@[k - 1]@, 0);
            lemma_ends_of_node_same(xs, ys, source, k - 1);
        }
    }
}

proof fn lemma_ends_of_nodes_same(xs: Seq<ArchitectureNode>, ys: Seq<ArchitectureNode>, n: int)
    requires
        same_modules(xs, ys),
    ensures
        ends_of_nodes(xs, n) == ends_of_nodes(ys, n),
    decreases n,
{
    if 0 < n <= xs.len() {
        assert(same_facts(xs[n - 1], ys[n - 1]));
        let dx = xs[n - 1].dependencies;
        let dy = ys[n - 1].dependencies;
        assert(dx@.len() == dx.deep_view().len());
        assert(dy@.len() == dy.deep_view().len());
        lemma_ends_of_nodes_same(xs, ys, n - 1);
        lemma_ends_of_node_same(xs, ys, n - 1, dx@.len() as int);
    }
}

proof fn lemma_same_prefix(xs: Seq<ArchitectureNode>, ys: Seq<ArchitectureNode>)
    requires
        same_modules(xs, ys),
        xs.len() > 0,
    ensures
        same_modules(xs.drop_last(), ys.drop_last()),
        same_facts(xs.last(), ys.last()),
{
    assert forall|i: int| 0 <= i < xs.drop_last().len() implies same_facts(
        #[trigger] xs.drop_last()[i],
        ys.drop_last()[i],
    ) by {
        assert(same_facts(xs[i], ys[i]));
    }
    assert(same_facts(xs[xs.len() - 1], ys[xs.len() - 1]));
}

proof fn lemma_totals_same(xs: Seq<ArchitectureNode>, ys: Seq<ArchitectureNode>, which: Counter)
    requires
        same_modules(xs, ys),
    ensures
        total(xs, which) == total(ys, which),
        max_complexity(xs) == max_complexity(ys),
        min_complexity(xs) == min_complexity(ys),
    decreases xs.len(),
{
    if xs.len() > 0 {
        lemma_same_prefix(xs, ys);
        lemma_totals_same(xs.drop_last(), ys.drop_last(), which);
    }
}

proof fn lemma_kinds_same(
    xs: Seq<ArchitectureNode>,
    ys: Seq<ArchitectureNode>,
    kind: ModuleType,
)
    requires
        same_modules(xs, ys),
    ensures
        distinct_kinds(xs) == distinct_kinds(ys),
        kind_count(xs, kind) == kind_count(ys, kind),
    decreases xs.len(),
{
    if xs.len() > 0 {
        lemma_same_prefix(xs, ys);
        lemma_kinds_same(xs.drop_last(), ys.drop_last(), kind);
        let last = xs.last().module_type;
        assert forall|j: int| 0 <= j < xs.len() - 1 implies (#[trigger] xs[j]).module_type
            == ys[j].module_type by {
            assert(same_facts(xs[j], ys[j]));
        }
        lemma_kind_seen_alike(xs, ys, xs.len() - 1, last);
    }
}

/// Idempotence. Let two architecture maps be the maps of modules that state
/// the same facts in the same order, each under ids of its own, no id given
/// twice. Then the two maps agree in everything but the ids: they have the
/// same totals and metrics; their edges join the modules at the same places
/// of the two lists, with the same relationship, strength and circularity;
/// their cycles run through the modules at the same places; and modules at
/// the same place have as many dependencies and dependents, the dependents
/// at the same places.
pub proof fn lemma_scan_is_idempotent(
    a: ArchitectureMap,
    b: ArchitectureMap,
    xs: Seq<ArchitectureNode>,
    ys: Seq<ArchitectureNode>,
    scanned_a: Timestamp,
    scanned_b: Timestamp,
)
    requires
        is_architecture_of(a, xs, scanned_a),
        is_architecture_of(b, ys, scanned_b),
        same_modules(xs, ys),
        distinct_ids(xs),
        distinct_ids(ys),
    ensures
        a.total_modules == b.total_modules,
        a.total_lines == b.total_lines,
        a.average_complexity == b.average_complexity,
        a.metrics.total_functions == b.metrics.total_functions,
        a.metrics.total_structs == b.metrics.total_structs,
        a.metrics.total_enums == b.metrics.total_enums,
        a.metrics.total_traits == b.metrics.total_traits,
        a.metrics.max_complexity == b.metrics.max_complexity,
        a.metrics.min_complexity == b.metrics.min_complexity,
        a.metrics.dependency_density == b.metrics.dependency_density,
        a.metrics.maintainability_index == b.metrics.maintainability_index,
        a.metrics.kind_distribution@.len() == b.metrics.kind_distribution@.len(),
        forall|d: int|
            0 <= d < a.metrics.kind_distribution@.len() ==> (
            #[trigger] a.metrics.kind_distribution@[d]) == b.metrics.kind_distribution@[d],
        index_links(xs) == index_links(ys),
        links_in(index_of(xs), index_links(xs)),
        cycles_in(index_of(xs), cycles_of(index_links(xs))),
        links_of(a.edges@) == relabel_links(id_at(xs), index_links(xs)),
        links_of(b.edges@) == relabel_links(id_at(ys), index_links(xs)),
        forall|k: int|
            0 <= k < a.edges@.len() ==> {
                &&& (#[trigger] a.edges@[k]).relationship == b.edges@[k].relationship
                &&& a.edges@[k].strength == b.edges@[k].strength
                &&& a.edges@[k].is_circular == b.edges@[k].is_circular
            },
        a.circular_dependencies.deep_view() == relabel_cycles(
            id_at(xs),
            cycles_of(index_links(xs)),
        ),
        b.circular_dependencies.deep_view() == relabel_cycles(
            id_at(ys),
            cycles_of(index_links(xs)),
        ),
        forall|i: int|
            0 <= i < xs.len() ==> {
                &&& (#[trigger] a.nodes@[i]).metrics == b.nodes@[i].metrics
                &&& a.nodes@[i].dependents.deep_view() == relabel(
                    id_at(xs),
                    dependents_of(index_links(xs), i),
                )
                &&& b.nodes@[i].dependents.deep_view() == relabel(
                    id_at(ys),
                    dependents_of(index_links(xs), i),
                )
            },
{
    let links = index_links(xs);
    let fa = id_at(xs);
    let fb = id_at(ys);
    let dom = index_of(xs);
    lemma_totals_same(xs, ys, Counter::Lines);
    lemma_totals_same(xs, ys, Counter::Complexity);
    lemma_totals_same(xs, ys, Counter::Functions);
    lemma_totals_same(xs, ys, Counter::Structs);
    lemma_totals_same(xs, ys, Counter::Enums);
    lemma_totals_same(xs, ys, Counter::Traits);
    lemma_kinds_same(xs, ys, ModuleType::Core);
    lemma_ends_of_nodes_same(xs, ys, xs.len() as int);
    assert forall|d: int| 0 <= d < a.metrics.kind_distribution@.len() implies (
    #[trigger] a.metrics.kind_distribution@[d]) == b.metrics.kind_distribution@[d] by {
        assert(b.metrics.kind_distribution@[d].kind == a.metrics.kind_distribution@[d].kind);
        lemma_kinds_same(xs, ys, a.metrics.kind_distribution@[d].kind);
    }
    assert(separates(fa, dom)) by {
        assert forall|x: int, y: int| dom(x) && dom(y) && #[trigger] fa(x) == #[trigger] fa(
            y,
        ) implies x == y by {
            if x < y {
                assert(xs[x].id@ != xs[y].id@);
            } else if y < x {
                assert(xs[y].id@ != xs[x].id@);
            }
        }
    }
    assert(separates(fb, dom)) by {
        assert forall|x: int, y: int| dom(x) && dom(y) && #[trigger] fb(x) == #[trigger] fb(
            y,
        ) implies x == y by {
            if x < y {
                assert(ys[x].id@ != ys[y].id@);
            } else if y < x {
                assert(ys[y].id@ != ys[x].id@);
            }
        }
    }
    assert(links_in(dom, links)) by {
        assert forall|k: int| 0 <= k < links.len() implies dom((#[trigger] links[k]).0) && dom(
            links[k].1,
        ) by {
            assert(connects(a.edges@[k], xs[links[k].0], xs[links[k].1]));
        }
    }
    assert(links_of(a.edges@) =~= relabel_links(fa, links)) by {
        assert forall|k: int| 0 <= k < links.len() implies links_of(a.edges@)[k] == (
            fa(links[k].0),
            fa(links[k].1),
        ) by {
            assert(connects(a.edges@[k], xs[links[k].0], xs[links[k].1]));
        }
    }
    assert(links_of(b.edges@) =~= relabel_links(fb, links)) by {
        assert forall|k: int| 0 <= k < links.len() implies links_of(b.edges@)[k] == (
            fb(links[k].0),
            fb(links[k].1),
        ) by {
            assert(connects(b.edges@[k], ys[links[k].0], ys[links[k].1]));
        }
    }
    lemma_relabel_cycles(fa, dom, links);
    lemma_relabel_cycles(fb, dom, links);
    let cycles = cycles_of(links);
    assert forall|k: int| 0 <= k < a.edges@.len() implies {
        &&& (#[trigger] a.edges@[k]).relationship == b.edges@[k].relationship
        &&& a.edges@[k].strength == b.edges@[k].strength
        &&& a.edges@[k].is_circular == b.edges@[k].is_circular
    } by {
        let s = links[k].0;
        let t = links[k].1;
        assert(connects(a.edges@[k], xs[s], xs[t]));
        assert(connects(b.edges@[k], ys[s], ys[t]));
        assert(same_facts(xs[s], ys[s]));
        assert(same_facts(xs[t], ys[t]));
        assert(xs[s].dependencies@.len() == xs[s].dependencies.deep_view().len());
        assert(ys[s].dependencies@.len() == ys[s].dependencies.deep_view().len());
        assert(dom(s) && dom(t));
        lemma_relabel_on_cycle(fa, dom, cycles, s, t);
        lemma_relabel_on_cycle(fb, dom, cycles, s, t);
        assert(a.edges@[k].from@ == fa(s) && a.edges@[k].to@ == fa(t));
        assert(b.edges@[k].from@ == fb(s) && b.edges@[k].to@ == fb(t));
    }
    assert forall|i: int| 0 <= i < xs.len() implies {
        &&& (#[trigger] a.nodes@[i]).metrics == b.nodes@[i].metrics
        &&& a.nodes@[i].dependents.deep_view() == relabel(fa, dependents_of(links, i))
        &&& b.nodes@[i].dependents.deep_view() == relabel(fb, dependents_of(links, i))
    } by {
        assert(is_linked(a.nodes@[i], xs[i], a.edges@));
        assert(is_linked(b.nodes@[i], ys[i], b.edges@));
        assert(same_facts(xs[i], ys[i]));
        assert(dom(i));
        assert(fa(i) == xs[i].id@ && fb(i) == ys[i].id@);
        lemma_relabel_outgoing(fa, dom, links, i);
        lemma_relabel_outgoing(fb, dom, links, i);
        lemma_relabel_dependents(fa, dom, links, i);
        lemma_relabel_dependents(fb, dom, links, i);
    }
}

/// The outcome at index `k` is the file read as the `m`-th, counting from
/// zero.
pub open spec fn is_read_at(outcomes: Seq<ReadOutcome>, k: int, m: int) -> bool {
    0 <= k < outcomes.len() && outcomes[k] is Ok && read_count(outcomes, k) == m
}

/// The index of the file read as the `m`-th, counting from zero.
pub open spec fn nth_read(outcomes: Seq<ReadOutcome>, m: int) -> int {
    choose|k: int| is_read_at(outcomes, k, m)
}

proof fn lemma_read_count_grows(outcomes: Seq<ReadOutcome>, i: int, j: int)
    requires
        0 <= i <= j <= outcomes.len(),
    ensures
        read_count(outcomes, i) <= read_count(outcomes, j),
        i < j && outcomes[i] is Ok ==> read_count(outcomes, i) < read_count(outcomes, j),
    decreases j - i,
{
    if i < j {
        lemma_read_count_grows(outcomes, i, j - 1);
    }
}

proof fn lemma_nth_read(outcomes: Seq<ReadOutcome>, k: int, m: int)
    requires
        is_read_at(outcomes, k, m),
    ensures
        nth_read(outcomes, m) == k,
{
    let chosen = nth_read(outcomes, m);
    assert(is_read_at(outcomes, chosen, m));
    if chosen < k {
        lemma_read_count_grows(outcomes, chosen, k);
    } else if k < chosen {
        lemma_read_count_grows(outcomes, k, chosen);
    }
}

/// The modules of a scan are the parsed modules of the files that were read,
/// in the order of the files.
proof fn lemma_modules_in_order(
    outcomes: Seq<ReadOutcome>,
    parsed: Seq<ArchitectureNode>,
    n: int,
)
    requires
        parsed.len() == outcomes.len(),
        0 <= n <= outcomes.len(),
    ensures
        modules_of(outcomes, parsed, n).len() == read_count(outcomes, n),
        forall|m: int|
            #![trigger modules_of(outcomes, parsed, n)[m]]
            #![trigger nth_read(outcomes, m)]
            0 <= m < modules_of(outcomes, parsed, n).len() ==> {
                &&& is_read_at(outcomes, nth_read(outcomes, m), m)
                &&& nth_read(outcomes, m) < n
                &&& modules_of(outcomes, parsed, n)[m] == parsed[nth_read(outcomes, m)]
            },
    decreases n,
{
    if n > 0 {
        lemma_modules_in_order(outcomes, parsed, n - 1);
        let before = modules_of(outcomes, parsed, n - 1);
        let after = modules_of(outcomes, parsed, n);
        if outcomes[n - 1] is Ok {
            lemma_nth_read(outcomes, n - 1, before.len() as int);
        }
        assert forall|m: int|
            #![trigger after[m]]
            #![trigger nth_read(outcomes, m)]
            0 <= m < after.len() implies {
            &&& is_read_at(outcomes, nth_read(outcomes, m), m)
            &&& nth_read(outcomes, m) < n
            &&& after[m] == parsed[nth_read(outcomes, m)]
        } by {
            if m < before.len() {
                assert(after[m] == before[m]);
            }
        }
    }
}

/// The modules of a scan: those of all its outcomes.
pub open spec fn scan_modules(
    outcomes: Seq<ReadOutcome>,
    parsed: Seq<ArchitectureNode>,
) -> Seq<ArchitectureNode> {
    modules_of(outcomes, parsed, outcomes.len() as int)
}

/// Two scans of the same files, each giving every file an id of its own as
/// the contract of the scan says, give architecture maps that agree in
/// everything but the ids: their modules state the same facts in the same
/// order; the maps have the same totals; their edges join the modules at the
/// same places, with the same relationship, strength and circularity; and
/// their cycles run through the modules at the same places.
/// `lemma_scan_is_idempotent` adds the metrics of the graph and the
/// dependents of each module.
pub proof fn lemma_two_scans_agree(
    a: ArchitectureMap,
    b: ArchitectureMap,
    outcomes: Seq<ReadOutcome>,
    parsed_a: Seq<ArchitectureNode>,
    parsed_b: Seq<ArchitectureNode>,
    scanned_a: Timestamp,
    scanned_b: Timestamp,
)
    requires
        is_parse_of(parsed_a, outcomes),
        is_parse_of(parsed_b, outcomes),
        parsed_ids_differ(parsed_a, outcomes),
        parsed_ids_differ(parsed_b, outcomes),
        is_architecture_of(a, scan_modules(outcomes, parsed_a), scanned_a),
        is_architecture_of(b, scan_modules(outcomes, parsed_b), scanned_b),
    ensures
        same_modules(scan_modules(outcomes, parsed_a), scan_modules(outcomes, parsed_b)),
        distinct_ids(scan_modules(outcomes, parsed_a)),
        distinct_ids(scan_modules(outcomes, parsed_b)),
        a.nodes@.len() == b.nodes@.len(),
        a.total_modules == b.total_modules,
        a.total_lines == b.total_lines,
        a.average_complexity == b.average_complexity,
        forall|i: int|
            0 <= i < a.nodes@.len() ==> {
                &&& (#[trigger] a.nodes@[i]).name@ == b.nodes@[i].name@
                &&& a.nodes@[i].module_type == b.nodes@[i].module_type
                &&& a.nodes@[i].file_path@ == b.nodes@[i].file_path@
                &&& a.nodes@[i].metrics == b.nodes@[i].metrics
            },
        a.edges@.len() == b.edges@.len(),
        forall|k: int|
            0 <= k < a.edges@.len() ==> {
                &&& (#[trigger] a.edges@[k]).relationship == b.edges@[k].relationship
                &&& a.edges@[k].strength == b.edges@[k].strength
                &&& a.edges@[k].is_circular == b.edges@[k].is_circular
            },
        links_of(a.edges@) == relabel_links(
            id_at(scan_modules(outcomes, parsed_a)),
            index_links(scan_modules(outcomes, parsed_a)),
        ),
        links_of(b.edges@) == relabel_links(
            id_at(scan_modules(outcomes, parsed_b)),
            index_links(scan_modules(outcomes, parsed_a)),
        ),
        a.circular_dependencies.deep_view() == relabel_cycles(
            id_at(scan_modules(outcomes, parsed_a)),
            cycles_of(index_links(scan_modules(outcomes, parsed_a))),
        ),
        b.circular_dependencies.deep_view() == relabel_cycles(
            id_at(scan_modules(outcomes, parsed_b)),
            cycles_of(index_links(scan_modules(outcomes, parsed_a))),
        ),
{
    let n = outcomes.len() as int;
    let xs = modules_of(outcomes, parsed_a, n);
    let ys = modules_of(outcomes, parsed_b, n);
    lemma_modules_in_order(outcomes, parsed_a, n);
    lemma_modules_in_order(outcomes, parsed_b, n);
    assert forall|m: int| 0 <= m < xs.len() implies same_facts(#[trigger] xs[m], ys[m]) by {
        let k = nth_read(outcomes, m);
        assert(xs[m] == parsed_a[k]);
        assert(ys[m] == parsed_b[k]);
        lemma_module_is_determined(parsed_a[k], parsed_b[k], outcomes[k]->Ok_0);
    }
    assert forall|i: int, j: int| 0 <= i < j < xs.len() implies (#[trigger] xs[i]).id@ != (
    #[trigger] xs[j]).id@ by {
        let k = nth_read(outcomes, i);
        let l = nth_read(outcomes, j);
        assert(xs[i] == parsed_a[k] && xs[j] == parsed_a[l]);
        if l <= k {
            lemma_read_count_grows(outcomes, l, k);
        }
        assert(parsed_a[k].id@ != parsed_a[l].id@);
    }
    assert forall|i: int, j: int| 0 <= i < j < ys.len() implies (#[trigger] ys[i]).id@ != (
    #[trigger] ys[j]).id@ by {
        let k = nth_read(outcomes, i);
        let l = nth_read(outcomes, j);
        assert(ys[i] == parsed_b[k] && ys[j] == parsed_b[l]);
        if l <= k {
            lemma_read_count_grows(outcomes, l, k);
        }
        assert(parsed_b[k].id@ != parsed_b[l].id@);
    }
    lemma_scan_is_idempotent(a, b, xs, ys, scanned_a, scanned_b);
    assert forall|i: int| 0 <= i < a.nodes@.len() implies {
        &&& (#[trigger] a.nodes@[i]).name@ == b.nodes@[i].name@
        &&& a.nodes@[i].module_type == b.nodes@[i].module_type
        &&& a.nodes@[i].file_path@ == b.nodes@[i].file_path@
        &&& a.nodes@[i].metrics == b.nodes@[i].metrics
    } by {
        assert(is_linked(a.nodes@[i], xs[i], a.edges@));
        assert(is_linked(b.nodes@[i], ys[i], b.edges@));
        assert(same_facts(xs[i], ys[i]));
    }
}

/// The two ids name the modules at the same place of the two maps.
pub open spec fn same_place(
    a: ArchitectureMap,
    b: ArchitectureMap,
    id_a: Seq<char>,
    id_b: Seq<char>,
) -> bool {
    exists|s: int|
        0 <= s < a.nodes@.len() && s < b.nodes@.len() && (#[trigger] a.nodes@[s]).id@ == id_a
            && b.nodes@[s].id@ == id_b
}

/// Two architecture maps agree in everything but the ids and the time of
/// the scan: their modules have the same names, kinds, paths and metrics, in
/// the same order; their totals are the same; their edges join the modules
/// at the same places, with the same relationship, strength and circularity;
/// and their cycles run through the modules at the same places.
pub open spec fn agree_but_for_ids(a: ArchitectureMap, b: ArchitectureMap) -> bool {
    let cycles_a = a.circular_dependencies.deep_view();
    let cycles_b = b.circular_dependencies.deep_view();
    &&& a.nodes@.len() == b.nodes@.len()
    &&& forall|i: int|
        0 <= i < a.nodes@.len() ==> {
            &&& (#[trigger] a.nodes@[i]).name@ == b.nodes@[i].name@
            &&& a.nodes@[i].module_type == b.nodes@[i].module_type
            &&& a.nodes@[i].file_path@ == b.nodes@[i].file_path@
            &&& a.nodes@[i].metrics == b.nodes@[i].metrics
        }
    &&& a.total_modules == b.total_modules
    &&& a.total_lines == b.total_lines
    &&& a.average_complexity == b.average_complexity
    &&& a.edges@.len() == b.edges@.len()
    &&& forall|k: int|
        0 <= k < a.edges@.len() ==> {
            &&& (#[trigger] a.edges@[k]).relationship == b.edges@[k].relationship
            &&& a.edges@[k].strength == b.edges@[k].strength
            &&& a.edges@[k].is_circular == b.edges@[k].is_circular
            &&& same_place(a, b, a.edges@[k].from@, b.edges@[k].from@)
            &&& same_place(a, b, a.edges@[k].to@, b.edges@[k].to@)
        }
    &&& cycles_a.len() == cycles_b.len()
    &&& forall|c: int|
        0 <= c < cycles_a.len() ==> (#[trigger] cycles_a[c]).len() == cycles_b[c].len()
    &&& forall|c: int, p: int|
        0 <= c < cycles_a.len() && 0 <= p < cycles_a[c].len() ==> same_place(
            a,
            b,
            #[trigger] cycles_a[c][p],
            cycles_b[c][p],
        )
}

/// Idempotence. Two scans of the same walk come to the same: both fail
/// with the same error, or both give architecture maps that agree in
/// everything but the ids and the time of the scan.
pub proof fn lemma_scan_twice(
    first: Result<ArchitectureMap, ScanError>,
    second: Result<ArchitectureMap, ScanError>,
    walk: WalkOutcome,
    scanned_first: Timestamp,
    scanned_second: Timestamp,
)
    requires
        is_scan_of(first, walk, scanned_first),
        is_scan_of(second, walk, scanned_second),
    ensures
        match (first, second) {
            (Ok(a), Ok(b)) => agree_but_for_ids(a, b),
            (Err(e), Err(f)) => e == f,
            _ => false,
        },
{
    if let Ok(outcomes) = walk {
        let a = first->Ok_0;
        let b = second->Ok_0;
        let n = outcomes@.len() as int;
        let parsed_a = choose|parsed: Seq<ArchitectureNode>|
            #![trigger is_parse_of(parsed, outcomes@)]
            {
                &&& is_parse_of(parsed, outcomes@)
                &&& parsed_ids_differ(parsed, outcomes@)
                &&& is_architecture_of(a, modules_of(outcomes@, parsed, n), scanned_first)
            };
        let parsed_b = choose|parsed: Seq<ArchitectureNode>|
            #![trigger is_parse_of(parsed, outcomes@)]
            {
                &&& is_parse_of(parsed, outcomes@)
                &&& parsed_ids_differ(parsed, outcomes@)
                &&& is_architecture_of(b, modules_of(outcomes@, parsed, n), scanned_second)
            };
        let xs = scan_modules(outcomes@, parsed_a);
        let ys = scan_modules(outcomes@, parsed_b);
        lemma_two_scans_agree(a, b, outcomes@, parsed_a, parsed_b, scanned_first, scanned_second);
        lemma_scan_is_idempotent(a, b, xs, ys, scanned_first, scanned_second);
        let links = index_links(xs);
        let cycles = cycles_of(links);
        let cycles_a = a.circular_dependencies.deep_view();
        let cycles_b = b.circular_dependencies.deep_view();
        assert forall|s: int| 0 <= s < xs.len() implies (#[trigger] a.nodes@[s]).id@ == xs[s].id@
            && b.nodes@[s].id@ == ys[s].id@ by {
            assert(is_linked(a.nodes@[s], xs[s], a.edges@));
            assert(is_linked(b.nodes@[s], ys[s], b.edges@));
        }
        assert forall|k: int| 0 <= k < a.edges@.len() implies same_place(
            a,
            b,
            (#[trigger] a.edges@[k]).from@,
            b.edges@[k].from@,
        ) && same_place(a, b, a.edges@[k].to@, b.edges@[k].to@) by {
            let s = links[k].0;
            let t = links[k].1;
            assert(index_of(xs)(s) && index_of(xs)(t));
            assert(links_of(a.edges@)[k] == (xs[s].id@, xs[t].id@));
            assert(links_of(b.edges@)[k] == (ys[s].id@, ys[t].id@));
            assert(a.nodes@[s].id@ == a.edges@[k].from@ && b.nodes@[s].id@ == b.edges@[k].from@);
            assert(a.nodes@[t].id@ == a.edges@[k].to@ && b.nodes@[t].id@ == b.edges@[k].to@);
        }
        assert forall|c: int| 0 <= c < cycles_a.len() implies (#[trigger] cycles_a[c]).len()
            == cycles_b[c].len() by {
            assert(cycles_a[c] == relabel(id_at(xs), cycles[c]));
            assert(cycles_b[c] == relabel(id_at(ys), cycles[c]));
        }
        assert forall|c: int, p: int|
            0 <= c < cycles_a.len() && 0 <= p < cycles_a[c].len() implies same_place(
            a,
            b,
            #[trigger] cycles_a[c][p],
            cycles_b[c][p],
        ) by {
            assert(cycles_a[c] == relabel(id_at(xs), cycles[c]));
            assert(cycles_b[c] == relabel(id_at(ys), cycles[c]));
            assert(all_in(index_of(xs), cycles[c]));
            let s = cycles[c][p];
            assert(index_of(xs)(s));
            assert(a.nodes@[s].id@ == cycles_a[c][p] && b.nodes@[s].id@ == cycles_b[c][p]);
        }
    }
}

} // verus!
