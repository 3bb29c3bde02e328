//! The search for cycles does not depend on how the modules are named: it
//! commutes with any relabeling of the ids that keeps distinct ids distinct.

use crate::scanner::dependency_analyzer::{
    adjacent_in, both, cycles_of, holds, lemma_append_falls, lemma_position_bounds,
    lemma_visit_falls, next_on, nothing, on_cycle, position, position_from, search_link,
    search_links, search_node, search_root, search_roots, unvisited, Found,
};
use crate::scanner::snapshot::{dependents_of, outgoing};
use vstd::prelude::*;

verus! {

/// The ids `s`, each relabeled by `f`.
pub open spec fn relabel<A, B>(f: spec_fn(A) -> B, s: Seq<A>) -> Seq<B> {
    Seq::new(s.len(), |i: int| f(s[i]))
}

/// The links with both ends of each relabeled by `f`.
pub open spec fn relabel_links<A, B>(f: spec_fn(A) -> B, links: Seq<(A, A)>) -> Seq<(B, B)> {
    Seq::new(links.len(), |k: int| (f(links[k].0), f(links[k].1)))
}

/// The cycles with each id relabeled by `f`.
pub open spec fn relabel_cycles<A, B>(f: spec_fn(A) -> B, cycles: Seq<Seq<A>>) -> Seq<Seq<B>> {
    Seq::new(cycles.len(), |c: int| relabel(f, cycles[c]))
}

/// What a search adds, with each id relabeled by `f`.
pub open spec fn relabel_found<A, B>(f: spec_fn(A) -> B, found: Found<A>) -> Found<B> {
    Found { visited: relabel(f, found.visited), cycles: relabel_cycles(f, found.cycles) }
}

/// `f` gives distinct labels to distinct ids of the domain `dom`.
pub open spec fn separates<A, B>(f: spec_fn(A) -> B, dom: spec_fn(A) -> bool) -> bool {
    forall|x: A, y: A| dom(x) && dom(y) && #[trigger] f(x) == #[trigger] f(y) ==> x == y
}

/// Every id of `s` lies in the domain `dom`.
pub open spec fn all_in<A>(dom: spec_fn(A) -> bool, s: Seq<A>) -> bool {
    forall|i: int| 0 <= i < s.len() ==> dom(#[trigger] s[i])
}

/// Both ends of every link lie in the domain `dom`.
pub open spec fn links_in<A>(dom: spec_fn(A) -> bool, links: Seq<(A, A)>) -> bool {
    forall|k: int| 0 <= k < links.len() ==> dom((#[trigger] links[k]).0) && dom(links[k].1)
}

/// Every id of every cycle lies in the domain `dom`.
pub open spec fn cycles_in<A>(dom: spec_fn(A) -> bool, cycles: Seq<Seq<A>>) -> bool {
    forall|c: int| 0 <= c < cycles.len() ==> all_in(dom, #[trigger] cycles[c])
}

/// Every id of what a search adds lies in the domain `dom`.
pub open spec fn found_in<A>(dom: spec_fn(A) -> bool, found: Found<A>) -> bool {
    all_in(dom, found.visited) && cycles_in(dom, found.cycles)
}

/// An id is found among relabeled ids where it was found before.
pub proof fn lemma_relabel_position<A, B>(
    f: spec_fn(A) -> B,
    dom: spec_fn(A) -> bool,
    s: Seq<A>,
    x: A,
    i: int,
)
    requires
        separates(f, dom),
        all_in(dom, s),
        dom(x),
        0 <= i <= s.len(),
    ensures
        position_from(relabel(f, s), f(x), i) == position_from(s, x, i),
    decreases s.len() - i,
{
    if i < s.len() {
        assert(relabel(f, s)[i] == f(s[i]));
        assert(dom(s[i]));
        if s[i] != x {
            assert(f(s[i]) != f(x));
            lemma_relabel_position(f, dom, s, x, i + 1);
        }
    }
}

/// Relabeling what two searches add is relabeling each; and where both
/// lie in the domain, so does their sum.
pub proof fn lemma_relabel_both<A, B>(
    f: spec_fn(A) -> B,
    dom: spec_fn(A) -> bool,
    first: Found<A>,
    second: Found<A>,
)
    ensures
        relabel_found(f, both(first, second)) == both(
            relabel_found(f, first),
            relabel_found(f, second),
        ),
        found_in(dom, first) && found_in(dom, second) ==> found_in(dom, both(first, second)),
{
    assert(relabel(f, first.visited + second.visited) =~= relabel(f, first.visited) + relabel(
        f,
        second.visited,
    ));
    assert(relabel_cycles(f, first.cycles + second.cycles) =~= relabel_cycles(f, first.cycles)
        + relabel_cycles(f, second.cycles));
    if found_in(dom, first) && found_in(dom, second) {
        let sum = both(first, second);
        assert forall|i: int| 0 <= i < sum.visited.len() implies dom(#[trigger] sum.visited[i]) by {
            if i < first.visited.len() {
                assert(sum.visited[i] == first.visited[i]);
            } else {
                assert(sum.visited[i] == second.visited[i - first.visited.len()]);
            }
        }
        assert forall|c: int| 0 <= c < sum.cycles.len() implies all_in(
            dom,
            #[trigger] sum.cycles[c],
        ) by {
            if c < first.cycles.len() {
                assert(sum.cycles[c] == first.cycles[c]);
            } else {
                assert(sum.cycles[c] == second.cycles[c - first.cycles.len()]);
            }
        }
    }
}

/// Ids of the domain, followed by more of them, are ids of the domain, and
/// relabeling them is relabeling each part.
pub proof fn lemma_relabel_more<A, B>(
    f: spec_fn(A) -> B,
    dom: spec_fn(A) -> bool,
    ids: Seq<A>,
    more: Seq<A>,
)
    requires
        all_in(dom, ids),
        all_in(dom, more),
    ensures
        all_in(dom, ids + more),
        relabel(f, ids + more) == relabel(f, ids) + relabel(f, more),
{
    assert forall|i: int| 0 <= i < (ids + more).len() implies dom(#[trigger] (ids + more)[i]) by {
        if i < ids.len() {
            assert((ids + more)[i] == ids[i]);
        } else {
            assert((ids + more)[i] == more[i - ids.len()]);
        }
    }
    assert(relabel(f, ids + more) =~= relabel(f, ids) + relabel(f, more));
}

/// Visiting a node commutes with relabeling.
pub proof fn lemma_relabel_search_node<A, B>(
    f: spec_fn(A) -> B,
    dom: spec_fn(A) -> bool,
    links: Seq<(A, A)>,
    node: A,
    path: Seq<A>,
    visited: Seq<A>,
)
    requires
        separates(f, dom),
        links_in(dom, links),
        dom(node),
        all_in(dom, path),
        all_in(dom, visited),
    ensures
        search_node(relabel_links(f, links), f(node), relabel(f, path), relabel(f, visited))
            == relabel_found(f, search_node(links, node, path, visited)),
        found_in(dom, search_node(links, node, path, visited)),
    decreases unvisited(links, visited.push(node)), links.len() + 1,
{
    let below = search_links(links, node, 0, path.push(node), visited.push(node));
    assert(relabel(f, path.push(node)) =~= relabel(f, path).push(f(node)));
    assert(relabel(f, visited.push(node)) =~= relabel(f, visited).push(f(node)));
    lemma_relabel_search_links(f, dom, links, node, 0, path.push(node), visited.push(node));
    assert(relabel(f, seq![node] + below.visited) =~= seq![f(node)] + relabel(f, below.visited));
    assert forall|i: int| 0 <= i < (seq![node] + below.visited).len() implies dom(
        #[trigger] (seq![node] + below.visited)[i],
    ) by {
        if i > 0 {
            assert((seq![node] + below.visited)[i] == below.visited[i - 1]);
        }
    }
}

/// What a link adds commutes with relabeling.
pub proof fn lemma_relabel_search_link<A, B>(
    f: spec_fn(A) -> B,
    dom: spec_fn(A) -> bool,
    links: Seq<(A, A)>,
    node: A,
    k: int,
    path: Seq<A>,
    visited: Seq<A>,
)
    requires
        separates(f, dom),
        links_in(dom, links),
        dom(node),
        all_in(dom, path),
        all_in(dom, visited),
    ensures
        search_link(relabel_links(f, links), f(node), k, relabel(f, path), relabel(f, visited))
            == relabel_found(f, search_link(links, node, k, path, visited)),
        found_in(dom, search_link(links, node, k, path, visited)),
    decreases unvisited(links, visited), links.len() - k, 1int,
{
    assert(relabel_found(f, nothing::<A>()) =~= nothing::<B>());
    if 0 <= k < links.len() {
        let next = links[k].1;
        assert(dom(links[k].0) && dom(next));
        assert(relabel_links(f, links)[k] == (f(links[k].0), f(next)));
        lemma_relabel_position(f, dom, visited, next, 0);
        lemma_relabel_position(f, dom, path, next, 0);
        if links[k].0 != node {
            assert(f(links[k].0) != f(node));
        } else if !holds(visited, next) {
            lemma_visit_falls(links, visited, k);
            lemma_relabel_search_node(f, dom, links, next, path, visited);
        } else if holds(path, next) {
            let start = position(path, next);
            lemma_position_bounds(path, next, 0);
            let cycle = path.subrange(start, path.len() as int);
            assert(relabel(f, cycle) =~= relabel(f, path).subrange(start, path.len() as int));
            assert(relabel_cycles(f, seq![cycle]) =~= seq![relabel(f, cycle)]);
            assert(relabel(f, Seq::<A>::empty()) =~= Seq::<B>::empty());
            assert(all_in(dom, cycle)) by {
                assert forall|i: int| 0 <= i < cycle.len() implies dom(#[trigger] cycle[i]) by {
                    assert(cycle[i] == path[start + i]);
                }
            }
            assert(seq![cycle][0] == cycle);
        }
    }
}

/// Following the links of a node commutes with relabeling.
pub proof fn lemma_relabel_search_links<A, B>(
    f: spec_fn(A) -> B,
    dom: spec_fn(A) -> bool,
    links: Seq<(A, A)>,
    node: A,
    k: int,
    path: Seq<A>,
    visited: Seq<A>,
)
    requires
        separates(f, dom),
        links_in(dom, links),
        dom(node),
        all_in(dom, path),
        all_in(dom, visited),
    ensures
        search_links(relabel_links(f, links), f(node), k, relabel(f, path), relabel(f, visited))
            == relabel_found(f, search_links(links, node, k, path, visited)),
        found_in(dom, search_links(links, node, k, path, visited)),
    decreases unvisited(links, visited), links.len() - k, 2int,
{
    assert(relabel_found(f, nothing::<A>()) =~= nothing::<B>());
    if 0 <= k < links.len() {
        let step = search_link(links, node, k, path, visited);
        lemma_relabel_search_link(f, dom, links, node, k, path, visited);
        lemma_append_falls(links, visited, step.visited);
        lemma_relabel_more(f, dom, visited, step.visited);
        lemma_relabel_search_links(f, dom, links, node, k + 1, path, visited + step.visited);
        let rest = search_links(links, node, k + 1, path, visited + step.visited);
        lemma_relabel_both(f, dom, step, rest);
    }
}

/// Searching from every root commutes with relabeling.
pub proof fn lemma_relabel_search_roots<A, B>(
    f: spec_fn(A) -> B,
    dom: spec_fn(A) -> bool,
    links: Seq<(A, A)>,
    k: int,
    visited: Seq<A>,
)
    requires
        separates(f, dom),
        links_in(dom, links),
        all_in(dom, visited),
    ensures
        search_roots(relabel_links(f, links), k, relabel(f, visited)) == relabel_found(
            f,
            search_roots(links, k, visited),
        ),
        found_in(dom, search_roots(links, k, visited)),
    decreases links.len() - k,
{
    assert(relabel_found(f, nothing::<A>()) =~= nothing::<B>());
    if 0 <= k < links.len() {
        let root = links[k].0;
        assert(dom(root) && dom(links[k].1));
        assert(relabel_links(f, links)[k] == (f(root), f(links[k].1)));
        lemma_relabel_position(f, dom, visited, root, 0);
        let step = search_root(links, k, visited);
        if !holds(visited, root) {
            assert(relabel(f, Seq::<A>::empty()) =~= Seq::<B>::empty());
            lemma_relabel_search_node(f, dom, links, root, Seq::empty(), visited);
        }
        lemma_relabel_more(f, dom, visited, step.visited);
        lemma_relabel_search_roots(f, dom, links, k + 1, visited + step.visited);
        let rest = search_roots(links, k + 1, visited + step.visited);
        lemma_relabel_both(f, dom, step, rest);
    }
}

/// The cycles of a relabeled graph are the relabeled cycles of the graph,
/// where the relabeling keeps the ids of the graph distinct.
pub proof fn lemma_relabel_cycles<A, B>(
    f: spec_fn(A) -> B,
    dom: spec_fn(A) -> bool,
    links: Seq<(A, A)>,
)
    requires
        separates(f, dom),
        links_in(dom, links),
    ensures
        cycles_of(relabel_links(f, links)) == relabel_cycles(f, cycles_of(links)),
        cycles_in(dom, cycles_of(links)),
{
    assert(relabel(f, Seq::<A>::empty()) =~= Seq::<B>::empty());
    lemma_relabel_search_roots(f, dom, links, 0, Seq::empty());
}

/// Two ids are adjacent on a relabeled cycle exactly when they are adjacent
/// on the cycle.
pub proof fn lemma_relabel_adjacent<A, B>(
    f: spec_fn(A) -> B,
    dom: spec_fn(A) -> bool,
    cycle: Seq<A>,
    a: A,
    b: A,
)
    requires
        separates(f, dom),
        all_in(dom, cycle),
        dom(a),
        dom(b),
    ensures
        adjacent_in(relabel(f, cycle), f(a), f(b)) == adjacent_in(cycle, a, b),
{
    let image = relabel(f, cycle);
    let n = cycle.len() as int;
    if adjacent_in(cycle, a, b) {
        let i = choose|i: int|
            0 <= i < cycle.len() && #[trigger] cycle[i] == a && cycle[next_on(n, i)] == b;
        assert(image[i] == f(a) && image[next_on(n, i)] == f(b));
    }
    if adjacent_in(image, f(a), f(b)) {
        let i = choose|i: int|
            0 <= i < image.len() && #[trigger] image[i] == f(a) && image[next_on(n, i)] == f(b);
        let j = next_on(n, i);
        assert(image[i] == f(cycle[i]) && image[j] == f(cycle[j]));
        assert(dom(cycle[i]) && dom(cycle[j]));
        assert(cycle[i] == a && cycle[j] == b);
    }
}

/// Two ids lie on a relabeled cycle exactly when they lie on a cycle.
pub proof fn lemma_relabel_on_cycle<A, B>(
    f: spec_fn(A) -> B,
    dom: spec_fn(A) -> bool,
    cycles: Seq<Seq<A>>,
    a: A,
    b: A,
)
    requires
        separates(f, dom),
        cycles_in(dom, cycles),
        dom(a),
        dom(b),
    ensures
        on_cycle(relabel_cycles(f, cycles), f(a), f(b)) == on_cycle(cycles, a, b),
{
    let images = relabel_cycles(f, cycles);
    assert forall|c: int| 0 <= c < cycles.len() implies (adjacent_in(
        #[trigger] images[c],
        f(a),
        f(b),
    ) == adjacent_in(cycles[c], a, b) && adjacent_in(images[c], f(b), f(a)) == adjacent_in(
        cycles[c],
        b,
        a,
    )) by {
        assert(all_in(dom, cycles[c]));
        lemma_relabel_adjacent(f, dom, cycles[c], a, b);
        lemma_relabel_adjacent(f, dom, cycles[c], b, a);
    }
    if on_cycle(cycles, a, b) {
        let c = choose|c: int|
            0 <= c < cycles.len() && (adjacent_in(#[trigger] cycles[c], a, b) || adjacent_in(
                cycles[c],
                b,
                a,
            ));
        assert(adjacent_in(images[c], f(a), f(b)) || adjacent_in(images[c], f(b), f(a)));
    }
    if on_cycle(images, f(a), f(b)) {
        let c = choose|c: int|
            0 <= c < images.len() && (adjacent_in(#[trigger] images[c], f(a), f(b))
                || adjacent_in(images[c], f(b), f(a)));
        assert(adjacent_in(cycles[c], a, b) || adjacent_in(cycles[c], b, a));
    }
}

/// As many links leave a relabeled id as leave the id.
pub proof fn lemma_relabel_outgoing<A, B>(
    f: spec_fn(A) -> B,
    dom: spec_fn(A) -> bool,
    links: Seq<(A, A)>,
    x: A,
)
    requires
        separates(f, dom),
        links_in(dom, links),
        dom(x),
    ensures
        outgoing(relabel_links(f, links), f(x)) == outgoing(links, x),
    decreases links.len(),
{
    if links.len() > 0 {
        let last = links.last();
        assert(dom(links[links.len() - 1].0));
        assert(relabel_links(f, links).last() == (f(last.0), f(last.1)));
        assert(relabel_links(f, links).drop_last() =~= relabel_links(f, links.drop_last()));
        lemma_relabel_outgoing(f, dom, links.drop_last(), x);
    }
}

/// The dependents of a relabeled id are the relabeled dependents of the id.
pub proof fn lemma_relabel_dependents<A, B>(
    f: spec_fn(A) -> B,
    dom: spec_fn(A) -> bool,
    links: Seq<(A, A)>,
    x: A,
)
    requires
        separates(f, dom),
        links_in(dom, links),
        dom(x),
    ensures
        dependents_of(relabel_links(f, links), f(x)) == relabel(f, dependents_of(links, x)),
    decreases links.len(),
{
    if links.len() > 0 {
        let last = links.last();
        assert(dom(links[links.len() - 1].0) && dom(links[links.len() - 1].1));
        assert(relabel_links(f, links).last() == (f(last.0), f(last.1)));
        assert(relabel_links(f, links).drop_last() =~= relabel_links(f, links.drop_last()));
        lemma_relabel_dependents(f, dom, links.drop_last(), x);
        if last.1 == x {
            assert(relabel(f, dependents_of(links.drop_last(), x).push(last.0)) =~= relabel(
                f,
                dependents_of(links.drop_last(), x),
            ).push(f(last.0)));
        }
    } else {
        assert(relabel(f, Seq::<A>::empty()) =~= Seq::<B>::empty());
    }
}

} // verus!
