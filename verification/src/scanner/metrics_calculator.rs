//! Metrics of one module, computed from its text, and of the whole graph.

use crate::text::{
    char_occurrences, contains, contains_pattern, count_char, count_occurrences, find_line_end,
    line_end, lines, lines_from, occurrences, occurrences_from, occurs_at, range_starts_with,
    starts_with, to_chars, trim, trim_range,
};
use crate::types::{
    ArchitectureMetrics, ArchitectureNode, DependencyEdge, KindCount, MaintainabilityIndex,
    ModuleType, NodeMetrics, Ratio,
};
use vstd::prelude::*;

verus! {

/// `x` capped at the largest `u64`.
pub open spec fn saturate(x: int) -> u64 {
    if x >= u64::MAX {
        u64::MAX
    } else if x <= 0 {
        0
    } else {
        x as u64
    }
}

/// A line counts as code when, once trimmed, it is not empty and starts
/// neither a line comment nor a block comment.
pub open spec fn is_code_line(line: Seq<char>) -> bool {
    let t = trim(line);
    t.len() > 0 && !starts_with(t, "//"@) && !starts_with(t, "/*"@)
}

/// Number of code lines among `ls`.
pub open spec fn code_lines(ls: Seq<Seq<char>>) -> nat
    decreases ls.len(),
{
    if ls.len() == 0 {
        0
    } else {
        code_lines(ls.drop_first()) + if is_code_line(ls.first()) {
            1nat
        } else {
            0nat
        }
    }
}

/// Lines of code of a text.
pub open spec fn lines_of_code(content: Seq<char>) -> nat {
    code_lines(lines(content))
}

/// The complexity score in tenths: a base of 10, weighted counts of the
/// branching keywords, doubled opening braces, and error-prone idioms, and 5
/// more where the text mentions `async`.
pub open spec fn complexity_tenths(content: Seq<char>) -> nat {
    10 + 5 * occurrences(content, "if "@) + 8 * occurrences(content, "match "@) + 6 * occurrences(
        content,
        "for "@,
    ) + 7 * occurrences(content, "while "@) + 8 * occurrences(content, "loop "@) + occurrences(
        content,
        "{{"@,
    ) + if contains(content, "async"@) {
        5nat
    } else {
        0nat
    } + 2 * occurrences(content, "?."@) + occurrences(content, "unwrap()"@) + occurrences(
        content,
        "expect("@,
    )
}

/// Cyclomatic complexity: one, plus one for each decision point.
pub open spec fn cyclomatic(content: Seq<char>) -> nat {
    1 + occurrences(content, "if "@) + occurrences(content, "match "@) + occurrences(
        content,
        "for "@,
    ) + occurrences(content, "while "@) + occurrences(content, "loop "@) + occurrences(
        content,
        "&&"@,
    ) + occurrences(content, "||"@)
}

/// The nesting level after a line: one more where the line holds an opening
/// brace, then one less, but not below zero, where it holds a closing brace.
pub open spec fn nesting_after(line: Seq<char>, nesting: nat) -> nat {
    let opened = if line.contains('{') {
        nesting + 1
    } else {
        nesting
    };
    if line.contains('}') && opened > 0 {
        (opened - 1) as nat
    } else {
        opened
    }
}

/// What a trimmed line adds to the cognitive complexity at a nesting level,
/// in halves: the weight of its control structure plus the nesting level.
pub open spec fn line_weight(trimmed: Seq<char>, nesting: nat) -> nat {
    if starts_with(trimmed, "if "@) {
        2 + 2 * nesting
    } else if starts_with(trimmed, "match "@) {
        4 + 2 * nesting
    } else if starts_with(trimmed, "for "@) || starts_with(trimmed, "while "@) {
        2 + 2 * nesting
    } else if starts_with(trimmed, "loop "@) {
        3 + 2 * nesting
    } else {
        0
    }
}

/// Cognitive complexity of the lines `ls` in halves, entered at a nesting
/// level.
pub open spec fn cognitive_of_lines(ls: Seq<Seq<char>>, nesting: nat) -> nat
    decreases ls.len(),
{
    if ls.len() == 0 {
        0
    } else {
        let after = nesting_after(ls.first(), nesting);
        line_weight(trim(ls.first()), after) + cognitive_of_lines(ls.drop_first(), after)
    }
}

/// Cognitive complexity of a text, in halves.
pub open spec fn cognitive_halves(content: Seq<char>) -> nat {
    cognitive_of_lines(lines(content), 0)
}

/// `m` holds the metrics of a module with the text `content`, as they are
/// before the graph is assembled: the counts of the text, the three
/// complexity measures capped at the largest `u64`, no dependencies or
/// dependents yet, and test coverage and build time left at their defaults.
pub open spec fn is_metrics_of(m: NodeMetrics, content: Seq<char>) -> bool {
    &&& m.lines_of_code == lines_of_code(content)
    &&& m.complexity_score == saturate(complexity_tenths(content) as int)
    &&& m.test_coverage == 0
    &&& m.function_count == occurrences(content, "fn "@)
    &&& m.struct_count == occurrences(content, "struct "@)
    &&& m.enum_count == occurrences(content, "enum "@)
    &&& m.trait_count == occurrences(content, "trait "@)
    &&& m.last_build_time is None
    &&& m.error_count == occurrences(content, "panic!"@) + occurrences(content, "unwrap()"@)
    &&& m.warning_count == occurrences(content, "#[warn("@)
    &&& m.dependency_count == 0
    &&& m.dependent_count == 0
    &&& m.cyclomatic_complexity == saturate(cyclomatic(content) as int)
    &&& m.cognitive_complexity == saturate(cognitive_halves(content) as int)
}

/// The per-module quantities that are added up over a graph.
#[derive(Debug, Clone, Copy, PartialEq, Eq, Structural)]
pub enum Counter {
    Lines,
    Complexity,
    Functions,
    Structs,
    Enums,
    Traits,
}

/// The value of a counter on one module.
pub open spec fn counter_of(node: ArchitectureNode, which: Counter) -> nat {
    match which {
        Counter::Lines => node.metrics.lines_of_code as nat,
        Counter::Complexity => node.metrics.complexity_score as nat,
        Counter::Functions => node.metrics.function_count as nat,
        Counter::Structs => node.metrics.struct_count as nat,
        Counter::Enums => node.metrics.enum_count as nat,
        Counter::Traits => node.metrics.trait_count as nat,
    }
}

/// The sum of a counter over the modules.
pub open spec fn total(nodes: Seq<ArchitectureNode>, which: Counter) -> nat
    decreases nodes.len(),
{
    if nodes.len() == 0 {
        0
    } else {
        total(nodes.drop_last(), which) + counter_of(nodes.last(), which)
    }
}

/// The largest complexity score among the modules, zero without modules.
pub open spec fn max_complexity(nodes: Seq<ArchitectureNode>) -> nat
    decreases nodes.len(),
{
    if nodes.len() == 0 {
        0
    } else {
        let rest = max_complexity(nodes.drop_last());
        let last = nodes.last().metrics.complexity_score as nat;
        if last > rest {
            last
        } else {
            rest
        }
    }
}

/// The smallest complexity score among the modules, zero without modules.
pub open spec fn min_complexity(nodes: Seq<ArchitectureNode>) -> nat
    decreases nodes.len(),
{
    if nodes.len() == 0 {
        0
    } else if nodes.len() == 1 {
        nodes.last().metrics.complexity_score as nat
    } else {
        let rest = min_complexity(nodes.drop_last());
        let last = nodes.last().metrics.complexity_score as nat;
        if last < rest {
            last
        } else {
            rest
        }
    }
}

/// The quotient `num / den` capped at one, for a positive numerator.
pub open spec fn capped_at_one(num: nat, den: nat) -> Ratio {
    Ratio {
        num: num as u128,
        den: (if den > num {
            den
        } else {
            num
        }) as u128,
    }
}

/// Edges per ordered pair of distinct modules: `edges / (n * (n - 1))`, and
/// zero for fewer than two modules.
pub open spec fn density(n: nat, edges: nat) -> Ratio {
    if n <= 1 {
        Ratio { num: 0, den: 1 }
    } else {
        Ratio { num: edges as u128, den: (n * (n - 1)) as u128 }
    }
}

/// The mean of a counter over the modules, in the counter's unit times
/// `unit`: `total / (unit * n)`, and zero without modules.
pub open spec fn mean(nodes: Seq<ArchitectureNode>, which: Counter, unit: nat) -> Ratio {
    if nodes.len() == 0 {
        Ratio { num: 0, den: 1 }
    } else {
        Ratio { num: total(nodes, which) as u128, den: (unit * nodes.len()) as u128 }
    }
}

/// The size component of the maintainability index: 1000 over the total
/// lines of code, the lines taken as at least one and the quotient capped at
/// one. Zero without modules.
pub open spec fn lines_factor(nodes: Seq<ArchitectureNode>) -> Ratio {
    let lines = total(nodes, Counter::Lines);
    if nodes.len() == 0 {
        Ratio { num: 0, den: 1 }
    } else {
        capped_at_one(
            1000,
            if lines > 1 {
                lines
            } else {
                1
            },
        )
    }
}

/// The complexity component of the maintainability index: 10 over the mean
/// complexity score, the mean taken as at least one and the quotient capped
/// at one. With the scores in tenths and `n` modules the mean is
/// `sum / (10 * n)`, so the quotient is `100 * n` over the larger of `sum` and
/// `10 * n`. Zero without modules.
pub open spec fn complexity_factor(nodes: Seq<ArchitectureNode>) -> Ratio {
    let sum = total(nodes, Counter::Complexity);
    let floor = 10 * nodes.len();
    if nodes.len() == 0 {
        Ratio { num: 0, den: 1 }
    } else {
        capped_at_one(
            100 * nodes.len(),
            if sum > floor {
                sum
            } else {
                floor
            },
        )
    }
}

/// The maintainability index of the modules.
pub open spec fn maintainability(nodes: Seq<ArchitectureNode>) -> MaintainabilityIndex {
    MaintainabilityIndex {
        lines_factor: lines_factor(nodes),
        complexity_factor: complexity_factor(nodes),
    }
}

/// Number of modules of the kind `kind`.
pub open spec fn kind_count(nodes: Seq<ArchitectureNode>, kind: ModuleType) -> nat
    decreases nodes.len(),
{
    if nodes.len() == 0 {
        0
    } else {
        kind_count(nodes.drop_last(), kind) + if nodes.last().module_type.same_kind(kind) {
            1nat
        } else {
            0nat
        }
    }
}

/// Some module among the first `n` has the kind `kind`.
pub open spec fn kind_seen(nodes: Seq<ArchitectureNode>, n: int, kind: ModuleType) -> bool {
    exists|j: int|
        0 <= j < n && j < nodes.len() && (#[trigger] nodes[j]).module_type.same_kind(kind)
}

/// The kinds of the modules, each once, in the order in which they first
/// occur.
pub open spec fn distinct_kinds(nodes: Seq<ArchitectureNode>) -> Seq<ModuleType>
    decreases nodes.len(),
{
    if nodes.len() == 0 {
        Seq::empty()
    } else {
        let rest = distinct_kinds(nodes.drop_last());
        if kind_seen(nodes, nodes.len() - 1, nodes.last().module_type) {
            rest
        } else {
            rest.push(nodes.last().module_type)
        }
    }
}

/// The distribution lists the kinds of the modules, each once and in the
/// order of first occurrence, with the number of modules of that kind.
pub open spec fn is_kind_distribution(
    distribution: Seq<KindCount>,
    nodes: Seq<ArchitectureNode>,
) -> bool {
    &&& distribution.len() == distinct_kinds(nodes).len()
    &&& forall|d: int|
        0 <= d < distribution.len() ==> {
            &&& (#[trigger] distribution[d]).kind == distinct_kinds(nodes)[d]
            &&& distribution[d].count == kind_count(nodes, distribution[d].kind)
        }
}

/// The occurrences counted from `i` on take up no more room than is left.
pub proof fn lemma_occurrences_fit(text: Seq<char>, pat: Seq<char>, i: int)
    requires
        0 <= i <= text.len(),
    ensures
        occurrences_from(text, pat, i) * pat.len() <= text.len() - i,
    decreases text.len() - i,
{
    let p = pat.len() as int;
    let n = occurrences_from(text, pat, i) as int;
    if p == 0 || i + p > text.len() {
        assert(n * p == 0) by (nonlinear_arith)
            requires
                n == 0,
        ;
    } else if occurs_at(text, pat, i) {
        lemma_occurrences_fit(text, pat, i + p);
        let k = occurrences_from(text, pat, i + p) as int;
        assert(n * p == p + k * p) by (nonlinear_arith)
            requires
                n == 1 + k,
        ;
    } else {
        lemma_occurrences_fit(text, pat, i + 1);
    }
}

/// The lines from a position on are the line that starts there, followed by
/// the lines after its line feed.
pub proof fn lemma_lines_step(text: Seq<char>, i: int)
    requires
        0 <= i < text.len(),
    ensures
        lines_from(text, i).len() > 0,
        lines_from(text, i).first() == text.subrange(i, line_end(text, i)),
        lines_from(text, i).drop_first() == if line_end(text, i) >= text.len() {
            Seq::<Seq<char>>::empty()
        } else {
            lines_from(text, line_end(text, i) + 1)
        },
{
    let e = line_end(text, i);
    if e >= text.len() {
        assert(lines_from(text, i).drop_first() =~= Seq::<Seq<char>>::empty());
    } else {
        assert(lines_from(text, i).drop_first() =~= lines_from(text, e + 1));
    }
}

/// A sequence holds a character exactly when the character occurs in it at
/// least once.
pub proof fn lemma_char_occurrences_contains(s: Seq<char>, c: char)
    ensures
        s.contains(c) <==> char_occurrences(s, c) > 0,
    decreases s.len(),
{
    if s.len() > 0 {
        lemma_char_occurrences_contains(s.drop_last(), c);
        if s.contains(c) {
            let i = choose|i: int| 0 <= i < s.len() && s[i] == c;
            if i < s.len() - 1 {
                assert(s.drop_last()[i] == c);
            }
        }
        if s.drop_last().contains(c) {
            let i = choose|i: int| 0 <= i < s.drop_last().len() && s.drop_last()[i] == c;
            assert(s[i] == c);
        }
    }
}

fn cap(x: u128) -> (r: u64)
    ensures
        r == saturate(x as int),
{
    if x >= 0xffff_ffff_ffff_ffffu128 {
        0xffff_ffff_ffff_ffffu64
    } else {
        x as u64
    }
}

fn error_count_of(content: &Vec<char>) -> (n: usize)
    ensures
        n == occurrences(content@, "panic!"@) + occurrences(content@, "unwrap()"@),
{
    let panics = count_of(content, "panic!");
    let unwraps = count_of(content, "unwrap()");
    let len = content.len();
    proof {
        reveal_strlit("panic!");
        reveal_strlit("unwrap()");
        assert(panics * 6 <= len);
        assert(unwraps * 8 <= len);
    }
    panics + unwraps
}

fn count_of(content: &Vec<char>, pattern: &str) -> (n: usize)
    ensures
        n == occurrences(content@, pattern@),
        n * pattern@.len() <= content@.len(),
{
    let pat = to_chars(pattern);
    proof {
        lemma_occurrences_fit(content@, pat@, 0);
    }
    count_occurrences(content, &pat)
}

fn loc_of(content: &Vec<char>) -> (n: usize)
    ensures
        n == lines_of_code(content@),
{
    let line_comment = to_chars("//");
    let block_comment = to_chars("/*");
    let len = content.len();
    let mut i: usize = 0;
    let mut n: usize = 0;
    while i < len
        invariant
            len == content.len(),
            line_comment@ == "//"@,
            block_comment@ == "/*"@,
            n <= i,
            n + code_lines(lines_from(content@, i as int)) == lines_of_code(content@),
        decreases len - i,
    {
        let e = find_line_end(content, i);
        proof {
            lemma_lines_step(content@, i as int);
        }
        let (a, b) = trim_range(content, i, e);
        let is_code = a < b && !range_starts_with(content, a, b, &line_comment)
            && !range_starts_with(content, a, b, &block_comment);
        if is_code {
            n = n + 1;
        }
        if e >= len {
            i = len;
        } else {
            i = e + 1;
        }
    }
    n
}

fn complexity_of(content: &Vec<char>) -> (c: u64)
    ensures
        c == saturate(complexity_tenths(content@) as int),
{
    let is_async = contains_pattern(content, &to_chars("async"));
    let total: u128 = 10 + 5 * (count_of(content, "if ") as u128) + 8 * (count_of(
        content,
        "match ",
    ) as u128) + 6 * (count_of(content, "for ") as u128) + 7 * (count_of(content, "while ") as u128)
        + 8 * (count_of(content, "loop ") as u128) + (count_of(content, "{{") as u128) + (
    if is_async {
        5
    } else {
        0
    }) + 2 * (count_of(content, "?.") as u128) + (count_of(content, "unwrap()") as u128)
        + (count_of(content, "expect(") as u128);
    cap(total)
}

fn cyclomatic_of(content: &Vec<char>) -> (c: u64)
    ensures
        c == saturate(cyclomatic(content@) as int),
{
    let total: u128 = 1 + (count_of(content, "if ") as u128) + (count_of(content, "match ") as u128)
        + (count_of(content, "for ") as u128) + (count_of(content, "while ") as u128) + (count_of(
        content,
        "loop ",
    ) as u128) + (count_of(content, "&&") as u128) + (count_of(content, "||") as u128);
    cap(total)
}

fn cognitive_of(content: &Vec<char>) -> (c: u64)
    ensures
        c == saturate(cognitive_halves(content@) as int),
{
    let kw_if = to_chars("if ");
    let kw_match = to_chars("match ");
    let kw_for = to_chars("for ");
    let kw_while = to_chars("while ");
    let kw_loop = to_chars("loop ");
    let len = content.len();
    let mut i: usize = 0;
    let mut nesting: usize = 0;
    let mut acc: u64 = 0;
    let ghost mut done: nat = 0;
    while i < len
        invariant
            len == content.len(),
            kw_if@ == "if "@,
            kw_match@ == "match "@,
            kw_for@ == "for "@,
            kw_while@ == "while "@,
            kw_loop@ == "loop "@,
            nesting <= i,
            acc == saturate(done as int),
            done + cognitive_of_lines(lines_from(content@, i as int), nesting as nat)
                == cognitive_halves(content@),
        decreases len - i,
    {
        let e = find_line_end(content, i);
        proof {
            lemma_lines_step(content@, i as int);
            lemma_char_occurrences_contains(content@.subrange(i as int, e as int), '{');
            lemma_char_occurrences_contains(content@.subrange(i as int, e as int), '}');
        }
        if count_char(content, i, e, '{') > 0 {
            nesting = nesting + 1;
        }
        if count_char(content, i, e, '}') > 0 && nesting > 0 {
            nesting = nesting - 1;
        }
        let (a, b) = trim_range(content, i, e);
        let weight: u128 = if range_starts_with(content, a, b, &kw_if) {
            2 + 2 * (nesting as u128)
        } else if range_starts_with(content, a, b, &kw_match) {
            4 + 2 * (nesting as u128)
        } else if range_starts_with(content, a, b, &kw_for) || range_starts_with(
            content,
            a,
            b,
            &kw_while,
        ) {
            2 + 2 * (nesting as u128)
        } else if range_starts_with(content, a, b, &kw_loop) {
            3 + 2 * (nesting as u128)
        } else {
            0
        };
        acc = cap(acc as u128 + weight);
        proof {
            done = done + weight as nat;
        }
        if e >= len {
            i = len;
        } else {
            i = e + 1;
        }
    }
    acc
}

fn counter_value(node: &ArchitectureNode, which: Counter) -> (v: u64)
    ensures
        v == counter_of(*node, which),
{
    match which {
        Counter::Lines => node.metrics.lines_of_code as u64,
        Counter::Complexity => node.metrics.complexity_score,
        Counter::Functions => node.metrics.function_count as u64,
        Counter::Structs => node.metrics.struct_count as u64,
        Counter::Enums => node.metrics.enum_count as u64,
        Counter::Traits => node.metrics.trait_count as u64,
    }
}

/// Adds up a counter over the modules.
pub fn sum_counter(nodes: &Vec<ArchitectureNode>, which: Counter) -> (t: u128)
    ensures
        t == total(nodes@, which),
        t <= nodes@.len() * u64::MAX,
{
    let mut t: u128 = 0;
    let mut i: usize = 0;
    while i < nodes.len()
        invariant
            i <= nodes.len(),
            t == total(nodes@.take(i as int), which),
            t <= i * u64::MAX,
        decreases nodes.len() - i,
    {
        assert(nodes@.take(i + 1).drop_last() =~= nodes@.take(i as int));
        t = t + counter_value(&nodes[i], which) as u128;
        i = i + 1;
    }
    assert(nodes@.take(nodes.len() as int) =~= nodes@);
    t
}

fn max_complexity_of(nodes: &Vec<ArchitectureNode>) -> (m: u64)
    ensures
        m == max_complexity(nodes@),
{
    let mut m: u64 = 0;
    let mut i: usize = 0;
    while i < nodes.len()
        invariant
            i <= nodes.len(),
            m == max_complexity(nodes@.take(i as int)),
        decreases nodes.len() - i,
    {
        assert(nodes@.take(i + 1).drop_last() =~= nodes@.take(i as int));
        if nodes[i].metrics.complexity_score > m {
            m = nodes[i].metrics.complexity_score;
        }
        i = i + 1;
    }
    assert(nodes@.take(nodes.len() as int) =~= nodes@);
    m
}

fn min_complexity_of(nodes: &Vec<ArchitectureNode>) -> (m: u64)
    ensures
        m == min_complexity(nodes@),
{
    let mut m: u64 = 0;
    let mut i: usize = 0;
    while i < nodes.len()
        invariant
            i <= nodes.len(),
            m == min_complexity(nodes@.take(i as int)),
        decreases nodes.len() - i,
    {
        assert(nodes@.take(i + 1).drop_last() =~= nodes@.take(i as int));
        if i == 0 || nodes[i].metrics.complexity_score < m {
            m = nodes[i].metrics.complexity_score;
        }
        i = i + 1;
    }
    assert(nodes@.take(nodes.len() as int) =~= nodes@);
    m
}

fn capped(num: u128, den: u128) -> (r: Ratio)
    ensures
        r == capped_at_one(num as nat, den as nat),
{
    Ratio {
        num,
        den: if den > num {
            den
        } else {
            num
        },
    }
}

/// A kind is seen among the first `n` modules of one list exactly when it
/// is seen among the first `n` of another whose first `n` modules have the
/// same kinds.
pub proof fn lemma_kind_seen_alike(
    xs: Seq<ArchitectureNode>,
    ys: Seq<ArchitectureNode>,
    n: int,
    kind: ModuleType,
)
    requires
        n <= xs.len(),
        n <= ys.len(),
        forall|j: int| 0 <= j < n ==> (#[trigger] xs[j]).module_type == ys[j].module_type,
    ensures
        kind_seen(xs, n, kind) == kind_seen(ys, n, kind),
{
    if kind_seen(xs, n, kind) {
        let j = choose|j: int|
            0 <= j < n && j < xs.len() && (#[trigger] xs[j]).module_type.same_kind(kind);
        assert(ys[j].module_type.same_kind(kind));
    }
    if kind_seen(ys, n, kind) {
        let j = choose|j: int|
            0 <= j < n && j < ys.len() && (#[trigger] ys[j]).module_type.same_kind(kind);
        assert(xs[j].module_type == ys[j].module_type);
        assert(xs[j].module_type.same_kind(kind));
    }
}

/// A kind occurs among the first `n` modules exactly when it is one of their
/// distinct kinds, and it is counted at most `n` times.
proof fn lemma_distinct_kinds(nodes: Seq<ArchitectureNode>, kind: ModuleType)
    ensures
        kind_seen(nodes, nodes.len() as int, kind) <==> exists|d: int|
            0 <= d < distinct_kinds(nodes).len() && (#[trigger] distinct_kinds(nodes)[d]).same_kind(
                kind,
            ),
        kind_count(nodes, kind) <= nodes.len(),
        kind_seen(nodes, nodes.len() as int, kind) <==> kind_count(nodes, kind) > 0,
    decreases nodes.len(),
{
    if nodes.len() > 0 {
        let front = nodes.drop_last();
        let last = nodes.last().module_type;
        lemma_distinct_kinds(front, kind);
        lemma_distinct_kinds(front, last);
        let kinds = distinct_kinds(nodes);
        let seen_before = kind_seen(front, front.len() as int, kind);
        lemma_kind_seen_alike(nodes, front, front.len() as int, last);
        if kind_seen(nodes, nodes.len() as int, kind) {
            let j = choose|j: int|
                0 <= j < nodes.len() && j < nodes.len() && (
                #[trigger] nodes[j]).module_type.same_kind(kind);
            if j < nodes.len() - 1 {
                assert(front[j].module_type.same_kind(kind));
                assert(seen_before);
                let d = choose|d: int|
                    0 <= d < distinct_kinds(front).len() && (#[trigger] distinct_kinds(
                        front,
                    )[d]).same_kind(kind);
                assert(kinds[d].same_kind(kind));
            } else {
                assert(last.same_kind(kind));
                if kind_seen(front, front.len() as int, last) {
                    let d = choose|d: int|
                        0 <= d < distinct_kinds(front).len() && (#[trigger] distinct_kinds(
                            front,
                        )[d]).same_kind(last);
                    assert(kinds[d].same_kind(kind));
                } else {
                    assert(kinds[kinds.len() - 1].same_kind(kind));
                }
            }
        }
        if exists|d: int| 0 <= d < kinds.len() && (#[trigger] kinds[d]).same_kind(kind) {
            let d = choose|d: int| 0 <= d < kinds.len() && (#[trigger] kinds[d]).same_kind(kind);
            if d < distinct_kinds(front).len() {
                assert(distinct_kinds(front)[d].same_kind(kind));
                let j = choose|j: int|
                    0 <= j < front.len() && j < front.len() && (
                    #[trigger] front[j]).module_type.same_kind(kind);
                assert(nodes[j].module_type.same_kind(kind));
            } else {
                assert(nodes[nodes.len() - 1].module_type.same_kind(kind));
            }
        }
        if seen_before {
            let j = choose|j: int|
                0 <= j < front.len() && j < front.len() && (
                #[trigger] front[j]).module_type.same_kind(kind);
            assert(nodes[j].module_type.same_kind(kind));
        }
        if last.same_kind(kind) {
            assert(nodes[nodes.len() - 1].module_type.same_kind(kind));
        }
    }
}

/// Lists the kinds of the modules in the order of first occurrence, each
/// with the number of modules of that kind.
pub fn kind_distribution(nodes: &Vec<ArchitectureNode>) -> (distribution: Vec<KindCount>)
    ensures
        is_kind_distribution(distribution@, nodes@),
{
    let mut distribution: Vec<KindCount> = Vec::new();
    let mut i: usize = 0;
    while i < nodes.len()
        invariant
            i <= nodes.len(),
            is_kind_distribution(distribution@, nodes@.take(i as int)),
        decreases nodes.len() - i,
    {
        let ghost before = nodes@.take(i as int);
        let ghost after = nodes@.take(i + 1);
        let ghost old_distribution = distribution@;
        proof {
            assert(after.drop_last() =~= before);
            lemma_distinct_kinds(before, nodes@[i as int].module_type);
            lemma_kind_seen_alike(after, before, i as int, nodes@[i as int].module_type);
        }
        let mut d: usize = 0;
        let mut found: bool = false;
        while d < distribution.len() && !found
            invariant
                i < nodes.len(),
                d <= distribution.len(),
                distribution@ == old_distribution,
                forall|e: int|
                    0 <= e < d - (if found {
                        1int
                    } else {
                        0int
                    }) ==> !(#[trigger] distribution@[e]).kind.same_kind(
                        nodes@[i as int].module_type,
                    ),
                found ==> 0 < d && distribution@[d - 1].kind.same_kind(
                    nodes@[i as int].module_type,
                ),
            decreases distribution.len() - d + (if found {
                0int
            } else {
                1int
            }),
        {
            if distribution[d].kind.is_same_kind(&nodes[i].module_type) {
                found = true;
            }
            d = d + 1;
        }
        if found {
            let slot = d - 1;
            let kind = distribution[slot].kind.duplicate();
            proof {
                lemma_distinct_kinds(before, kind);
            }
            let count = distribution[slot].count + 1;
            distribution.set(slot, KindCount { kind, count });
            proof {
                assert(distinct_kinds(before)[slot as int].same_kind(nodes@[i as int].module_type));
                assert forall|e: int| 0 <= e < distribution@.len() implies {
                    &&& (#[trigger] distribution@[e]).kind == distinct_kinds(after)[e]
                    &&& distribution@[e].count == kind_count(after, distribution@[e].kind)
                } by {
                    assert(old_distribution[e].kind == distinct_kinds(before)[e]);
                    if e != slot {
                        assert(distribution@[e] == old_distribution[e]);
                        if e > slot && distribution@[e].kind.same_kind(
                            nodes@[i as int].module_type,
                        ) {
                            lemma_kinds_differ(before, slot as int, e);
                        }
                    }
                }
            }
        } else {
            distribution.push(KindCount { kind: nodes[i].module_type.duplicate(), count: 1 });
            proof {
                if kind_seen(before, before.len() as int, nodes@[i as int].module_type) {
                    let e = choose|e: int|
                        0 <= e < distinct_kinds(before).len() && (#[trigger] distinct_kinds(
                            before,
                        )[e]).same_kind(nodes@[i as int].module_type);
                    assert(old_distribution[e].kind.same_kind(nodes@[i as int].module_type));
                }
                assert forall|e: int| 0 <= e < distribution@.len() implies {
                    &&& (#[trigger] distribution@[e]).kind == distinct_kinds(after)[e]
                    &&& distribution@[e].count == kind_count(after, distribution@[e].kind)
                } by {
                    if e < old_distribution.len() {
                        assert(distribution@[e] == old_distribution[e]);
                        assert(old_distribution[e].kind == distinct_kinds(before)[e]);
                    }
                }
            }
        }
        i = i + 1;
    }
    assert(nodes@.take(nodes.len() as int) =~= nodes@);
    distribution
}

/// No two of the distinct kinds are the same.
proof fn lemma_kinds_differ(nodes: Seq<ArchitectureNode>, a: int, b: int)
    requires
        0 <= a < b < distinct_kinds(nodes).len(),
    ensures
        !distinct_kinds(nodes)[a].same_kind(distinct_kinds(nodes)[b]),
    decreases nodes.len(),
{
    let front = nodes.drop_last();
    let last = nodes.last().module_type;
    if b < distinct_kinds(front).len() {
        lemma_kinds_differ(front, a, b);
    } else {
        lemma_distinct_kinds(front, last);
        lemma_kind_seen_alike(nodes, front, front.len() as int, last);
        if distinct_kinds(front)[a].same_kind(last) {
            assert(distinct_kinds(front)[a].same_kind(last));
        }
    }
}

/// The dependency density is a well-defined quotient that is zero for fewer
/// than two modules and, where the edges are no more than the ordered pairs
/// of distinct modules, lies between zero and one.
pub proof fn lemma_density_bounds(n: nat, edges: nat)
    requires
        n <= usize::MAX,
        edges <= usize::MAX,
    ensures
        density(n, edges).den > 0,
        density(n, edges).num == if n <= 1 {
            0
        } else {
            edges
        },
        n > 1 ==> density(n, edges).den == n * (n - 1),
        n <= 1 ==> density(n, edges).is_zero(),
        edges <= n * (n - 1) ==> density(n, edges).in_unit_interval(),
{
    if n > 1 {
        assert(0 < n * (n - 1) <= 0xffff_ffff_ffff_ffff * 0xffff_ffff_ffff_ffff)
            by (nonlinear_arith)
            requires
                1 < n <= 0xffff_ffff_ffff_ffff,
        ;
    } else {
        assert(n * (n - 1) == 0) by (nonlinear_arith)
            requires
                0 <= n <= 1,
        ;
    }
}

/// The sum of a counter over the modules is at most the number of modules
/// times the largest value a counter can take.
pub proof fn lemma_total_bound(nodes: Seq<ArchitectureNode>, which: Counter)
    ensures
        total(nodes, which) <= nodes.len() * u64::MAX,
    decreases nodes.len(),
{
    if nodes.len() > 0 {
        lemma_total_bound(nodes.drop_last(), which);
    }
}

/// The maintainability index of any set of modules lies between zero and
/// one, and so does each of its two components.
pub proof fn lemma_maintainability_bounds(nodes: Seq<ArchitectureNode>)
    requires
        nodes.len() <= usize::MAX,
    ensures
        maintainability(nodes).lines_factor.in_unit_interval(),
        maintainability(nodes).complexity_factor.in_unit_interval(),
        maintainability(nodes).in_unit_interval(),
{
    lemma_total_bound(nodes, Counter::Lines);
    lemma_total_bound(nodes, Counter::Complexity);
    let index = maintainability(nodes);
    let ln = index.lines_factor.num as int;
    let ld = index.lines_factor.den as int;
    let cn = index.complexity_factor.num as int;
    let cd = index.complexity_factor.den as int;
    assert(0 < ld * cd && 0 <= ln * cd + cn * ld <= 2 * (ld * cd)) by (nonlinear_arith)
        requires
            0 <= ln <= ld,
            0 <= cn <= cd,
            0 < ld,
            0 < cd,
    ;
}

/// Calculates various metrics for architecture analysis.
pub struct MetricsCalculator {}

impl MetricsCalculator {
    /// A calculator; it keeps no state.
    pub fn new() -> (calculator: Self) {
        Self {  }
    }

    /// Calculates the metrics of one module from its text. The dependency and
    /// dependent counts start at zero; test coverage and build time are not
    /// computed.
    pub fn calculate_node_metrics(&self, content: &str) -> (m: NodeMetrics)
        ensures
            is_metrics_of(m, content@),
    {
        let chars = to_chars(content);
        NodeMetrics {
            lines_of_code: loc_of(&chars),
            complexity_score: complexity_of(&chars),
            test_coverage: 0,
            function_count: count_of(&chars, "fn "),
            struct_count: count_of(&chars, "struct "),
            enum_count: count_of(&chars, "enum "),
            trait_count: count_of(&chars, "trait "),
            last_build_time: None,
            error_count: error_count_of(&chars),
            warning_count: count_of(&chars, "#[warn("),
            dependency_count: 0,
            dependent_count: 0,
            cyclomatic_complexity: cyclomatic_of(&chars),
            cognitive_complexity: cognitive_of(&chars),
        }
    }

    /// Calculates the metrics of the whole graph.
    pub fn calculate_architecture_metrics(
        &self,
        nodes: &Vec<ArchitectureNode>,
        edges: &[DependencyEdge],
    ) -> (m: ArchitectureMetrics)
        ensures
            m.total_functions == total(nodes@, Counter::Functions),
            m.total_structs == total(nodes@, Counter::Structs),
            m.total_enums == total(nodes@, Counter::Enums),
            m.total_traits == total(nodes@, Counter::Traits),
            m.max_complexity == max_complexity(nodes@),
            m.min_complexity == min_complexity(nodes@),
            m.dependency_density == density(nodes@.len(), edges@.len()),
            is_kind_distribution(m.kind_distribution@, nodes@),
            m.maintainability_index == maintainability(nodes@),
            m.maintainability_index.in_unit_interval(),
            nodes@.len() <= 1 ==> m.dependency_density.is_zero(),
            edges@.len() <= nodes@.len() * (nodes@.len() - 1)
                ==> m.dependency_density.in_unit_interval(),
    {
        ArchitectureMetrics {
            total_functions: sum_counter(nodes, Counter::Functions),
            total_structs: sum_counter(nodes, Counter::Structs),
            total_enums: sum_counter(nodes, Counter::Enums),
            total_traits: sum_counter(nodes, Counter::Traits),
            max_complexity: max_complexity_of(nodes),
            min_complexity: min_complexity_of(nodes),
            dependency_density: self.calculate_dependency_density(nodes, edges),
            kind_distribution: self.calculate_kind_distribution(nodes),
            maintainability_index: self.calculate_maintainability_index(nodes),
        }
    }

    /// Calculates the dependency density: the edges per ordered pair of
    /// distinct modules.
    pub fn calculate_dependency_density(
        &self,
        nodes: &Vec<ArchitectureNode>,
        edges: &[DependencyEdge],
    ) -> (r: Ratio)
        ensures
            r == density(nodes@.len(), edges@.len()),
            r.den > 0,
            nodes@.len() <= 1 ==> r.is_zero(),
            edges@.len() <= nodes@.len() * (nodes@.len() - 1) ==> r.in_unit_interval(),
    {
        let node_count = nodes.len();
        let edge_count = edges.len();
        proof {
            lemma_density_bounds(node_count as nat, edge_count as nat);
        }
        if node_count <= 1 {
            return Ratio::zero();
        }
        let n = node_count as u128;
        Ratio { num: edge_count as u128, den: n * (n - 1) }
    }

    /// Lists the kinds of the modules with the number of modules of each
    /// kind: the distribution whose normalised entropy is the modularity
    /// score.
    pub fn calculate_kind_distribution(&self, nodes: &Vec<ArchitectureNode>) -> (distribution: Vec<
        KindCount,
    >)
        ensures
            is_kind_distribution(distribution@, nodes@),
    {
        kind_distribution(nodes)
    }

    /// Calculates the maintainability index; higher is better.
    pub fn calculate_maintainability_index(&self, nodes: &Vec<ArchitectureNode>) -> (index:
        MaintainabilityIndex)
        ensures
            index == maintainability(nodes@),
            index.in_unit_interval(),
    {
        let node_count = nodes.len();
        proof {
            lemma_maintainability_bounds(nodes@);
        }
        if node_count == 0 {
            return MaintainabilityIndex {
                lines_factor: Ratio::zero(),
                complexity_factor: Ratio::zero(),
            };
        }
        let n = node_count as u128;
        let lines = sum_counter(nodes, Counter::Lines);
        let sum = sum_counter(nodes, Counter::Complexity);
        MaintainabilityIndex {
            lines_factor: capped(
                1000,
                if lines > 1 {
                    lines
                } else {
                    1
                },
            ),
            complexity_factor: capped(
                100 * n,
                if sum > 10 * n {
                    sum
                } else {
                    10 * n
                },
            ),
        }
    }

    /// Counts lines of code, leaving out comments and empty lines.
    pub fn count_lines_of_code(&self, content: &str) -> (n: usize)
        ensures
            n == lines_of_code(content@),
    {
        loc_of(&to_chars(content))
    }

    /// Calculates the complexity score, in tenths.
    pub fn calculate_complexity(&self, content: &str) -> (c: u64)
        ensures
            c == saturate(complexity_tenths(content@) as int),
    {
        complexity_of(&to_chars(content))
    }

    /// Calculates the cyclomatic complexity.
    pub fn calculate_cyclomatic_complexity(&self, content: &str) -> (c: u64)
        ensures
            c == saturate(cyclomatic(content@) as int),
    {
        cyclomatic_of(&to_chars(content))
    }

    /// Calculates the cognitive complexity, in halves.
    pub fn calculate_cognitive_complexity(&self, content: &str) -> (c: u64)
        ensures
            c == saturate(cognitive_halves(content@) as int),
    {
        cognitive_of(&to_chars(content))
    }

    /// Counts the functions in the content.
    pub fn count_functions(&self, content: &str) -> (n: usize)
        ensures
            n == occurrences(content@, "fn "@),
    {
        count_of(&to_chars(content), "fn ")
    }

    /// Counts the structs in the content.
    pub fn count_structs(&self, content: &str) -> (n: usize)
        ensures
            n == occurrences(content@, "struct "@),
    {
        count_of(&to_chars(content), "struct ")
    }

    /// Counts the enums in the content.
    pub fn count_enums(&self, content: &str) -> (n: usize)
        ensures
            n == occurrences(content@, "enum "@),
    {
        count_of(&to_chars(content), "enum ")
    }

    /// Counts the traits in the content.
    pub fn count_traits(&self, content: &str) -> (n: usize)
        ensures
            n == occurrences(content@, "trait "@),
    {
        count_of(&to_chars(content), "trait ")
    }

    /// Counts the places that may fail at run time: panics and unchecked
    /// unwraps.
    pub fn count_errors(&self, content: &str) -> (n: usize)
        ensures
            n == occurrences(content@, "panic!"@) + occurrences(content@, "unwrap()"@),
    {
        error_count_of(&to_chars(content))
    }

    /// Counts the warning annotations.
    pub fn count_warnings(&self, content: &str) -> (n: usize)
        ensures
            n == occurrences(content@, "#[warn("@),
    {
        count_of(&to_chars(content), "#[warn(")
    }
}

} // verus!
