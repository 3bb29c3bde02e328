//! What a drawing of an architecture map reads off its modules and edges:
//! names, colours, positions and sizes. Lengths are in thousandths of a
//! layout unit.

use crate::config::project_config::{LayoutType, Theme};
use crate::text::to_chars;
use crate::types::{ArchitectureNode, DependencyEdge, ModuleType, NodeStatus, Position};
use vstd::arithmetic::div_mod::lemma_add_mod_noop;
use vstd::prelude::*;

verus! {

/// Width and height of the box of a module.
#[derive(Debug, Clone, Copy, PartialEq, Eq, Structural)]
pub struct NodeSize {
    pub width: u64,
    pub height: u64,
}

/// The name by which a page knows a theme.
pub open spec fn spec_theme_name(theme: Theme) -> Seq<char> {
    match theme {
        Theme::Dark => "dark"@,
        Theme::Light => "light"@,
        Theme::Auto => "auto"@,
        Theme::Custom(value) => value@,
    }
}

/// The name by which a page knows a layout.
pub open spec fn spec_layout_name(layout: LayoutType) -> Seq<char> {
    match layout {
        LayoutType::Grid => "grid"@,
        LayoutType::ForceDirected => "force-directed"@,
        LayoutType::Hierarchical => "hierarchical"@,
        LayoutType::Circular => "circular"@,
        LayoutType::Custom(value) => value@,
    }
}

/// The gradient that fills the box of a module of a kind.
pub open spec fn spec_gradient_id(kind: ModuleType) -> Seq<char> {
    match kind {
        ModuleType::API => "api-gradient"@,
        ModuleType::DataProcessing => "data-gradient"@,
        _ => "core-gradient"@,
    }
}

/// Number of modules that are active.
pub open spec fn active_count(nodes: Seq<ArchitectureNode>) -> nat
    decreases nodes.len(),
{
    if nodes.len() == 0 {
        0
    } else {
        active_count(nodes.drop_last()) + if nodes.last().status == NodeStatus::Active {
            1nat
        } else {
            0nat
        }
    }
}

/// The sum of the code points of a text.
pub open spec fn code_sum(text: Seq<char>) -> nat
    decreases text.len(),
{
    if text.len() == 0 {
        0
    } else {
        code_sum(text.drop_last()) + (text.last() as u32) as nat
    }
}

/// The place of a module without a position of its own: the modules are laid
/// out on a grid of four columns, 200 units apart, in rows 150 units apart,
/// the first at 100 by 100. The cell of a module is the sum of the code
/// points of its id, counted modulo 2^32.
pub open spec fn grid_position(id: Seq<char>) -> Position {
    let cell = code_sum(id) % 0x1_0000_0000;
    Position {
        x: ((100 + (cell % 4) * 200) * 1000) as i64,
        y: ((100 + (cell / 4) * 150) * 1000) as i64,
        z: 0,
    }
}

/// The place of a module: its own position, or else its place on the grid.
pub open spec fn spec_node_position(node: ArchitectureNode) -> Position {
    match node.position {
        Some(position) => position,
        None => grid_position(node.id@),
    }
}

/// The size of the box of a module: 150 wide and 80 high, up to 50 wider as
/// the complexity score goes up to 10, and up to 30 higher as the lines of
/// code go up to 1000.
pub open spec fn spec_node_size(node: ArchitectureNode) -> NodeSize {
    let complexity = node.metrics.complexity_score;
    let lines = node.metrics.lines_of_code;
    NodeSize {
        width: (150000 + if complexity < 100 {
            complexity * 500
        } else {
            50000
        }) as u64,
        height: (80000 + if lines < 1000 {
            lines * 30
        } else {
            30000
        }) as u64,
    }
}

/// The width of the arrow of an edge: three times its strength, and at least
/// one unit.
pub open spec fn spec_stroke_width(edge: DependencyEdge) -> nat {
    if edge.strength * 300 > 1000 {
        (edge.strength * 300) as nat
    } else {
        1000
    }
}

/// The name by which a page knows a theme.
pub fn theme_name(theme: &Theme) -> (name: String)
    ensures
        name@ == spec_theme_name(*theme),
{
    match theme {
        Theme::Dark => "dark".to_owned(),
        Theme::Light => "light".to_owned(),
        Theme::Auto => "auto".to_owned(),
        Theme::Custom(value) => value.clone(),
    }
}

/// The name by which a page knows a layout.
pub fn layout_name(layout: &LayoutType) -> (name: String)
    ensures
        name@ == spec_layout_name(*layout),
{
    match layout {
        LayoutType::Grid => "grid".to_owned(),
        LayoutType::ForceDirected => "force-directed".to_owned(),
        LayoutType::Hierarchical => "hierarchical".to_owned(),
        LayoutType::Circular => "circular".to_owned(),
        LayoutType::Custom(value) => value.clone(),
    }
}

/// The gradient that fills the box of a module of a kind.
pub fn gradient_id(kind: &ModuleType) -> (id: &'static str)
    ensures
        id@ == spec_gradient_id(*kind),
{
    match kind {
        ModuleType::Core => "core-gradient",
        ModuleType::API => "api-gradient",
        ModuleType::DataProcessing => "data-gradient",
        _ => "core-gradient",
    }
}

/// Counts the modules that are active.
pub fn count_active(nodes: &Vec<ArchitectureNode>) -> (n: usize)
    ensures
        n == active_count(nodes@),
{
    let mut n: usize = 0;
    let mut i: usize = 0;
    while i < nodes.len()
        invariant
            i <= nodes.len(),
            n <= i,
            n == active_count(nodes@.take(i as int)),
        decreases nodes.len() - i,
    {
        assert(nodes@.take(i + 1).drop_last() =~= nodes@.take(i as int));
        if matches!(nodes[i].status, NodeStatus::Active) {
            n = n + 1;
        }
        i = i + 1;
    }
    assert(nodes@.take(nodes.len() as int) =~= nodes@);
    n
}

/// The place of a module on the grid, from its id.
pub fn fallback_position(id: &str) -> (position: Position)
    ensures
        position == grid_position(id@),
{
    let chars = to_chars(id);
    let mut cell: u64 = 0;
    let mut i: usize = 0;
    while i < chars.len()
        invariant
            i <= chars.len(),
            cell < 0x1_0000_0000,
            cell == code_sum(chars@.take(i as int)) % 0x1_0000_0000,
        decreases chars.len() - i,
    {
        let code: u32 = chars[i] as u32;
        proof {
            assert(chars@.take(i + 1).drop_last() =~= chars@.take(i as int));
            assert(chars@.take(i + 1).last() == chars@[i as int]);
            assert(code == chars@[i as int] as u32);
            lemma_add_mod_noop(
                code_sum(chars@.take(i as int)) as int,
                code as int,
                0x1_0000_0000,
            );
            assert((code as int) % 0x1_0000_0000 == code);
        }
        cell = (cell + code as u64) % 0x1_0000_0000;
        i = i + 1;
    }
    assert(chars@.take(chars.len() as int) =~= chars@);
    let column = cell % 4;
    let row = cell / 4;
    Position {
        x: ((100 + column * 200) * 1000) as i64,
        y: ((100 + row * 150) * 1000) as i64,
        z: 0,
    }
}

/// The place of a module.
pub fn node_position(node: &ArchitectureNode) -> (position: Position)
    ensures
        position == spec_node_position(*node),
{
    match node.position {
        Some(position) => position,
        None => fallback_position(node.id.as_str()),
    }
}

/// The size of the box of a module.
pub fn node_size(node: &ArchitectureNode) -> (size: NodeSize)
    ensures
        size == spec_node_size(*node),
{
    let complexity = node.metrics.complexity_score;
    let lines = node.metrics.lines_of_code;
    NodeSize {
        width: 150000 + if complexity < 100 {
            complexity * 500
        } else {
            50000
        },
        height: 80000 + if lines < 1000 {
            (lines as u64) * 30
        } else {
            30000
        },
    }
}

/// The width of the arrow of an edge.
pub fn stroke_width(edge: &DependencyEdge) -> (width: u128)
    ensures
        width == spec_stroke_width(*edge),
{
    let scaled: u128 = (edge.strength as u128) * 300;
    if scaled > 1000 {
        scaled
    } else {
        1000
    }
}

} // verus!
