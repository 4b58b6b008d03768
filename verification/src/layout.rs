//! The layout engine: assigns every node a fixed-size tile on a single row,
//! in declaration order, and every link an anchor point on each of its two
//! endpoint tiles.

use vstd::prelude::*;
use vstd::pervasive::unreached;

use crate::data_model::{has_node_id, DataModel, Link, LinkView, Node, NodeView};

verus! {

/// Side of the square tile drawn for every node.
pub const TILE_SIZE: usize = 200;

/// Horizontal space between two neighboring tiles.
pub const GUTTER: usize = 50;

/// Space left of the first tile and above the row.
pub const MARGIN: usize = 50;

/// Fixed canvas width, independent of the node count.
pub const CANVAS_WIDTH: usize = 2560;

/// Fixed canvas height.
pub const CANVAS_HEIGHT: usize = 1440;

/// A point on the canvas.
#[derive(Clone, Copy, Debug, PartialEq, Eq, Structural)]
pub struct Position {
    pub x: usize,
    pub y: usize,
}

/// A rectangle's extent.
#[derive(Clone, Copy, Debug, PartialEq, Eq, Structural)]
pub struct Size {
    pub width: usize,
    pub height: usize,
}

/// A node together with its tile's position and size.
#[derive(Debug)]
pub struct NodeLayout {
    pub node: Node,
    pub position: Position,
    pub size: Size,
}

/// A link together with its two anchor points.
#[derive(Debug)]
pub struct LinkLayout {
    pub link: Link,
    pub start_position: Position,
    pub end_position: Position,
}

/// The geometry of a whole diagram.
#[derive(Debug)]
pub struct Layout {
    pub size: Size,
    pub node_layouts: Vec<NodeLayout>,
    pub link_layouts: Vec<LinkLayout>,
}

/// The index of the first node in `nodes` that carries `id`.
pub open spec fn node_index_of(nodes: Seq<NodeView>, id: Seq<char>) -> int
    decreases nodes.len(),
{
    if nodes.len() == 0 {
        0
    } else if nodes[0].id == id {
        0
    } else {
        1 + node_index_of(nodes.drop_first(), id)
    }
}

/// Where some node carries `id`, `node_index_of` finds the first one.
pub proof fn lemma_node_index_of(nodes: Seq<NodeView>, id: Seq<char>)
    requires
        has_node_id(nodes, id),
    ensures
        0 <= node_index_of(nodes, id) < nodes.len(),
        nodes[node_index_of(nodes, id)].id == id,
        forall|m: int| 0 <= m < node_index_of(nodes, id) ==> (#[trigger] nodes[m]).id != id,
    decreases nodes.len(),
{
    if nodes.len() > 0 && nodes[0].id != id {
        assert(has_node_id(nodes.drop_first(), id)) by {
            let k = choose|k: int| 0 <= k < nodes.len() && (#[trigger] nodes[k]).id == id;
            assert(nodes.drop_first()[k - 1] == nodes[k]);
        }
        lemma_node_index_of(nodes.drop_first(), id);
        let r = node_index_of(nodes.drop_first(), id);
        assert(nodes[1 + r] == nodes.drop_first()[r]);
        assert forall|m: int| 0 <= m < 1 + r implies (#[trigger] nodes[m]).id != id by {
            if m > 0 {
                assert(nodes.drop_first()[m - 1] == nodes[m]);
            }
        }
    }
}

/// Where every link resolves, the node indices a layout's anchors derive
/// from exist: each anchor belongs to a declared node's tile.
pub proof fn lemma_link_indices_in_range(nodes: Seq<NodeView>, links: Seq<LinkView>)
    requires
        forall|j: int|
            0 <= j < links.len() ==> has_node_id(nodes, (#[trigger] links[j]).start_id)
                && has_node_id(nodes, links[j].end_id),
    ensures
        forall|j: int|
            0 <= j < links.len() ==> {
                let s = node_index_of(nodes, (#[trigger] links[j]).start_id);
                let e = node_index_of(nodes, links[j].end_id);
                &&& 0 <= s < nodes.len()
                &&& nodes[s].id == links[j].start_id
                &&& 0 <= e < nodes.len()
                &&& nodes[e].id == links[j].end_id
            },
{
    assert forall|j: int| 0 <= j < links.len() implies {
        let s = node_index_of(nodes, (#[trigger] links[j]).start_id);
        let e = node_index_of(nodes, links[j].end_id);
        &&& 0 <= s < nodes.len()
        &&& nodes[s].id == links[j].start_id
        &&& 0 <= e < nodes.len()
        &&& nodes[e].id == links[j].end_id
    } by {
        lemma_node_index_of(nodes, links[j].start_id);
        lemma_node_index_of(nodes, links[j].end_id);
    }
}

/// The index of the first layout whose node carries `id`.
fn find_node_layout_index(node_layouts: &Vec<NodeLayout>, id: &String) -> (j: usize)
    requires
        exists|k: int|
            0 <= k < node_layouts@.len() && (#[trigger] node_layouts@[k]).node.id@ == id@,
    ensures
        j < node_layouts@.len(),
        node_layouts@[j as int].node.id@ == id@,
        forall|m: int| 0 <= m < j ==> (#[trigger] node_layouts@[m]).node.id@ != id@,
{
    let mut j: usize = 0;
    while j < node_layouts.len()
        invariant
            j <= node_layouts@.len(),
            exists|k: int|
                0 <= k < node_layouts@.len() && (#[trigger] node_layouts@[k]).node.id@ == id@,
            forall|m: int| 0 <= m < j ==> (#[trigger] node_layouts@[m]).node.id@ != id@,
        decreases node_layouts@.len() - j,
    {
        if node_layouts[j].node.id == *id {
            return j;
        }
        j = j + 1;
    }
    proof {
        assert(false);
    }
    unreached()
}

/// Place every node and anchor every link.
///
/// Node `i` (0-based, in declaration order) gets the tile at
/// `x = MARGIN + i * (TILE_SIZE + GUTTER)`, `y = MARGIN`.  A link starts at
/// the midpoint of its start node's right edge and ends at the midpoint of
/// its end node's left edge, the nodes found by first matching id.  The
/// canvas size is a constant, whatever the node count.
pub fn create_layout(data_model: DataModel) -> (layout: Layout)
    requires
        data_model@.links_resolve(),
        data_model@.nodes.len() * (TILE_SIZE + GUTTER) <= usize::MAX,
    ensures
        layout.size == (Size { width: CANVAS_WIDTH, height: CANVAS_HEIGHT }),
        layout.node_layouts@.len() == data_model@.nodes.len(),
        forall|i: int|
            0 <= i < data_model@.nodes.len() ==> (#[trigger] layout.node_layouts@[i]).node@
                == data_model@.nodes[i],
        forall|i: int|
            0 <= i < data_model@.nodes.len() ==> {
                let nl = #[trigger] layout.node_layouts@[i];
                &&& nl.position.x == MARGIN + i * (TILE_SIZE + GUTTER)
                &&& nl.position.y == MARGIN
                &&& nl.size == (Size { width: TILE_SIZE, height: TILE_SIZE })
            },
        layout.link_layouts@.len() == data_model@.links.len(),
        forall|j: int|
            0 <= j < data_model@.links.len() ==> (#[trigger] layout.link_layouts@[j]).link@
                == data_model@.links[j],
        forall|j: int|
            0 <= j < data_model@.links.len() ==> {
                let ll = #[trigger] layout.link_layouts@[j];
                let s = node_index_of(data_model@.nodes, data_model@.links[j].start_id);
                let e = node_index_of(data_model@.nodes, data_model@.links[j].end_id);
                let snl = layout.node_layouts@[s];
                let enl = layout.node_layouts@[e];
                &&& ll.start_position.x == snl.position.x + snl.size.width
                &&& ll.start_position.y == snl.position.y + snl.size.height / 2
                &&& ll.end_position.x == enl.position.x
                &&& ll.end_position.y == enl.position.y + enl.size.height / 2
            },
{
    let ghost nodes_v = data_model@.nodes;
    let mut node_layouts: Vec<NodeLayout> = Vec::new();
    let mut i: usize = 0;
    while i < data_model.nodes.len()
        invariant
            nodes_v == data_model@.nodes,
            nodes_v.len() * (TILE_SIZE + GUTTER) <= usize::MAX,
            i <= nodes_v.len(),
            node_layouts@.len() == i,
            forall|m: int|
                0 <= m < i ==> (#[trigger] node_layouts@[m]).node@ == nodes_v[m],
            forall|m: int|
                0 <= m < i ==> {
                    let nl = #[trigger] node_layouts@[m];
                    &&& nl.position.x == MARGIN + m * (TILE_SIZE + GUTTER)
                    &&& nl.position.y == MARGIN
                    &&& nl.size == (Size { width: TILE_SIZE, height: TILE_SIZE })
                },
        decreases nodes_v.len() - i,
    {
        proof {
            assert((i as int) * 250 + 250 <= (nodes_v.len() as int) * 250) by (nonlinear_arith)
                requires
                    (i as int) < (nodes_v.len() as int),
            ;
        }
        let x = MARGIN + i * TILE_SIZE + i * GUTTER;
        let node = data_model.nodes[i].clone();
        node_layouts.push(
            NodeLayout {
                node,
                position: Position { x, y: MARGIN },
                size: Size { width: TILE_SIZE, height: TILE_SIZE },
            },
        );
        i = i + 1;
    }
    let mut link_layouts: Vec<LinkLayout> = Vec::new();
    let mut j: usize = 0;
    while j < data_model.links.len()
        invariant
            nodes_v == data_model@.nodes,
            data_model@.links_resolve(),
            nodes_v.len() * (TILE_SIZE + GUTTER) <= usize::MAX,
            node_layouts@.len() == nodes_v.len(),
            forall|m: int|
                0 <= m < nodes_v.len() ==> (#[trigger] node_layouts@[m]).node@ == nodes_v[m],
            forall|m: int|
                0 <= m < nodes_v.len() ==> {
                    let nl = #[trigger] node_layouts@[m];
                    &&& nl.position.x == MARGIN + m * (TILE_SIZE + GUTTER)
                    &&& nl.position.y == MARGIN
                    &&& nl.size == (Size { width: TILE_SIZE, height: TILE_SIZE })
                },
            j <= data_model@.links.len(),
            link_layouts@.len() == j,
            forall|m: int|
                0 <= m < j ==> (#[trigger] link_layouts@[m]).link@ == data_model@.links[m],
            forall|m: int|
                0 <= m < j ==> {
                    let ll = #[trigger] link_layouts@[m];
                    let s = node_index_of(nodes_v, data_model@.links[m].start_id);
                    let e = node_index_of(nodes_v, data_model@.links[m].end_id);
                    let snl = node_layouts@[s];
                    let enl = node_layouts@[e];
                    &&& ll.start_position.x == snl.position.x + snl.size.width
                    &&& ll.start_position.y == snl.position.y + snl.size.height / 2
                    &&& ll.end_position.x == enl.position.x
                    &&& ll.end_position.y == enl.position.y + enl.size.height / 2
                },
        decreases data_model@.links.len() - j,
    {
        let link = data_model.links[j].clone();
        let ghost sid = data_model@.links[j as int].start_id;
        let ghost eid = data_model@.links[j as int].end_id;
        proof {
            lemma_node_index_of(nodes_v, sid);
            lemma_node_index_of(nodes_v, eid);
            let ks = node_index_of(nodes_v, sid);
            assert(node_layouts@[ks].node.id@ == sid);
            let ke = node_index_of(nodes_v, eid);
            assert(node_layouts@[ke].node.id@ == eid);
        }
        let sj = find_node_layout_index(&node_layouts, &link.start_id);
        let ej = find_node_layout_index(&node_layouts, &link.end_id);
        proof {
            let ks = node_index_of(nodes_v, sid);
            if sj < ks {
                assert(nodes_v[sj as int].id == sid);
            }
            if ks < sj {
                assert(node_layouts@[ks].node.id@ == sid);
            }
            assert(sj == ks);
            let ke = node_index_of(nodes_v, eid);
            if ej < ke {
                assert(nodes_v[ej as int].id == eid);
            }
            if ke < ej {
                assert(node_layouts@[ke].node.id@ == eid);
            }
            assert(ej == ke);
        }
        proof {
            assert((sj as int) * 250 + 250 <= (nodes_v.len() as int) * 250) by (nonlinear_arith)
                requires
                    (sj as int) < (nodes_v.len() as int),
            ;
        }
        let start_position = Position {
            x: node_layouts[sj].position.x + node_layouts[sj].size.width,
            y: node_layouts[sj].position.y + node_layouts[sj].size.height / 2,
        };
        let end_position = Position {
            x: node_layouts[ej].position.x,
            y: node_layouts[ej].position.y + node_layouts[ej].size.height / 2,
        };
        link_layouts.push(LinkLayout { link, start_position, end_position });
        j = j + 1;
    }
    Layout { size: Size { width: CANVAS_WIDTH, height: CANVAS_HEIGHT }, node_layouts, link_layouts }
}

} // verus!
