//! Randomly shaped forwarding trees for evaluation runs: how many of its
//! connections a user of a given kind forwards a message to.

use crate::tool::utils::random_bytes_16;
use vstd::prelude::*;

verus! {

/// How a user of a generated tree behaves.
#[derive(Debug, Clone, Copy, PartialEq, Eq, Structural)]
pub enum TreeNodeType {
    ActiveFwd,
    InactiveFwd,
    ActiveUser,
    InactiveUser,
}

/// A user of a generated tree: to how many of its `conn_size` connections it
/// forwards.
#[derive(Debug, Clone, Copy)]
pub struct TreeNode {
    pub fwd_size: usize,
    pub conn_size: usize,
    pub fwd_type: TreeNodeType,
}

/// The kind that the draw `draw` stands for: about half of the users are
/// active forwarders, a tenth inactive forwarders, the rest active users.
pub open spec fn spec_type_for(draw: u16) -> TreeNodeType {
    let rand_type = draw % 100;
    if rand_type <= 50 {
        TreeNodeType::ActiveFwd
    } else if rand_type <= 60 {
        TreeNodeType::InactiveFwd
    } else {
        TreeNodeType::ActiveUser
    }
}

/// A size between `min` and `max` from the draw `draw`: `min` where the two
/// are equal, else `min` plus the draw reduced below their difference.
pub open spec fn spec_size_val(min: u16, max: u16, draw: u16) -> int {
    if max == min {
        min as int
    } else {
        min + draw as int % (max - min)
    }
}

/// The sizes of a user of kind `tp` from two draws: the number of forwards
/// and the number of connections.
pub open spec fn spec_sizes_for(tp: TreeNodeType, conn_draw: u16, fwd_draw: u16) -> (int, int) {
    match tp {
        TreeNodeType::ActiveFwd => {
            let conn = spec_size_val(0, 20, conn_draw);
            let size = spec_size_val(0, 5, fwd_draw);
            (if size > conn {
                conn
            } else {
                size
            }, conn)
        },
        TreeNodeType::InactiveFwd => {
            let conn = spec_size_val(0, 20, conn_draw);
            let size = spec_size_val(0, conn as u16, fwd_draw);
            (if size > 2 {
                size % 2
            } else {
                size
            }, conn)
        },
        TreeNodeType::ActiveUser => {
            let conn = spec_size_val(0, 20, conn_draw);
            let size = spec_size_val(0, conn as u16, fwd_draw);
            (if size > 1 {
                1
            } else {
                size
            }, conn)
        },
        TreeNodeType::InactiveUser => {
            let conn = spec_size_val(0, 10, conn_draw);
            let size = spec_size_val(0, conn as u16, fwd_draw);
            (size % 3, conn)
        },
    }
}

/// A fresh random 16-bit draw.
fn random_draw() -> u16 {
    let bytes = random_bytes_16();
    bytes[0] as u16 * 256 + bytes[1] as u16
}

impl TreeNode {
    /// A user with the given sizes and kind.
    pub fn new(fwd: usize, conn: usize, tp: TreeNodeType) -> (node: TreeNode)
        ensures
            node.fwd_size == fwd,
            node.conn_size == conn,
            node.fwd_type == tp,
    {
        TreeNode { fwd_size: fwd, conn_size: conn, fwd_type: tp }
    }

    /// A user of kind `tp` with random sizes. It forwards to no more users
    /// than it is connected to, and it has fewer than 20 connections.
    pub fn new_from_tp(tp: TreeNodeType) -> (node: TreeNode)
        ensures
            node.fwd_type == tp,
            node.fwd_size <= node.conn_size < 20,
            exists|conn_draw: u16, fwd_draw: u16|
                (node.fwd_size as int, node.conn_size as int) == #[trigger] spec_sizes_for(
                    tp,
                    conn_draw,
                    fwd_draw,
                ),
    {
        let (fwd_size, conn_size) = TreeNode::random_size(tp);
        TreeNode::new(fwd_size, conn_size, tp)
    }

    /// A user of a random kind with random sizes.
    pub fn random() -> (node: TreeNode)
        ensures
            node.fwd_size <= node.conn_size < 20,
            node.fwd_type != TreeNodeType::InactiveUser,
            exists|conn_draw: u16, fwd_draw: u16|
                (node.fwd_size as int, node.conn_size as int) == #[trigger] spec_sizes_for(
                    node.fwd_type,
                    conn_draw,
                    fwd_draw,
                ),
    {
        let tp = TreeNode::type_for(random_draw());
        TreeNode::new_from_tp(tp)
    }

    /// The kind that a draw stands for.
    pub fn type_for(draw: u16) -> (tp: TreeNodeType)
        ensures
            tp == spec_type_for(draw),
    {
        let rand_type: u16 = draw % 100;
        if rand_type <= 50 {
            TreeNodeType::ActiveFwd
        } else if rand_type <= 60 {
            TreeNodeType::InactiveFwd
        } else {
            TreeNodeType::ActiveUser
        }
    }

    /// Random sizes for a user of kind `tp`: the number of forwards and the
    /// number of connections.
    pub fn random_size(tp: TreeNodeType) -> (sizes: (usize, usize))
        ensures
            sizes.0 <= sizes.1 < 20,
            exists|conn_draw: u16, fwd_draw: u16|
                (sizes.0 as int, sizes.1 as int) == #[trigger] spec_sizes_for(
                    tp,
                    conn_draw,
                    fwd_draw,
                ),
    {
        let conn_draw = random_draw();
        let fwd_draw = random_draw();
        let sizes = TreeNode::sizes_for(tp, conn_draw, fwd_draw);
        assert((sizes.0 as int, sizes.1 as int) == spec_sizes_for(tp, conn_draw, fwd_draw));
        sizes
    }

    /// The sizes of a user of kind `tp` from two draws.
    pub fn sizes_for(tp: TreeNodeType, conn_draw: u16, fwd_draw: u16) -> (sizes: (usize, usize))
        ensures
            (sizes.0 as int, sizes.1 as int) == spec_sizes_for(tp, conn_draw, fwd_draw),
            sizes.0 <= sizes.1 < 20,
    {
        let fwd_size: usize;
        let conn_size: usize;
        match tp {
            TreeNodeType::ActiveFwd => {
                conn_size = TreeNode::size_val(0, 20, conn_draw);
                let size = TreeNode::size_val(0, 5, fwd_draw);
                if size > conn_size {
                    fwd_size = conn_size
                } else {
                    fwd_size = size
                };
            },
            TreeNodeType::InactiveFwd => {
                conn_size = TreeNode::size_val(0, 20, conn_draw);
                let size = TreeNode::size_val(0, conn_size as u16, fwd_draw);
                if size > 2 {
                    fwd_size = size % 2
                } else {
                    fwd_size = size
                };
            },
            TreeNodeType::ActiveUser => {
                conn_size = TreeNode::size_val(0, 20, conn_draw);
                let size = TreeNode::size_val(0, conn_size as u16, fwd_draw);
                if size > 1 {
                    fwd_size = 1
                } else {
                    fwd_size = size
                };
            },
            TreeNodeType::InactiveUser => {
                conn_size = TreeNode::size_val(0, 10, conn_draw);
                let size = TreeNode::size_val(0, conn_size as u16, fwd_draw);
                fwd_size = size % 3;
            },
        }
        (fwd_size, conn_size)
    }

    /// A size between `min` and `max` from a draw.
    pub fn size_val(min: u16, max: u16, draw: u16) -> (size: usize)
        requires
            min <= max,
        ensures
            size == spec_size_val(min, max, draw),
            min <= size,
            size <= max,
            min < max ==> size < max,
    {
        if max - min == 0 {
            min as usize
        } else {
            (min + draw % (max - min)) as usize
        }
    }
}

} // verus!
