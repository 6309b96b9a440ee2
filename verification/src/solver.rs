//! The two frame-tick passes over a chain: forward-kinematics propagation
//! and the FABRIK inverse-kinematics solver.
//!
//! The spec functions here are the exact mathematical model of the
//! executable passes: one attach step per node, folded over a chain. The
//! contracts of [`process_fk`] and [`fabrik`] pin the final store to this
//! model.

use vstd::prelude::*;

use crate::angle::{angle_diff, spec_angle_diff};
use crate::chain::{ForwardKinematic, InverseKinematic};
use crate::fx::{
    clamp, spec_clamp, Vec2, Vec2View, ANGLE_LIMIT, CHAIN_MAX, HALF_TURN, POSE_BOUND, RADIUS_MAX,
    ROOT_BOUND, UNIT,
};
use crate::node::{Node, NodeView};
use crate::store::{gather, id_ints, ids_ok, scattered, NodeManager};
use crate::trig::{atan2_fx, lemma_polar_bound, polar, spec_atan2, spec_polar};

verus! {

/// The unconstrained attach rule of the backward FABRIK pass: the child
/// points from itself toward the parent and hangs from the parent at
/// distance `parent.radius`, with no rotation-limit clamping.
pub open spec fn attach_free(parent: NodeView, child: NodeView) -> NodeView {
    let rot = spec_atan2(parent.pos.y - child.pos.y, parent.pos.x - child.pos.x);
    let off = spec_polar(rot, parent.radius);
    NodeView {
        rotation: rot,
        pos: Vec2View { x: parent.pos.x - off.x, y: parent.pos.y - off.y },
        ..child
    }
}

/// The constrained attach rule of forward kinematics and the forward
/// FABRIK pass: the raw orientation toward the parent is clamped so that
/// its offset from the parent's orientation stays within the child's
/// rotation limits, and the child hangs from the parent at distance
/// `parent.radius` along the clamped orientation.
pub open spec fn attach_clamped(parent: NodeView, child: NodeView) -> NodeView {
    let raw = spec_atan2(parent.pos.y - child.pos.y, parent.pos.x - child.pos.x);
    let diff = spec_clamp(
        spec_angle_diff(raw, parent.rotation),
        child.min_rotation,
        child.max_rotation,
    );
    let rot = parent.rotation + diff;
    let off = spec_polar(rot, parent.radius);
    NodeView {
        rotation: rot,
        pos: Vec2View { x: parent.pos.x - off.x, y: parent.pos.y - off.y },
        ..child
    }
}

/// One forward pass over a chain: the root is untouched, and each
/// following node is attached, clamped, to its already-updated parent.
pub open spec fn fk_pass(s: Seq<NodeView>) -> Seq<NodeView>
    decreases s.len(),
{
    if s.len() <= 1 {
        s
    } else {
        let prefix = fk_pass(s.drop_last());
        prefix.push(attach_clamped(prefix.last(), s.last()))
    }
}

/// One backward pass over a chain: the tail is untouched, and each
/// earlier node is attached, unconstrained, to its already-updated
/// successor, from the tail down to the root.
pub open spec fn backward_pass(s: Seq<NodeView>) -> Seq<NodeView>
    decreases s.len(),
{
    if s.len() <= 1 {
        s
    } else {
        let rest = backward_pass(s.drop_first());
        seq![attach_free(rest.first(), s.first())] + rest
    }
}

/// `n` moved to position `p`, all other fields kept.
pub open spec fn with_pos(n: NodeView, p: Vec2View) -> NodeView {
    NodeView { pos: p, ..n }
}

/// `n` moved to position `p` and reoriented to `rot`, all other fields
/// kept.
pub open spec fn with_pose(n: NodeView, p: Vec2View, rot: int) -> NodeView {
    NodeView { pos: p, rotation: rot, ..n }
}

/// Whether `p` lies within the convergence threshold (one pixel) of `t`.
pub open spec fn near_target(p: Vec2View, t: Vec2View) -> bool {
    (p.x - t.x) * (p.x - t.x) + (p.y - t.y) * (p.y - t.y) < (UNIT as int) * (UNIT as int)
}

/// One FABRIK cycle on a chain of at least two nodes: the tail is moved
/// to the target and the backward pass condenses the chain toward it;
/// the root is pinned back to the anchor with its starting orientation;
/// the forward pass re-imposes the rotation limits from the root out.
pub open spec fn fabrik_cycle(
    s: Seq<NodeView>,
    anchor: Vec2View,
    root_rot: int,
    target: Vec2View,
) -> Seq<NodeView> {
    let pulled = backward_pass(s.update(s.len() - 1, with_pos(s.last(), target)));
    let pinned = pulled.update(0, with_pose(pulled.first(), anchor, root_rot));
    fk_pass(pinned)
}

/// A full FABRIK run: up to `cycles` cycles, stopping early as soon as
/// the tail ends a cycle within the convergence threshold of the target.
/// Returns the final chain and whether the target was reached.
pub open spec fn fabrik_run(
    s: Seq<NodeView>,
    anchor: Vec2View,
    root_rot: int,
    target: Vec2View,
    cycles: nat,
) -> (Seq<NodeView>, bool)
    decreases cycles,
{
    if cycles == 0 {
        (s, false)
    } else {
        let c = fabrik_cycle(s, anchor, root_rot, target);
        if near_target(c.last().pos, target) {
            (c, true)
        } else {
            fabrik_run(c, anchor, root_rot, target, (cycles - 1) as nat)
        }
    }
}

/// The forward pass keeps the chain's length.
pub proof fn lemma_fk_pass_len(s: Seq<NodeView>)
    ensures
        fk_pass(s).len() == s.len(),
    decreases s.len(),
{
    if s.len() > 1 {
        lemma_fk_pass_len(s.drop_last());
    }
}

/// The backward pass keeps the chain's length.
pub proof fn lemma_backward_pass_len(s: Seq<NodeView>)
    ensures
        backward_pass(s).len() == s.len(),
    decreases s.len(),
{
    if s.len() > 1 {
        lemma_backward_pass_len(s.drop_first());
    }
}

/// Extending a prefix by one node extends its forward pass by one attach
/// step: the unrolling that ties the executable loop to [`fk_pass`].
proof fn lemma_fk_pass_step(s: Seq<NodeView>, i: int)
    requires
        1 <= i < s.len(),
    ensures
        fk_pass(s.take(i + 1)) == fk_pass(s.take(i)).push(
            attach_clamped(fk_pass(s.take(i)).last(), s[i]),
        ),
{
    assert(s.take(i + 1).drop_last() =~= s.take(i));
    assert(s.take(i + 1).last() == s[i]);
}

/// Extending a suffix by one node extends its backward pass by one attach
/// step at the front: the unrolling that ties the executable loop to
/// [`backward_pass`].
proof fn lemma_backward_pass_step(s: Seq<NodeView>, i: int)
    requires
        1 <= i < s.len(),
    ensures
        backward_pass(s.skip(i - 1)) == seq![
            attach_free(backward_pass(s.skip(i)).first(), s[i - 1]),
        ] + backward_pass(s.skip(i)),
{
    assert(s.skip(i - 1).drop_first() =~= s.skip(i));
    assert(s.skip(i - 1).first() == s[i - 1]);
    assert(s.skip(i - 1).len() > 1);
}

/// A prefix of a forward pass is the forward pass of the prefix: each
/// node's result depends only on the nodes before it.
proof fn lemma_fk_pass_prefix(s: Seq<NodeView>, k: int)
    requires
        0 <= k <= s.len(),
    ensures
        fk_pass(s).take(k) == fk_pass(s.take(k)),
    decreases s.len(),
{
    lemma_fk_pass_len(s);
    if k == s.len() {
        assert(fk_pass(s).take(k) =~= fk_pass(s));
        assert(s.take(k) =~= s);
    } else if s.len() > 1 {
        lemma_fk_pass_prefix(s.drop_last(), k);
        lemma_fk_pass_len(s.drop_last());
        assert(fk_pass(s).take(k) =~= fk_pass(s.drop_last()).take(k));
        assert(s.drop_last().take(k) =~= s.take(k));
    }
}

/// Unrolls one node of a forward pass: node `i` of the result is node
/// `i` of the input attached, clamped, to node `i - 1` of the result.
pub proof fn lemma_fk_pass_index(s: Seq<NodeView>, i: int)
    requires
        1 <= i < s.len(),
    ensures
        fk_pass(s).len() == s.len(),
        fk_pass(s)[i] == attach_clamped(fk_pass(s)[i - 1], s[i]),
    decreases s.len(),
{
    lemma_fk_pass_len(s);
    lemma_fk_pass_len(s.take(i));
    lemma_fk_pass_len(s.take(i + 1));
    lemma_fk_pass_step(s, i);
    lemma_fk_pass_prefix(s, i);
    lemma_fk_pass_prefix(s, i + 1);
    assert(fk_pass(s)[i] == fk_pass(s).take(i + 1)[i]);
    assert(fk_pass(s)[i - 1] == fk_pass(s).take(i)[i - 1]);
    assert(fk_pass(s.take(i)).last() == fk_pass(s).take(i)[i - 1]);
}

/// The forward pass leaves the root untouched and never changes any
/// node's radius or rotation limits.
pub proof fn lemma_fk_pass_frame(s: Seq<NodeView>)
    ensures
        fk_pass(s).len() == s.len(),
        s.len() > 0 ==> fk_pass(s)[0] == s[0],
        forall|k: int|
            0 <= k < s.len() ==> (#[trigger] fk_pass(s)[k]).radius == s[k].radius && fk_pass(
                s,
            )[k].min_rotation == s[k].min_rotation && fk_pass(s)[k].max_rotation
                == s[k].max_rotation,
    decreases s.len(),
{
    lemma_fk_pass_len(s);
    if s.len() > 1 {
        lemma_fk_pass_frame(s.drop_last());
        lemma_fk_pass_len(s.drop_last());
        assert forall|k: int|
            0 <= k < s.len() implies (#[trigger] fk_pass(s)[k]).radius == s[k].radius && fk_pass(
            s,
        )[k].min_rotation == s[k].min_rotation && fk_pass(s)[k].max_rotation
            == s[k].max_rotation by {
            if k < s.len() - 1 {
                assert(fk_pass(s)[k] == fk_pass(s.drop_last())[k]);
                assert(s.drop_last()[k] == s[k]);
            }
        }
    }
}

/// The mathematical values of a buffer of nodes.
pub open spec fn chain_view(v: Seq<Node>) -> Seq<NodeView> {
    v.map_values(|n: Node| n@)
}

/// Every node of the chain is well formed.
pub open spec fn nodes_wf(s: Seq<NodeView>) -> bool {
    forall|k: int| 0 <= k < s.len() ==> (#[trigger] s[k]).wf()
}

/// The pose a pass may start from: within [`ROOT_BOUND`], so that every
/// position and orientation the pass derives stays within the fixed-point
/// working range.
pub open spec fn root_pose_ok(n: NodeView) -> bool {
    &&& -ROOT_BOUND <= n.pos.x <= ROOT_BOUND
    &&& -ROOT_BOUND <= n.pos.y <= ROOT_BOUND
    &&& -ROOT_BOUND <= n.rotation <= ROOT_BOUND
}

/// Largest position coordinate a pass can produce from a root pose
/// within [`ROOT_BOUND`].
pub open spec fn pass_pos_bound() -> int {
    ROOT_BOUND + (CHAIN_MAX as int) * RADIUS_MAX
}

/// Largest orientation magnitude a pass can produce from a root pose
/// within [`ROOT_BOUND`].
pub open spec fn pass_rot_bound() -> int {
    ROOT_BOUND + (CHAIN_MAX as int) * ANGLE_LIMIT
}

/// Runs the constrained forward pass in place over a working buffer:
/// afterwards the buffer holds exactly [`fk_pass`] of what it held
/// before, and every derived pose is bounded by how far a chain can
/// reach from its root.
#[verifier::rlimit(100)]
fn propagate_forward(buffer: &mut Vec<Node>)
    requires
        1 <= old(buffer)@.len() <= CHAIN_MAX,
        nodes_wf(chain_view(old(buffer)@)),
        root_pose_ok(old(buffer)@[0]@),
    ensures
        final(buffer)@.len() == old(buffer)@.len(),
        chain_view(final(buffer)@) == fk_pass(chain_view(old(buffer)@)),
        final(buffer)@[0] == old(buffer)@[0],
        forall|k: int|
            0 <= k < final(buffer)@.len() ==> {
                let n = #[trigger] final(buffer)@[k];
                -pass_pos_bound() <= n.pos.x <= pass_pos_bound() && -pass_pos_bound() <= n.pos.y
                    <= pass_pos_bound() && -pass_rot_bound() <= n.rotation <= pass_rot_bound()
            },
{
    let ghost s = chain_view(old(buffer)@);
    let len = buffer.len();
    let mut i: usize = 1;
    while i < len
        invariant
            1 <= i <= len == buffer@.len() <= CHAIN_MAX,
            s == chain_view(old(buffer)@),
            s.len() == len,
            nodes_wf(s),
            root_pose_ok(s[0]),
            forall|k: int| i <= k < len ==> #[trigger] buffer@[k] == old(buffer)@[k],
            buffer@[0] == old(buffer)@[0],
            chain_view(buffer@).take(i as int) == fk_pass(s.take(i as int)),
            forall|k: int|
                0 <= k < i ==> -(ROOT_BOUND + k * RADIUS_MAX) <= (#[trigger] buffer@[k]).pos.x <= (
                ROOT_BOUND + k * RADIUS_MAX) && -(ROOT_BOUND + k * RADIUS_MAX) <= buffer@[k].pos.y
                    <= (ROOT_BOUND + k * RADIUS_MAX) && -(ROOT_BOUND + k * ANGLE_LIMIT)
                    <= buffer@[k].rotation <= (ROOT_BOUND + k * ANGLE_LIMIT),
            forall|k: int|
                0 <= k < i ==> (#[trigger] buffer@[k]).radius == s[k].radius
                    && buffer@[k].min_rotation == s[k].min_rotation && buffer@[k].max_rotation
                    == s[k].max_rotation,
        decreases len - i,
    {
        let parent = buffer[i - 1];
        let mut child = buffer[i];
        proof {
            assert(chain_view(old(buffer)@)[i as int] == old(buffer)@[i as int]@);
            assert(child@ == s[i as int]);
            assert(s[i as int].wf());
            assert(chain_view(buffer@)[i - 1] == buffer@[i - 1]@);
            assert(chain_view(buffer@).take(i as int)[i - 1] == parent@);
            assert(s[i - 1].wf());
        }
        attach_node_rotations(&parent, &mut child);
        let ghost before = chain_view(buffer@);
        buffer.set(i, child);
        proof {
            lemma_fk_pass_step(s, i as int);
            lemma_fk_pass_len(s.take(i as int));
            assert(fk_pass(s.take(i as int)).last() == before.take(i as int)[i - 1]);
            assert(chain_view(buffer@).take(i + 1) =~= before.take(i as int).push(child@));
            assert(chain_view(buffer@).take(i + 1) == fk_pass(s.take(i + 1)));
        }
        i = i + 1;
    }
    proof {
        assert(chain_view(buffer@).take(len as int) =~= chain_view(buffer@));
        assert(s.take(len as int) =~= s);
    }
}

/// Runs the unconstrained backward pass in place over a working buffer:
/// afterwards the buffer holds exactly [`backward_pass`] of what it held
/// before, and every derived pose is bounded by how far a chain can
/// reach from its tail.
#[verifier::rlimit(100)]
fn propagate_backward(buffer: &mut Vec<Node>)
    requires
        1 <= old(buffer)@.len() <= CHAIN_MAX,
        forall|k: int|
            0 <= k < old(buffer)@.len() ==> {
                let n = (#[trigger] old(buffer)@[k])@;
                0 < n.radius <= RADIUS_MAX && -POSE_BOUND <= n.pos.x <= POSE_BOUND && -POSE_BOUND
                    <= n.pos.y <= POSE_BOUND
            },
        -ROOT_BOUND <= old(buffer)@.last().pos.x <= ROOT_BOUND,
        -ROOT_BOUND <= old(buffer)@.last().pos.y <= ROOT_BOUND,
    ensures
        final(buffer)@.len() == old(buffer)@.len(),
        chain_view(final(buffer)@) == backward_pass(chain_view(old(buffer)@)),
        final(buffer)@.last() == old(buffer)@.last(),
        forall|k: int|
            0 <= k < final(buffer)@.len() ==> {
                let n = #[trigger] final(buffer)@[k];
                -pass_pos_bound() <= n.pos.x <= pass_pos_bound() && -pass_pos_bound() <= n.pos.y
                    <= pass_pos_bound()
            },
        forall|k: int|
            0 <= k < final(buffer)@.len() - 1 ==> -HALF_TURN < (
            #[trigger] final(buffer)@[k]).rotation <= HALF_TURN,
        forall|k: int|
            0 <= k < final(buffer)@.len() ==> {
                let n = #[trigger] final(buffer)@[k];
                n.radius == old(buffer)@[k].radius && n.min_rotation == old(
                    buffer,
                )@[k].min_rotation && n.max_rotation == old(buffer)@[k].max_rotation
            },
{
    let ghost s = chain_view(old(buffer)@);
    let len = buffer.len();
    let mut idx: usize = len - 1;
    while idx > 0
        invariant
            0 <= idx <= len - 1,
            len == buffer@.len() <= CHAIN_MAX,
            s == chain_view(old(buffer)@),
            s.len() == len,
            forall|k: int|
                0 <= k < len ==> {
                    let n = (#[trigger] old(buffer)@[k])@;
                    0 < n.radius <= RADIUS_MAX && -POSE_BOUND <= n.pos.x <= POSE_BOUND
                        && -POSE_BOUND <= n.pos.y <= POSE_BOUND
                },
            -ROOT_BOUND <= old(buffer)@.last().pos.x <= ROOT_BOUND,
            -ROOT_BOUND <= old(buffer)@.last().pos.y <= ROOT_BOUND,
            forall|k: int| 0 <= k < idx ==> #[trigger] buffer@[k] == old(buffer)@[k],
            buffer@[len - 1] == old(buffer)@[len - 1],
            chain_view(buffer@).skip(idx as int) == backward_pass(s.skip(idx as int)),
            forall|k: int|
                idx <= k < len ==> -(ROOT_BOUND + (len - 1 - k) * RADIUS_MAX) <= (
                #[trigger] buffer@[k]).pos.x <= (ROOT_BOUND + (len - 1 - k) * RADIUS_MAX) && -(
                ROOT_BOUND + (len - 1 - k) * RADIUS_MAX) <= buffer@[k].pos.y <= (ROOT_BOUND + (len
                    - 1 - k) * RADIUS_MAX),
            forall|k: int|
                idx <= k < len - 1 ==> -HALF_TURN < (#[trigger] buffer@[k]).rotation <= HALF_TURN,
            forall|k: int|
                idx <= k < len ==> {
                    let n = #[trigger] buffer@[k];
                    n.radius == old(buffer)@[k].radius && n.min_rotation == old(
                        buffer,
                    )@[k].min_rotation && n.max_rotation == old(buffer)@[k].max_rotation
                },
        decreases idx,
    {
        let parent = buffer[idx];
        let mut child = buffer[idx - 1];
        proof {
            assert(chain_view(old(buffer)@)[idx - 1] == old(buffer)@[idx - 1]@);
            assert(child@ == s[idx - 1]);
            assert(chain_view(buffer@)[idx as int] == buffer@[idx as int]@);
            assert(chain_view(buffer@).skip(idx as int)[0] == parent@);
            assert(backward_pass(s.skip(idx as int)).first() == parent@);
        }
        attach_node(&parent, &mut child);
        let ghost before = chain_view(buffer@);
        buffer.set(idx - 1, child);
        proof {
            lemma_backward_pass_step(s, idx as int);
            lemma_backward_pass_len(s.skip(idx as int));
            assert(chain_view(buffer@).skip(idx - 1) =~= seq![child@] + before.skip(idx as int));
            assert(chain_view(buffer@).skip(idx - 1) == backward_pass(s.skip(idx - 1)));
        }
        idx = idx - 1;
    }
    proof {
        assert(chain_view(buffer@).skip(0) =~= chain_view(buffer@));
        assert(s.skip(0) =~= s);
    }
}

/// Forward kinematics over one chain: each non-root node's orientation
/// and position is derived from its (already updated) parent by the
/// constrained attach rule, root first. A chain of fewer than two nodes,
/// an unknown identifier, or a repeated identifier leaves the store
/// untouched.
pub fn process_fk(node_manager: &mut NodeManager, fk: &ForwardKinematic)
    requires
        fk.nodes@.len() <= CHAIN_MAX,
        ids_ok(old(node_manager)@, id_ints(fk.nodes@)) && fk.nodes@.len() >= 2 ==> ({
            let c = gather(old(node_manager)@, id_ints(fk.nodes@));
            nodes_wf(c) && root_pose_ok(c[0])
        }),
    ensures
        fk.nodes@.len() < 2 || !ids_ok(old(node_manager)@, id_ints(fk.nodes@)) ==> final(
            node_manager)@ == old(node_manager)@,
        fk.nodes@.len() >= 2 && ids_ok(old(node_manager)@, id_ints(fk.nodes@)) ==> ({
            let result = fk_pass(gather(old(node_manager)@, id_ints(fk.nodes@)));
            scattered(old(node_manager)@, id_ints(fk.nodes@), result, final(node_manager)@)
                && result.len() == fk.nodes@.len() && nodes_wf(result) && result[0] == gather(
                old(node_manager)@,
                id_ints(fk.nodes@),
            )[0]
        }),
{
    if fk.nodes.len() < 2 {
        return ;
    }
    let mut buffer = node_manager.get_nodes_mut(fk.nodes.as_slice());
    if buffer.len() == 0 {
        return ;
    }
    let ghost ids = id_ints(fk.nodes@);
    let ghost c = gather(node_manager@, ids);
    proof {
        assert(ids_ok(node_manager@, ids));
        assert(chain_view(buffer@) =~= c);
        assert(buffer@[0]@ == c[0]);
    }
    propagate_forward(&mut buffer);
    proof {
        assert(chain_view(buffer@) == fk_pass(c));
        lemma_fk_pass_len(c);
        lemma_fk_pass_frame(c);
        assert(pass_pos_bound() <= POSE_BOUND);
        assert(pass_rot_bound() <= POSE_BOUND);
        assert forall|k: int| 0 <= k < fk_pass(c).len() implies (#[trigger] fk_pass(c)[k]).wf() by {
            assert(fk_pass(c)[k] == buffer@[k]@);
            assert(fk_pass(c)[k].radius == c[k].radius);
            assert(fk_pass(c)[k].min_rotation == c[k].min_rotation);
            assert(fk_pass(c)[k].max_rotation == c[k].max_rotation);
            assert(c[k].wf());
        }
    }
    node_manager.set_nodes(fk.nodes.as_slice(), &buffer);
}

/// The anchor a FABRIK solve pins the root to: the chain's explicit
/// anchor point, or the root's position as observed at the start of the
/// call when no anchor is set.
pub open spec fn spec_anchor(anchor: Option<Vec2>, chain: Seq<NodeView>) -> Vec2View {
    match anchor {
        Some(a) => a@,
        None => chain[0].pos,
    }
}

/// Whether two points lie within the convergence threshold of each
/// other: the executable twin of [`near_target`].
fn near_check(p: Vec2, t: Vec2) -> (r: bool)
    requires
        -2 * POSE_BOUND <= p.x <= 2 * POSE_BOUND,
        -2 * POSE_BOUND <= p.y <= 2 * POSE_BOUND,
        -2 * POSE_BOUND <= t.x <= 2 * POSE_BOUND,
        -2 * POSE_BOUND <= t.y <= 2 * POSE_BOUND,
    ensures
        r == near_target(p@, t@),
{
    let dx = p.x - t.x;
    let dy = p.y - t.y;
    if dx >= UNIT || dx <= -UNIT || dy >= UNIT || dy <= -UNIT {
        proof {
            assert(dx * dx + dy * dy >= (UNIT as int) * (UNIT as int)) by (nonlinear_arith)
                requires
                    dx >= UNIT || dx <= -UNIT || dy >= UNIT || dy <= -UNIT,
                    UNIT == 65536i64,
            ;
        }
        return false;
    }
    proof {
        assert(0 <= dx * dx < (UNIT as int) * (UNIT as int) && 0 <= dy * dy < (UNIT as int) * (
        UNIT as int)) by (nonlinear_arith)
            requires
                -UNIT < dx < UNIT,
                -UNIT < dy < UNIT,
                UNIT == 65536i64,
        ;
    }
    dx * dx + dy * dy < UNIT * UNIT
}

/// Forward and backward reaching inverse kinematics over one chain:
/// repeats FABRIK cycles until the tail ends a cycle within one pixel of
/// the target or the cycle budget runs out, and reports whether the
/// target was reached. The chain ends in its last-computed pose either
/// way. A chain of fewer than three nodes, an unknown identifier, or a
/// repeated identifier leaves the store untouched and reports failure.
#[verifier::rlimit(100)]
pub fn fabrik(node_manager: &mut NodeManager, ik: &InverseKinematic) -> (reached_target: bool)
    requires
        ik.nodes@.len() <= CHAIN_MAX,
        -ROOT_BOUND <= ik.target.x <= ROOT_BOUND,
        -ROOT_BOUND <= ik.target.y <= ROOT_BOUND,
        match ik.anchor {
            Some(a) => -ROOT_BOUND <= a.x <= ROOT_BOUND && -ROOT_BOUND <= a.y <= ROOT_BOUND,
            None => true,
        },
        ids_ok(old(node_manager)@, id_ints(ik.nodes@)) && ik.nodes@.len() >= 3 ==> ({
            let c = gather(old(node_manager)@, id_ints(ik.nodes@));
            nodes_wf(c) && root_pose_ok(c[0])
        }),
    ensures
        ik.nodes@.len() < 3 || !ids_ok(old(node_manager)@, id_ints(ik.nodes@))
            ==> !reached_target && final(node_manager)@ == old(node_manager)@,
        ik.nodes@.len() >= 3 && ids_ok(old(node_manager)@, id_ints(ik.nodes@)) ==> ({
            let c = gather(old(node_manager)@, id_ints(ik.nodes@));
            let run = fabrik_run(
                c,
                spec_anchor(ik.anchor, c),
                c[0].rotation,
                ik.target@,
                ik.cycles as nat,
            );
            reached_target == run.1 && scattered(
                old(node_manager)@,
                id_ints(ik.nodes@),
                run.0,
                final(node_manager)@,
            ) && run.0.len() == ik.nodes@.len() && nodes_wf(run.0) && root_pose_ok(run.0[0])
        }),
{
    if ik.nodes.len() < 3 {
        return false;
    }
    let mut buffer = node_manager.get_nodes_mut(ik.nodes.as_slice());
    if buffer.len() == 0 {
        return false;
    }
    let ghost ids = id_ints(ik.nodes@);
    let ghost c = gather(node_manager@, ids);
    proof {
        assert(ids_ok(node_manager@, ids));
        assert(chain_view(buffer@) =~= c);
        assert(buffer@[0]@ == c[0]);
    }
    let len = buffer.len();
    let last = len - 1;
    let initial_rot = buffer[0].rotation;
    let anchor = match ik.anchor {
        Some(a) => a,
        None => buffer[0].pos,
    };
    proof {
        assert(anchor@ == spec_anchor(ik.anchor, c));
    }
    let mut reached_target = false;
    let mut cycle_index: usize = 0;
    while cycle_index < ik.cycles
        invariant_except_break
            0 <= cycle_index <= ik.cycles,
            !reached_target,
            3 <= len == buffer@.len() <= CHAIN_MAX,
            last == len - 1,
            c.len() == len,
            nodes_wf(c),
            root_pose_ok(c[0]),
            initial_rot == c[0].rotation,
            -ROOT_BOUND <= anchor.x <= ROOT_BOUND,
            -ROOT_BOUND <= anchor.y <= ROOT_BOUND,
            -ROOT_BOUND <= ik.target.x <= ROOT_BOUND,
            -ROOT_BOUND <= ik.target.y <= ROOT_BOUND,
            fabrik_run(c, anchor@, initial_rot as int, ik.target@, ik.cycles as nat) == fabrik_run(
                chain_view(buffer@),
                anchor@,
                initial_rot as int,
                ik.target@,
                (ik.cycles - cycle_index) as nat,
            ),
            forall|k: int|
                0 <= k < len ==> {
                    let n = (#[trigger] buffer@[k])@;
                    n.radius == c[k].radius && n.min_rotation == c[k].min_rotation
                        && n.max_rotation == c[k].max_rotation && -POSE_BOUND <= n.pos.x
                        <= POSE_BOUND && -POSE_BOUND <= n.pos.y <= POSE_BOUND && -POSE_BOUND
                        <= n.rotation <= POSE_BOUND
                },
            -ROOT_BOUND <= buffer@[0].pos.x <= ROOT_BOUND,
            -ROOT_BOUND <= buffer@[0].pos.y <= ROOT_BOUND,
            -ROOT_BOUND <= buffer@[0].rotation <= ROOT_BOUND,
        ensures
            3 <= len == buffer@.len(),
            last == len - 1,
            fabrik_run(c, anchor@, initial_rot as int, ik.target@, ik.cycles as nat) == (
                chain_view(buffer@),
                reached_target,
            ),
            forall|k: int|
                0 <= k < len ==> {
                    let n = (#[trigger] buffer@[k])@;
                    n.radius == c[k].radius && n.min_rotation == c[k].min_rotation
                        && n.max_rotation == c[k].max_rotation && -POSE_BOUND <= n.pos.x
                        <= POSE_BOUND && -POSE_BOUND <= n.pos.y <= POSE_BOUND && -POSE_BOUND
                        <= n.rotation <= POSE_BOUND
                },
            -ROOT_BOUND <= buffer@[0].pos.x <= ROOT_BOUND,
            -ROOT_BOUND <= buffer@[0].pos.y <= ROOT_BOUND,
            -ROOT_BOUND <= buffer@[0].rotation <= ROOT_BOUND,
        decreases ik.cycles - cycle_index,
    {
        let ghost prev = chain_view(buffer@);
        let ghost remaining = (ik.cycles - cycle_index) as nat;
        let mut tail = buffer[last];
        tail.pos = ik.target;
        buffer.set(last, tail);
        proof {
            assert(chain_view(buffer@) =~= prev.update(
                len - 1,
                with_pos(prev.last(), ik.target@),
            ));
        }
        propagate_backward(&mut buffer);
        let ghost pulled = chain_view(buffer@);
        let mut root = buffer[0];
        root.pos = anchor;
        root.rotation = initial_rot;
        buffer.set(0, root);
        proof {
            assert(chain_view(buffer@) =~= pulled.update(
                0,
                with_pose(pulled.first(), anchor@, initial_rot as int),
            ));
            assert(pass_pos_bound() + RADIUS_MAX <= POSE_BOUND);
            assert(nodes_wf(chain_view(buffer@)));
            assert(root_pose_ok(chain_view(buffer@)[0]));
        }
        let ghost pinned = chain_view(buffer@);
        propagate_forward(&mut buffer);
        proof {
            assert(chain_view(buffer@) == fabrik_cycle(
                prev,
                anchor@,
                initial_rot as int,
                ik.target@,
            ));
            let s1 = prev.update(len - 1, with_pos(prev.last(), ik.target@));
            lemma_backward_pass_frame(s1);
            lemma_fk_pass_frame(pinned);
            assert(pass_pos_bound() + RADIUS_MAX <= POSE_BOUND);
            assert(pass_rot_bound() <= POSE_BOUND);
            assert forall|k: int| 0 <= k < len implies {
                let n = (#[trigger] buffer@[k])@;
                n.radius == c[k].radius && n.min_rotation == c[k].min_rotation && n.max_rotation
                    == c[k].max_rotation && -POSE_BOUND <= n.pos.x <= POSE_BOUND && -POSE_BOUND
                    <= n.pos.y <= POSE_BOUND && -POSE_BOUND <= n.rotation <= POSE_BOUND
            } by {
                assert(chain_view(buffer@)[k] == buffer@[k]@);
                assert(fk_pass(pinned)[k].radius == pinned[k].radius);
                assert(pinned[k].radius == backward_pass(s1)[k].radius);
                assert(backward_pass(s1)[k].radius == s1[k].radius);
            }
        }
        let tail_now = buffer[last];
        proof {
            assert(tail_now@ == chain_view(buffer@)[last as int]);
            assert(chain_view(buffer@).last() == chain_view(buffer@)[last as int]);
        }
        if near_check(tail_now.pos, ik.target) {
            reached_target = true;
            proof {
                assert(fabrik_run(prev, anchor@, initial_rot as int, ik.target@, remaining) == (
                    chain_view(buffer@),
                    true,
                ));
            }
            break;
        }
        proof {
            assert(fabrik_run(prev, anchor@, initial_rot as int, ik.target@, remaining)
                == fabrik_run(
                chain_view(buffer@),
                anchor@,
                initial_rot as int,
                ik.target@,
                (remaining - 1) as nat,
            ));
        }
        cycle_index = cycle_index + 1;
    }
    proof {
        let run = fabrik_run(c, anchor@, initial_rot as int, ik.target@, ik.cycles as nat);
        assert forall|k: int| 0 <= k < run.0.len() implies (#[trigger] run.0[k]).wf() by {
            assert(run.0[k] == chain_view(buffer@)[k]);
            assert(chain_view(buffer@)[k] == buffer@[k]@);
            assert(c[k].wf());
        }
        assert(run.0[0] == buffer@[0]@);
        assert(root_pose_ok(run.0[0]));
    }
    node_manager.set_nodes(ik.nodes.as_slice(), &buffer);
    reached_target
}

/// Attaches `child` to `parent` by the unconstrained rule: the
/// executable step of the backward FABRIK pass, and exactly
/// [`attach_free`] on the views.
pub fn attach_node(parent: &Node, child: &mut Node)
    requires
        -POSE_BOUND <= parent.pos.x <= POSE_BOUND,
        -POSE_BOUND <= parent.pos.y <= POSE_BOUND,
        -POSE_BOUND <= old(child).pos.x <= POSE_BOUND,
        -POSE_BOUND <= old(child).pos.y <= POSE_BOUND,
        0 <= parent.radius <= RADIUS_MAX,
    ensures
        final(child)@ == attach_free(parent@, old(child)@),
        parent.pos.x - parent.radius <= final(child).pos.x <= parent.pos.x + parent.radius,
        parent.pos.y - parent.radius <= final(child).pos.y <= parent.pos.y + parent.radius,
        -HALF_TURN < final(child).rotation <= HALF_TURN,
{
    let rot = atan2_fx(parent.pos.y - child.pos.y, parent.pos.x - child.pos.x);
    let off = polar(rot, parent.radius);
    child.rotation = rot;
    child.pos = Vec2 { x: parent.pos.x - off.x, y: parent.pos.y - off.y };
}

/// Attaches `child` to `parent` by the constrained rule: the executable
/// step of forward kinematics and of the forward FABRIK pass, and exactly
/// [`attach_clamped`] on the views.
fn attach_node_rotations(parent: &Node, child: &mut Node)
    requires
        -POSE_BOUND <= parent.pos.x <= POSE_BOUND,
        -POSE_BOUND <= parent.pos.y <= POSE_BOUND,
        -POSE_BOUND <= parent.rotation <= POSE_BOUND,
        -POSE_BOUND <= old(child).pos.x <= POSE_BOUND,
        -POSE_BOUND <= old(child).pos.y <= POSE_BOUND,
        0 <= parent.radius <= RADIUS_MAX,
        -ANGLE_LIMIT <= old(child).min_rotation <= old(child).max_rotation <= ANGLE_LIMIT,
    ensures
        final(child)@ == attach_clamped(parent@, old(child)@),
        parent.pos.x - parent.radius <= final(child).pos.x <= parent.pos.x + parent.radius,
        parent.pos.y - parent.radius <= final(child).pos.y <= parent.pos.y + parent.radius,
        parent.rotation + old(child).min_rotation <= final(child).rotation <= parent.rotation
            + old(child).max_rotation,
{
    let raw = atan2_fx(parent.pos.y - child.pos.y, parent.pos.x - child.pos.x);
    let rotation_diff = angle_diff(raw, parent.rotation);
    let rotation_diff = clamp(rotation_diff, child.min_rotation, child.max_rotation);
    let rot = parent.rotation + rotation_diff;
    let off = polar(rot, parent.radius);
    child.rotation = rot;
    child.pos = Vec2 { x: parent.pos.x - off.x, y: parent.pos.y - off.y };
}

/// The backward pass leaves the tail untouched and never changes any
/// node's radius or rotation limits.
pub proof fn lemma_backward_pass_frame(s: Seq<NodeView>)
    ensures
        backward_pass(s).len() == s.len(),
        s.len() > 0 ==> backward_pass(s).last() == s.last(),
        forall|k: int|
            0 <= k < s.len() ==> (#[trigger] backward_pass(s)[k]).radius == s[k].radius
                && backward_pass(s)[k].min_rotation == s[k].min_rotation && backward_pass(
                s,
            )[k].max_rotation == s[k].max_rotation,
    decreases s.len(),
{
    lemma_backward_pass_len(s);
    if s.len() > 1 {
        lemma_backward_pass_frame(s.drop_first());
        lemma_backward_pass_len(s.drop_first());
        assert forall|k: int|
            0 <= k < s.len() implies (#[trigger] backward_pass(s)[k]).radius == s[k].radius
            && backward_pass(s)[k].min_rotation == s[k].min_rotation && backward_pass(
            s,
        )[k].max_rotation == s[k].max_rotation by {
            if k >= 1 {
                assert(backward_pass(s)[k] == backward_pass(s.drop_first())[k - 1]);
                assert(s.drop_first()[k - 1] == s[k]);
            }
        }
    }
}

/// For a two-node chain the forward pass leaves the root untouched and
/// places the child at exactly the polar offset of the root's radius
/// along the child's clamped orientation: the clamped angle difference
/// toward the child's prior position, added to the root's orientation.
pub proof fn lemma_fk_pair(s: Seq<NodeView>)
    requires
        s.len() == 2,
    ensures
        fk_pass(s).len() == 2,
        fk_pass(s)[0] == s[0],
        fk_pass(s)[1] == ({
            let raw = spec_atan2(s[0].pos.y - s[1].pos.y, s[0].pos.x - s[1].pos.x);
            let rb = s[0].rotation + spec_clamp(
                spec_angle_diff(raw, s[0].rotation),
                s[1].min_rotation,
                s[1].max_rotation,
            );
            let off = spec_polar(rb, s[0].radius);
            with_pose(s[1], Vec2View { x: s[0].pos.x - off.x, y: s[0].pos.y - off.y }, rb)
        }),
{
    assert(s.drop_last() =~= seq![s[0]]);
    assert(fk_pass(s) == fk_pass(s.drop_last()).push(
        attach_clamped(fk_pass(s.drop_last()).last(), s[1]),
    ));
}

/// A rigid joint: when a node's two rotation limits are the same value
/// `k`, the constrained attach rule orients it at exactly `k` from its
/// parent, wherever the node stood before.
pub proof fn lemma_locked_joint(parent: NodeView, child: NodeView, k: int)
    requires
        child.min_rotation == k,
        child.max_rotation == k,
    ensures
        attach_clamped(parent, child).rotation == parent.rotation + k,
{
}

/// A rigid joint inside a chain: a forward pass orients a node whose two
/// rotation limits are the same value `k` at exactly `k` from its
/// (updated) parent.
pub proof fn lemma_locked_joint_chain(s: Seq<NodeView>, i: int, k: int)
    requires
        1 <= i < s.len(),
        s[i].min_rotation == k,
        s[i].max_rotation == k,
    ensures
        fk_pass(s).len() == s.len(),
        fk_pass(s)[i].rotation == fk_pass(s)[i - 1].rotation + k,
{
    lemma_fk_pass_index(s, i);
    lemma_locked_joint(fk_pass(s)[i - 1], s[i], k);
}

/// The total reach of a chain: the sum of the radii its attach steps
/// use, which are the radii of every node but the tail.
pub open spec fn radii_sum(s: Seq<NodeView>) -> int
    decreases s.len(),
{
    if s.len() <= 1 {
        0
    } else {
        radii_sum(s.drop_last()) + s[s.len() - 2].radius
    }
}

/// Chains whose nodes have the same radii have the same total reach.
proof fn lemma_radii_sum_congruent(a: Seq<NodeView>, b: Seq<NodeView>)
    requires
        a.len() == b.len(),
        forall|k: int| 0 <= k < a.len() ==> (#[trigger] a[k]).radius == b[k].radius,
    ensures
        radii_sum(a) == radii_sum(b),
    decreases a.len(),
{
    if a.len() > 1 {
        lemma_radii_sum_congruent(a.drop_last(), b.drop_last());
    }
}

/// A forward pass cannot move the tail farther from the root than the
/// chain's total reach, on either axis.
pub proof fn lemma_fk_pass_reach(s: Seq<NodeView>)
    requires
        s.len() >= 1,
        forall|k: int| 0 <= k < s.len() ==> (#[trigger] s[k]).radius >= 0,
    ensures
        fk_pass(s).len() == s.len(),
        s[0].pos.x - radii_sum(s) <= fk_pass(s).last().pos.x <= s[0].pos.x + radii_sum(s),
        s[0].pos.y - radii_sum(s) <= fk_pass(s).last().pos.y <= s[0].pos.y + radii_sum(s),
    decreases s.len(),
{
    lemma_fk_pass_len(s);
    if s.len() > 1 {
        let prefix = s.drop_last();
        lemma_fk_pass_reach(prefix);
        lemma_fk_pass_len(prefix);
        let parent = fk_pass(prefix).last();
        lemma_fk_pass_frame(prefix);
        assert(parent.radius == prefix[prefix.len() - 1].radius);
        lemma_polar_bound(
            parent.rotation + spec_clamp(
                spec_angle_diff(
                    spec_atan2(parent.pos.y - s.last().pos.y, parent.pos.x - s.last().pos.x),
                    parent.rotation,
                ),
                s.last().min_rotation,
                s.last().max_rotation,
            ),
            parent.radius,
        );
        assert(fk_pass(s).last() == attach_clamped(parent, s.last()));
        assert(prefix[0] == s[0]);
    }
}

/// An unreachable target: when the distance from the anchor to the
/// target exceeds the chain's total reach by more than the convergence
/// threshold on some axis, every cycle of a FABRIK run ends with the
/// tail away from the target, so the run reports failure.
pub proof fn lemma_unreachable_target_fails(
    s: Seq<NodeView>,
    anchor: Vec2View,
    root_rot: int,
    target: Vec2View,
    cycles: nat,
)
    requires
        s.len() >= 1,
        forall|k: int| 0 <= k < s.len() ==> (#[trigger] s[k]).radius >= 0,
        target.x - anchor.x > radii_sum(s) + UNIT || anchor.x - target.x > radii_sum(s) + UNIT
            || target.y - anchor.y > radii_sum(s) + UNIT || anchor.y - target.y > radii_sum(s)
            + UNIT,
    ensures
        !fabrik_run(s, anchor, root_rot, target, cycles).1,
    decreases cycles,
{
    if cycles > 0 {
        let moved = s.update(s.len() - 1, with_pos(s.last(), target));
        let pulled = backward_pass(moved);
        lemma_backward_pass_frame(moved);
        let pinned = pulled.update(0, with_pose(pulled.first(), anchor, root_rot));
        let after = fk_pass(pinned);
        lemma_fk_pass_frame(pinned);
        assert(forall|k: int| 0 <= k < pinned.len() ==> (#[trigger] pinned[k]).radius == s[k].radius);
        lemma_radii_sum_congruent(pinned, s);
        lemma_fk_pass_reach(pinned);
        assert(pinned[0].pos == anchor);
        let tail = after.last();
        let dx = tail.pos.x - target.x;
        let dy = tail.pos.y - target.y;
        assert(dx > UNIT || dx < -UNIT || dy > UNIT || dy < -UNIT);
        assert(!near_target(tail.pos, target)) by {
            assert(dx * dx + dy * dy >= (UNIT as int) * (UNIT as int)) by (nonlinear_arith)
                requires
                    dx > UNIT || dx < -UNIT || dy > UNIT || dy < -UNIT,
                    UNIT == 65536i64,
            ;
        }
        assert(after == fabrik_cycle(s, anchor, root_rot, target));
        assert(forall|k: int| 0 <= k < after.len() ==> (#[trigger] after[k]).radius == s[k].radius);
        lemma_radii_sum_congruent(after, s);
        lemma_fk_pass_len(pinned);
        lemma_unreachable_target_fails(after, anchor, root_rot, target, (cycles - 1) as nat);
    }
}

/// A FABRIK run that reports success really ended with the tail within
/// the convergence threshold of the target.
pub proof fn lemma_success_means_near(
    s: Seq<NodeView>,
    anchor: Vec2View,
    root_rot: int,
    target: Vec2View,
    cycles: nat,
)
    ensures
        fabrik_run(s, anchor, root_rot, target, cycles).1 ==> near_target(
            fabrik_run(s, anchor, root_rot, target, cycles).0.last().pos,
            target,
        ),
    decreases cycles,
{
    if cycles > 0 {
        let c = fabrik_cycle(s, anchor, root_rot, target);
        if !near_target(c.last().pos, target) {
            lemma_success_means_near(c, anchor, root_rot, target, (cycles - 1) as nat);
        }
    }
}

/// A cycle budget beyond the cycle that reached the target is never
/// spent: a run that succeeds within some budget ends in the same pose,
/// with the same verdict, under any larger budget.
pub proof fn lemma_budget_monotone(
    s: Seq<NodeView>,
    anchor: Vec2View,
    root_rot: int,
    target: Vec2View,
    small: nat,
    large: nat,
)
    requires
        small <= large,
        fabrik_run(s, anchor, root_rot, target, small).1,
    ensures
        fabrik_run(s, anchor, root_rot, target, large) == fabrik_run(
            s,
            anchor,
            root_rot,
            target,
            small,
        ),
    decreases small,
{
    let c = fabrik_cycle(s, anchor, root_rot, target);
    if !near_target(c.last().pos, target) {
        lemma_budget_monotone(c, anchor, root_rot, target, (small - 1) as nat, (large - 1) as nat);
    }
}

/// A FABRIK run of at least one cycle leaves the root pinned at the
/// anchor, with the orientation it started the call with: the solver
/// never changes the root's orientation, and only pins its position.
pub proof fn lemma_run_pins_root(
    s: Seq<NodeView>,
    anchor: Vec2View,
    root_rot: int,
    target: Vec2View,
    cycles: nat,
)
    requires
        s.len() >= 1,
        cycles >= 1,
    ensures
        fabrik_run(s, anchor, root_rot, target, cycles).0.len() == s.len(),
        fabrik_run(s, anchor, root_rot, target, cycles).0[0].pos == anchor,
        fabrik_run(s, anchor, root_rot, target, cycles).0[0].rotation == root_rot,
    decreases cycles,
{
    let moved = s.update(s.len() - 1, with_pos(s.last(), target));
    let pulled = backward_pass(moved);
    lemma_backward_pass_len(moved);
    let pinned = pulled.update(0, with_pose(pulled.first(), anchor, root_rot));
    let after = fk_pass(pinned);
    lemma_fk_pass_frame(pinned);
    assert(after[0] == pinned[0]);
    let c = fabrik_cycle(s, anchor, root_rot, target);
    assert(c == after);
    assert(c.len() == s.len());
    if !near_target(c.last().pos, target) {
        if cycles > 1 {
            lemma_run_pins_root(c, anchor, root_rot, target, (cycles - 1) as nat);
        } else {
            assert(fabrik_run(c, anchor, root_rot, target, 0nat) == (c, false));
        }
    }
}


} // verus!
