//! Supporting lemmas for the execution engines: where each operation of a
//! node's window sits, and how the pending-issue and pending-work accounts
//! move when the stack changes.

use vstd::prelude::*;
use crate::ops::OpView;
use crate::schema::{
    SchemaNode, PropNode, node_ops, obj_seg, arr_seg, props_ops, node_wf, props_wf,
};
use crate::semantics::{
    checks_issues, node_issues, props_issues, items_issues, obj_stage_issues,
    items_stage_issues, value_member, issue_at,
};
use crate::walk::{
    resolve_spec, resolve_one, lemma_resolve_push, node_work, props_work, arr_work,
};
use crate::types::{IssueView, SegView};
use crate::value::{JsonView, arr_elems};
use crate::walk::{
    NodeCtx, ZFrame, ZKind, MState, Stage, ctx_wf, z_wf, st_wf, st_normal,
    st_path, props_off, obj_enter_pos, props_base, sizes_base, arr_enter_pos,
    check_items_pos, item_base, arr_exit_pos, win_end, frame_rest, z_rest,
    frame_work, z_work, local_rest, local_work, state_rest, state_work,
    expected_ctx, child_ctx, ctx_root, zf_props, zf_items, zf_open,
};
use crate::scan::{ScanResult, scan_w, lemma_scan_append, lemma_node_neutral};

verus! {

/// Processing one scalar check splits off its contribution.
pub proof fn lemma_checks_skip(w: Seq<OpView>, v: JsonView, path: Seq<SegView>, j: int)
    requires
        0 <= j < w.len(),
    ensures
        checks_issues(w.skip(j), v, path) == (if crate::ops::check_passes(w[j], v) {
            Seq::<IssueView>::empty()
        } else {
            seq![crate::semantics::issue_at(crate::ops::check_message(w[j], v), path)]
        }) + checks_issues(w.skip(j + 1), v, path),
{
    assert(w.skip(j)[0] == w[j]);
    assert(w.skip(j).drop_first() =~= w.skip(j + 1));
    assert(w.skip(j).len() > 0);
}

/// A whole list of checks is the list from its start.
pub proof fn lemma_checks_skip0(w: Seq<OpView>)
    ensures
        w.skip(0) =~= w,
{
}

/// An exhausted list of checks reports nothing.
pub proof fn lemma_checks_done(w: Seq<OpView>, v: JsonView, path: Seq<SegView>)
    ensures
        checks_issues(w.skip(w.len() as int), v, path) == Seq::<IssueView>::empty(),
{
    assert(w.skip(w.len() as int) =~= Seq::<OpView>::empty());
}

/// Pushing a frame adds its pending issues in front of the stack's.
pub proof fn lemma_z_rest_push(z: Seq<ZFrame>, f: ZFrame)
    ensures
        z_rest(z.push(f)) == frame_rest(f) + z_rest(z),
        z_work(z.push(f)) == frame_work(f) + z_work(z),
{
    assert(z.push(f).last() == f);
    assert(z.push(f).drop_last() =~= z);
}

/// Replacing the innermost frame swaps its contribution.
pub proof fn lemma_z_rest_update(z: Seq<ZFrame>, f: ZFrame)
    requires
        z.len() > 0,
    ensures
        z_rest(z.drop_last().push(f)) == frame_rest(f) + z_rest(z.drop_last()),
        z_work(z.drop_last().push(f)) == frame_work(f) + z_work(z.drop_last()),
        z_rest(z) == frame_rest(z.last()) + z_rest(z.drop_last()),
        z_work(z) == frame_work(z.last()) + z_work(z.drop_last()),
{
    lemma_z_rest_push(z.drop_last(), f);
}

/// The prefix of the property segment before window `i`.
pub proof fn lemma_props_window(props: Seq<PropNode>, i: int)
    requires
        0 <= i <= props.len(),
    ensures
        0 <= props_off(props, i) <= props_ops(props, 0).len(),
        props_ops(props, 0) == props_ops(props, 0).take(props_off(props, i))
            + props_ops(props, i),
    decreases i,
{
    if i == 0 {
        assert(props_ops(props, 0).take(0) =~= Seq::<OpView>::empty());
        assert(props_ops(props, 0).take(0) + props_ops(props, 0) =~= props_ops(props, 0));
    } else {
        lemma_props_window(props, i - 1);
        let all = props_ops(props, 0);
        let head = seq![
            OpView::CheckProperty { key: props[i - 1].key, required: props[i - 1].required },
        ];
        let w = node_ops(props[i - 1].sub);
        assert(props_ops(props, i - 1) == head + w + props_ops(props, i));
        assert(all == all.take(props_off(props, i - 1)) + (head + w + props_ops(props, i)));
        assert(props_off(props, i) == props_off(props, i - 1) + 1 + w.len());
        assert(all.take(props_off(props, i)) =~= all.take(props_off(props, i - 1)) + head + w);
        assert(all.take(props_off(props, i)) + props_ops(props, i) =~= all);
    }
}

/// Where the pieces of a well-formed context's window sit in the compiled
/// sequence.
pub proof fn lemma_ctx_layout(ops: Seq<OpView>, root_v: JsonView, c: NodeCtx)
    requires
        ctx_wf(ops, root_v, c),
    ensures
        forall|j: int| 0 <= j < c.node.scalars.len() ==> ops[c.ws + j]
            == #[trigger] c.node.scalars[j],
        forall|j: int| 0 <= j < c.node.sizes.len() ==> ops[sizes_base(c.node, c.ws) + j]
            == #[trigger] c.node.sizes[j],
        c.node.props is Some ==> {
            &&& ops[obj_enter_pos(c.node, c.ws)] == OpView::EnterObject
            &&& ops.subrange(
                props_base(c.node, c.ws),
                props_base(c.node, c.ws) + props_ops(c.node.props->Some_0, 0).len(),
            ) == props_ops(c.node.props->Some_0, 0)
            &&& ops[sizes_base(c.node, c.ws) - 1] == OpView::ExitObject
            &&& sizes_base(c.node, c.ws) == props_base(c.node, c.ws)
                + props_ops(c.node.props->Some_0, 0).len() + 1
        },
        c.node.props is None ==> sizes_base(c.node, c.ws) == c.ws + c.node.scalars.len(),
        c.node.items is Some ==> {
            &&& ops[arr_enter_pos(c.node, c.ws)] == OpView::EnterArray
            &&& ops[check_items_pos(c.node, c.ws)] == OpView::CheckArrayItems
            &&& ops.subrange(
                item_base(c.node, c.ws),
                item_base(c.node, c.ws) + node_ops(*c.node.items->Some_0).len(),
            ) == node_ops(*c.node.items->Some_0)
            &&& ops[arr_exit_pos(c.node, c.ws)] == OpView::ExitArray
            &&& win_end(c.node, c.ws) == arr_exit_pos(c.node, c.ws) + 1
        },
        c.node.items is None ==> win_end(c.node, c.ws) == arr_enter_pos(c.node, c.ws),
        win_end(c.node, c.ws) <= ops.len(),
{
    let n = c.node;
    let w = node_ops(n);
    assert(w == n.scalars + obj_seg(n) + n.sizes + arr_seg(n));
    assert(forall|k: int| 0 <= k < w.len() ==> ops[c.ws + k] == #[trigger] w[k]) by {
        assert(forall|k: int| 0 <= k < w.len() ==> ops.subrange(
            c.ws,
            c.ws + node_ops(c.node).len(),
        )[k] == #[trigger] w[k]);
    }
    assert forall|j: int| 0 <= j < n.scalars.len() implies ops[c.ws + j]
        == #[trigger] n.scalars[j] by {
        assert(w[j] == n.scalars[j]);
    }
    assert forall|j: int| 0 <= j < n.sizes.len() implies ops[sizes_base(n, c.ws) + j]
        == #[trigger] n.sizes[j] by {
        let k = n.scalars.len() + obj_seg(n).len() + j;
        assert(w[k] == n.sizes[j]);
    }
    match n.props {
        Option::Some(props) => {
            assert(obj_seg(n) == seq![OpView::EnterObject] + props_ops(props, 0)
                + seq![OpView::ExitObject]);
            assert(obj_seg(n).len() == 2 + props_ops(props, 0).len());
            assert(w[n.scalars.len() as int] == OpView::EnterObject);
            assert(w[n.scalars.len() + 1 + props_ops(props, 0).len() as int]
                == OpView::ExitObject);
            assert(ops.subrange(
                props_base(n, c.ws),
                props_base(n, c.ws) + props_ops(props, 0).len(),
            ) =~= props_ops(props, 0)) by {
                assert forall|k: int| 0 <= k < props_ops(props, 0).len() implies ops.subrange(
                    props_base(n, c.ws),
                    props_base(n, c.ws) + props_ops(props, 0).len(),
                )[k] == props_ops(props, 0)[k] by {
                    assert(w[n.scalars.len() + 1 + k] == obj_seg(n)[1 + k]);
                    assert(obj_seg(n)[1 + k] == props_ops(props, 0)[k]);
                }
            }
        },
        Option::None => {
            assert(obj_seg(n) == Seq::<OpView>::empty());
        },
    }
    match n.items {
        Option::Some(sub) => {
            assert(arr_seg(n) == seq![OpView::EnterArray, OpView::CheckArrayItems]
                + node_ops(*sub) + seq![OpView::ExitArray]);
            assert(arr_seg(n).len() == 3 + node_ops(*sub).len());
            let ab = n.scalars.len() + obj_seg(n).len() + n.sizes.len() as int;
            assert(w[ab] == arr_seg(n)[0]);
            assert(w[ab + 1] == arr_seg(n)[1]);
            assert(w[ab + 2 + node_ops(*sub).len() as int]
                == arr_seg(n)[2 + node_ops(*sub).len() as int]);
            assert(arr_seg(n)[2 + node_ops(*sub).len() as int] == OpView::ExitArray);
            assert(ops.subrange(
                item_base(n, c.ws),
                item_base(n, c.ws) + node_ops(*sub).len(),
            ) =~= node_ops(*sub)) by {
                assert forall|k: int| 0 <= k < node_ops(*sub).len() implies ops.subrange(
                    item_base(n, c.ws),
                    item_base(n, c.ws) + node_ops(*sub).len(),
                )[k] == node_ops(*sub)[k] by {
                    assert(w[ab + 2 + k] == arr_seg(n)[2 + k]);
                    assert(arr_seg(n)[2 + k] == node_ops(*sub)[k]);
                }
            }
        },
        Option::None => {
            assert(arr_seg(n) == Seq::<OpView>::empty());
        },
    }
}

/// Where property window `i` sits, what operation opens it, and what its
/// sub-window holds.
pub proof fn lemma_props_layout(ops: Seq<OpView>, root_v: JsonView, c: NodeCtx, i: int)
    requires
        ctx_wf(ops, root_v, c),
        c.node.props is Some,
        0 <= i <= c.node.props->Some_0.len(),
    ensures
        ({
            let props = c.node.props->Some_0;
            let pos = props_base(c.node, c.ws) + props_off(props, i);
            &&& 0 <= props_off(props, i) <= props_ops(props, 0).len()
            &&& (i < props.len() ==> {
                &&& ops[pos] == OpView::CheckProperty {
                    key: props[i].key,
                    required: props[i].required,
                }
                &&& props_off(props, i + 1) == props_off(props, i) + 1
                    + node_ops(props[i].sub).len()
                &&& ops.subrange(pos + 1, pos + 1 + node_ops(props[i].sub).len())
                    == node_ops(props[i].sub)
            })
            &&& (i == props.len() ==> ops[pos] == OpView::ExitObject)
        }),
{
    let props = c.node.props->Some_0;
    let all = props_ops(props, 0);
    let pos = props_base(c.node, c.ws) + props_off(props, i);
    lemma_ctx_layout(ops, root_v, c);
    lemma_props_window(props, i);
    let seg = ops.subrange(props_base(c.node, c.ws), props_base(c.node, c.ws) + all.len());
    assert(forall|k: int| 0 <= k < all.len() ==> ops[props_base(c.node, c.ws) + k]
        == #[trigger] all[k]);
    if i < props.len() {
        let head = seq![
            OpView::CheckProperty { key: props[i].key, required: props[i].required },
        ];
        let w = node_ops(props[i].sub);
        assert(props_ops(props, i) == head + w + props_ops(props, i + 1));
        assert(forall|k: int| 0 <= k < props_ops(props, i).len()
            ==> all[props_off(props, i) + k] == #[trigger] props_ops(props, i)[k]);
        assert(all[props_off(props, i)] == props_ops(props, i)[0]);
        assert(ops[pos] == head[0]);
        assert(ops.subrange(pos + 1, pos + 1 + w.len()) =~= w) by {
            assert forall|k: int| 0 <= k < w.len() implies ops.subrange(
                pos + 1,
                pos + 1 + w.len(),
            )[k] == w[k] by {
                assert(ops[pos + 1 + k] == all[props_off(props, i) + 1 + k]);
                assert(all[props_off(props, i) + 1 + k] == props_ops(props, i)[1 + k]);
                assert(props_ops(props, i)[1 + k] == w[k]);
            }
        }
    } else {
        assert(all.take(props_off(props, i)) =~= all);
        assert(props_off(props, i) == all.len());
        assert(ops[pos] == OpView::ExitObject);
    }
}

/// The skip rule, started at the head of a neutral window whose end is
/// followed by a stopper, lands exactly on that stopper.
pub proof fn lemma_skip_window(ops: Seq<OpView>, p: int, w: Seq<OpView>)
    requires
        0 <= p,
        p + w.len() < ops.len(),
        ops.subrange(p, p + w.len()) == w,
        scan_w(w, 0) == ScanResult::Ran(0),
        (ops[p + w.len()] matches OpView::CheckProperty { .. })
            || ops[p + w.len()] == OpView::ExitObject
            || ops[p + w.len()] == OpView::ExitArray,
    ensures
        scan_w(ops.skip(p), 0) == ScanResult::Stopped(w.len() as int),
{
    let tail = ops.skip(p + w.len());
    assert(ops.skip(p) =~= w + tail);
    assert(tail[0] == ops[p + w.len()]);
    assert(tail.len() > 0);
    assert(scan_w(tail, 0) == ScanResult::Stopped(0));
    lemma_scan_append(w, tail, 0);
}

// ------------------------------------------------------------------
// The machine as a whole
// ------------------------------------------------------------------

/// What every engine knows of the compiled sequence it walks.
pub open spec fn machine_wf(ops: Seq<OpView>, root: SchemaNode, root_v: JsonView) -> bool {
    &&& ops == node_ops(root) + seq![OpView::Done]
    &&& node_wf(root)
}

/// The operation the instruction pointer of a normal well-formed state
/// rests on.
pub proof fn lemma_op_at(
    ops: Seq<OpView>,
    root: SchemaNode,
    root_v: JsonView,
    st: MState,
    ip: int,
)
    requires
        machine_wf(ops, root, root_v),
        st_wf(ops, root, root_v, st, ip),
        st_normal(st),
    ensures
        0 <= ip < ops.len(),
        match st.stage {
            Stage::Scalars { j } => if j < st.cur.node.scalars.len() {
                ops[ip] == st.cur.node.scalars[j] && crate::ops::is_scalar_check(ops[ip])
            } else {
                st.cur.node.props is Some && ops[ip] == OpView::EnterObject
            },
            Stage::Sizes { j } => if j < st.cur.node.sizes.len() {
                ops[ip] == st.cur.node.sizes[j] && crate::ops::is_scalar_check(ops[ip])
            } else {
                st.cur.node.items is Some && ops[ip] == OpView::EnterArray
            },
            Stage::ObjOp => {
                let i = st.z.last().kind->Obj_i;
                let props = zf_props(st.z.last());
                if i < props.len() {
                    ops[ip] == (OpView::CheckProperty {
                        key: props[i].key,
                        required: props[i].required,
                    })
                } else {
                    ops[ip] == OpView::ExitObject
                }
            },
            Stage::ArrCheck => ops[ip] == OpView::CheckArrayItems,
            Stage::ArrExit => ops[ip] == OpView::ExitArray,
            Stage::AtDone => ops[ip] == OpView::Done,
        },
{
    match st.stage {
        Stage::Scalars { j } => {
            lemma_ctx_layout(ops, root_v, st.cur);
        },
        Stage::Sizes { j } => {
            lemma_ctx_layout(ops, root_v, st.cur);
        },
        Stage::ObjOp => {
            let f = st.z.last();
            lemma_ctx_layout(ops, root_v, f.ctx);
            lemma_props_layout(ops, root_v, f.ctx, f.kind->Obj_i);
        },
        Stage::ArrCheck => {
            lemma_ctx_layout(ops, root_v, st.cur);
        },
        Stage::ArrExit => {
            lemma_ctx_layout(ops, root_v, st.cur);
        },
        Stage::AtDone => {
            assert(ops[node_ops(root).len() as int] == OpView::Done);
        },
    }
}

/// Closes out a finished node window: control returns to the enclosing
/// bracket, or the machine is done.
pub proof fn lemma_complete(
    ops: Seq<OpView>,
    root: SchemaNode,
    root_v: JsonView,
    z: Seq<ZFrame>,
    c: NodeCtx,
    ip: int,
) -> (st2: MState)
    requires
        machine_wf(ops, root, root_v),
        z_wf(ops, root, root_v, z),
        c == expected_ctx(root, root_v, z),
        z.len() > 0 ==> zf_open(z.last()),
        ctx_wf(ops, root_v, c),
        ip == win_end(c.node, c.ws),
    ensures
        st_wf(ops, root, root_v, st2, ip),
        st_normal(st2),
        st2.z == z,
        state_rest(st2) == z_rest(z),
        state_work(st2) == z_work(z),
        st_path(st2) == c.path,
{
    if z.len() == 0 {
        let st2 = MState { z, cur: ctx_root(root, root_v), stage: Stage::AtDone };
        st2
    } else {
        let f = z.last();
        match f.kind {
            ZKind::Obj { i, opened } => {
                let props = zf_props(f);
                lemma_props_layout(ops, root_v, f.ctx, i - 1);
                assert(c.ws == props_base(f.ctx.node, f.ctx.ws) + props_off(props, i - 1) + 1);
                assert(ip == props_base(f.ctx.node, f.ctx.ws) + props_off(props, i));
                let st2 = MState { z, cur: f.ctx, stage: Stage::ObjOp };
                st2
            },
            ZKind::Arr { index, item_open } => {
                assert(c.ws == item_base(f.ctx.node, f.ctx.ws));
                assert(ip == arr_exit_pos(f.ctx.node, f.ctx.ws));
                let st2 = MState { z, cur: f.ctx, stage: Stage::ArrExit };
                st2
            },
        }
    }
}

/// Relabels a silent boundary: the end of the scalar checks without an
/// object bracket, or the end of the size checks without an array bracket,
/// up to and including a finished node window.
pub proof fn lemma_normalize(
    ops: Seq<OpView>,
    root: SchemaNode,
    root_v: JsonView,
    st: MState,
    ip: int,
) -> (st2: MState)
    requires
        machine_wf(ops, root, root_v),
        st_wf(ops, root, root_v, st, ip),
        st.stage is Scalars || st.stage is Sizes,
    ensures
        st_wf(ops, root, root_v, st2, ip),
        st_normal(st2),
        st2.z == st.z,
        state_rest(st2) == state_rest(st),
        state_work(st2) == state_work(st),
        st_path(st2) == st_path(st),
    decreases (if st.stage is Scalars { 2int } else { 1int }),
{
    let cur = st.cur;
    lemma_ctx_layout(ops, root_v, cur);
    match st.stage {
        Stage::Scalars { j } => {
            if j == cur.node.scalars.len() && cur.node.props is None {
                let st_mid = MState { z: st.z, cur, stage: Stage::Sizes { j: 0 } };
                lemma_checks_done(cur.node.scalars, cur.v, cur.path);
                lemma_checks_skip0(cur.node.sizes);
                assert(local_rest(cur, st.stage) == local_rest(cur, st_mid.stage));
                assert(local_work(cur, st.stage) == local_work(cur, st_mid.stage));
                let st2 = lemma_normalize(ops, root, root_v, st_mid, ip);
                st2
            } else {
                st
            }
        },
        Stage::Sizes { j } => {
            if j == cur.node.sizes.len() && cur.node.items is None {
                lemma_checks_done(cur.node.sizes, cur.v, cur.path);
                assert(local_rest(cur, st.stage) == Seq::<IssueView>::empty());
                assert(local_work(cur, st.stage) == 0);
                assert(ip == win_end(cur.node, cur.ws));
                let st2 = lemma_complete(ops, root, root_v, st.z, cur, ip);
                st2
            } else {
                st
            }
        },
        _ => {
            st
        },
    }
}

// ------------------------------------------------------------------
// Reading the stage off the operation
// ------------------------------------------------------------------

/// Which stage a normal state must be in, given the operation its
/// instruction pointer rests on.
pub proof fn lemma_stage_from_op(
    ops: Seq<OpView>,
    root: SchemaNode,
    root_v: JsonView,
    st: MState,
    ip: int,
)
    requires
        machine_wf(ops, root, root_v),
        st_wf(ops, root, root_v, st, ip),
        st_normal(st),
    ensures
        0 <= ip < ops.len(),
        crate::ops::is_scalar_check(ops[ip]) ==> (match st.stage {
            Stage::Scalars { j } => j < st.cur.node.scalars.len(),
            Stage::Sizes { j } => j < st.cur.node.sizes.len(),
            _ => false,
        }),
        ops[ip] == OpView::EnterObject ==> (st.stage matches Stage::Scalars { j }
            && j == st.cur.node.scalars.len()),
        (ops[ip] matches OpView::CheckProperty { .. }) ==> st.stage is ObjOp
            && st.z.last().kind->Obj_i < zf_props(st.z.last()).len(),
        ops[ip] == OpView::ExitObject ==> st.stage is ObjOp
            && st.z.last().kind->Obj_i == zf_props(st.z.last()).len(),
        ops[ip] == OpView::EnterArray ==> (st.stage matches Stage::Sizes { j }
            && j == st.cur.node.sizes.len()),
        ops[ip] == OpView::CheckArrayItems ==> st.stage is ArrCheck,
        ops[ip] == OpView::ExitArray ==> st.stage is ArrExit,
        ops[ip] == OpView::Done ==> st.stage is AtDone,
{
    lemma_op_at(ops, root, root_v, st, ip);
}

// ------------------------------------------------------------------
// One step per operation kind
// ------------------------------------------------------------------

/// The scalar check a scalar-stage state rests on.
pub open spec fn scalar_op_at(st: MState) -> OpView {
    match st.stage {
        Stage::Scalars { j } => st.cur.node.scalars[j],
        Stage::Sizes { j } => st.cur.node.sizes[j],
        _ => OpView::Done,
    }
}

/// One scalar check: report its issue if it fails, move on.
pub proof fn lemma_step_scalar(
    ops: Seq<OpView>,
    root: SchemaNode,
    root_v: JsonView,
    st: MState,
    ip: int,
) -> (st2: MState)
    requires
        machine_wf(ops, root, root_v),
        st_wf(ops, root, root_v, st, ip),
        st_normal(st),
        match st.stage {
            Stage::Scalars { j } => j < st.cur.node.scalars.len(),
            Stage::Sizes { j } => j < st.cur.node.sizes.len(),
            _ => false,
        },
    ensures
        st_wf(ops, root, root_v, st2, ip + 1),
        st_normal(st2),
        st2.z == st.z,
        ops[ip] == scalar_op_at(st),
        crate::ops::is_scalar_check(ops[ip]),
        st_path(st) == st.cur.path,
        st_path(st2) == st.cur.path,
        resolve_spec(root_v, st.cur.path) == Option::Some(st.cur.v),
        state_rest(st) == (if crate::ops::check_passes(scalar_op_at(st), st.cur.v) {
            Seq::<IssueView>::empty()
        } else {
            seq![issue_at(crate::ops::check_message(scalar_op_at(st), st.cur.v), st.cur.path)]
        }) + state_rest(st2),
        state_work(st) == state_work(st2) + 1,
{
    lemma_op_at(ops, root, root_v, st, ip);
    let cur = st.cur;
    let reported = (if crate::ops::check_passes(scalar_op_at(st), cur.v) {
        Seq::<IssueView>::empty()
    } else {
        seq![issue_at(crate::ops::check_message(scalar_op_at(st), cur.v), cur.path)]
    });
    match st.stage {
        Stage::Scalars { j } => {
            let st_mid = MState { z: st.z, cur, stage: Stage::Scalars { j: j + 1 } };
            lemma_checks_skip(cur.node.scalars, cur.v, cur.path, j);
            let rest_tail = obj_stage_issues(cur.node, cur.v, cur.path)
                + checks_issues(cur.node.sizes, cur.v, cur.path)
                + items_stage_issues(cur.node, cur.v, cur.path);
            assert(checks_issues(cur.node.scalars.skip(j), cur.v, cur.path)
                == reported + checks_issues(cur.node.scalars.skip(j + 1), cur.v, cur.path));
            assert(local_rest(cur, st.stage) =~= reported + local_rest(cur, st_mid.stage));
            assert(state_rest(st) =~= reported + state_rest(st_mid));
            let st2 = lemma_normalize(ops, root, root_v, st_mid, ip + 1);
            st2
        },
        Stage::Sizes { j } => {
            let st_mid = MState { z: st.z, cur, stage: Stage::Sizes { j: j + 1 } };
            lemma_checks_skip(cur.node.sizes, cur.v, cur.path, j);
            assert(local_rest(cur, st.stage) =~= reported + local_rest(cur, st_mid.stage));
            assert(state_rest(st) =~= reported + state_rest(st_mid));
            let st2 = lemma_normalize(ops, root, root_v, st_mid, ip + 1);
            st2
        },
        _ => {
            st
        },
    }
}

/// `EnterObject`: push the object bracket's frame.
pub proof fn lemma_step_enter_object(
    ops: Seq<OpView>,
    root: SchemaNode,
    root_v: JsonView,
    st: MState,
    ip: int,
) -> (st2: MState)
    requires
        machine_wf(ops, root, root_v),
        st_wf(ops, root, root_v, st, ip),
        st_normal(st),
        st.stage matches Stage::Scalars { j } && j == st.cur.node.scalars.len(),
    ensures
        ops[ip] == OpView::EnterObject,
        st_wf(ops, root, root_v, st2, ip + 1),
        st_normal(st2),
        st2.z == st.z.push(ZFrame { ctx: st.cur, kind: ZKind::Obj { i: 0, opened: false } }),
        state_rest(st2) == state_rest(st),
        state_work(st) == state_work(st2) + 1,
        st_path(st) == st.cur.path,
        st_path(st2) == st.cur.path,
{
    lemma_op_at(ops, root, root_v, st, ip);
    let cur = st.cur;
    let f = ZFrame { ctx: cur, kind: ZKind::Obj { i: 0, opened: false } };
    let st2 = MState { z: st.z.push(f), cur, stage: Stage::ObjOp };
    let props = cur.node.props->Some_0;
    lemma_checks_done(cur.node.scalars, cur.v, cur.path);
    lemma_z_rest_push(st.z, f);
    assert(props_off(props, 0) == 0);
    assert(frame_rest(f) == props_issues(props, cur.v, cur.path, 0)
        + checks_issues(cur.node.sizes, cur.v, cur.path)
        + items_stage_issues(cur.node, cur.v, cur.path));
    assert(local_rest(cur, st.stage) =~= frame_rest(f));
    assert(state_rest(st2) =~= state_rest(st));
    assert(st2.z.last() == f);
    assert(st2.z.drop_last() =~= st.z);
    st2
}

/// `ExitObject`: pop the object bracket's frame.
pub proof fn lemma_step_exit_object(
    ops: Seq<OpView>,
    root: SchemaNode,
    root_v: JsonView,
    st: MState,
    ip: int,
) -> (st2: MState)
    requires
        machine_wf(ops, root, root_v),
        st_wf(ops, root, root_v, st, ip),
        st_normal(st),
        st.stage is ObjOp,
        st.z.last().kind->Obj_i == zf_props(st.z.last()).len(),
    ensures
        ops[ip] == OpView::ExitObject,
        st_wf(ops, root, root_v, st2, ip + 1),
        st_normal(st2),
        st2.z == st.z.drop_last(),
        state_rest(st2) == state_rest(st),
        state_work(st) == state_work(st2) + 1,
        st_path(st) == (if zf_open(st.z.last()) {
            st.cur.path.push(SegView::Key(
                zf_props(st.z.last())[st.z.last().kind->Obj_i - 1].key,
            ))
        } else {
            st.cur.path
        }),
        st_path(st2) == st.cur.path,
{
    lemma_op_at(ops, root, root_v, st, ip);
    let f = st.z.last();
    let cur = f.ctx;
    let props = zf_props(f);
    let st_mid = MState { z: st.z.drop_last(), cur, stage: Stage::Sizes { j: 0 } };
    lemma_props_layout(ops, root_v, cur, props.len() as int);
    lemma_checks_skip0(cur.node.sizes);
    lemma_z_rest_update(st.z, f);
    assert(frame_rest(f) =~= local_rest(cur, st_mid.stage));
    assert(state_rest(st) =~= state_rest(st_mid));
    let st2 = lemma_normalize(ops, root, root_v, st_mid, ip + 1);
    st2
}

/// `EnterArray`: push the array bracket's frame.
pub proof fn lemma_step_enter_array(
    ops: Seq<OpView>,
    root: SchemaNode,
    root_v: JsonView,
    st: MState,
    ip: int,
) -> (st2: MState)
    requires
        machine_wf(ops, root, root_v),
        st_wf(ops, root, root_v, st, ip),
        st_normal(st),
        st.stage matches Stage::Sizes { j } && j == st.cur.node.sizes.len(),
    ensures
        ops[ip] == OpView::EnterArray,
        st_wf(ops, root, root_v, st2, ip + 1),
        st_normal(st2),
        st2.z == st.z.push(ZFrame {
            ctx: st.cur,
            kind: ZKind::Arr { index: 0, item_open: false },
        }),
        state_rest(st2) == state_rest(st),
        state_work(st) == state_work(st2) + 1,
        st_path(st) == st.cur.path,
        st_path(st2) == st.cur.path,
{
    lemma_op_at(ops, root, root_v, st, ip);
    let cur = st.cur;
    let f = ZFrame { ctx: cur, kind: ZKind::Arr { index: 0, item_open: false } };
    let st2 = MState { z: st.z.push(f), cur, stage: Stage::ArrCheck };
    lemma_checks_done(cur.node.sizes, cur.v, cur.path);
    lemma_z_rest_push(st.z, f);
    assert(local_rest(cur, st.stage) =~= frame_rest(f));
    assert(state_rest(st2) =~= state_rest(st));
    assert(st2.z.drop_last() =~= st.z);
    st2
}

/// `CheckProperty`: descend into a present property, or skip its window,
/// reporting an absent required property.
#[verifier::rlimit(100)]
#[verifier::spinoff_prover]
pub proof fn lemma_step_check_property(
    ops: Seq<OpView>,
    root: SchemaNode,
    root_v: JsonView,
    st: MState,
    ip: int,
) -> (st2: MState)
    requires
        machine_wf(ops, root, root_v),
        st_wf(ops, root, root_v, st, ip),
        st_normal(st),
        st.stage is ObjOp,
        st.z.last().kind->Obj_i < zf_props(st.z.last()).len(),
    ensures
        ({
            let f = st.z.last();
            let i = f.kind->Obj_i;
            let props = zf_props(f);
            let key = props[i].key;
            let member = value_member(f.ctx.v, key);
            let wlen = node_ops(props[i].sub).len() as int;
            &&& ops[ip] == (OpView::CheckProperty { key, required: props[i].required })
            &&& st_path(st) == (if zf_open(f) {
                f.ctx.path.push(SegView::Key(props[i - 1].key))
            } else {
                f.ctx.path
            })
            &&& resolve_spec(root_v, f.ctx.path) == Option::Some(f.ctx.v)
            &&& st_normal(st2)
            &&& (member is Some ==> {
                &&& st2.z == st.z.drop_last().push(ZFrame {
                    ctx: f.ctx,
                    kind: ZKind::Obj { i: i + 1, opened: true },
                })
                &&& st_wf(ops, root, root_v, st2, ip + 1)
                &&& state_rest(st) == state_rest(st2)
                &&& state_work(st) == state_work(st2) + 1
                &&& st_path(st2) == f.ctx.path.push(SegView::Key(key))
            })
            &&& (member is None ==> {
                &&& st2.z == st.z.drop_last().push(ZFrame {
                    ctx: f.ctx,
                    kind: ZKind::Obj { i: i + 1, opened: false },
                })
                &&& scan_w(ops.skip(ip + 1), 0) == ScanResult::Stopped(wlen)
                &&& ip + 1 + wlen < ops.len()
                &&& st_wf(ops, root, root_v, st2, ip + 1 + wlen)
                &&& state_rest(st) == (if props[i].required {
                    seq![
                        issue_at(
                            crate::ops::missing_property_message(key),
                            f.ctx.path.push(SegView::Key(key)),
                        ),
                    ]
                } else {
                    Seq::<IssueView>::empty()
                }) + state_rest(st2)
                &&& state_work(st) == state_work(st2) + 1
                &&& st_path(st2) == f.ctx.path
            })
        }),
{
    lemma_op_at(ops, root, root_v, st, ip);
    let f = st.z.last();
    let i = f.kind->Obj_i;
    let props = zf_props(f);
    let key = props[i].key;
    let sub = props[i].sub;
    let w = node_ops(sub);
    let cur = f.ctx;
    lemma_props_layout(ops, root_v, cur, i);
    lemma_props_layout(ops, root_v, cur, i + 1);
    assert(node_wf(cur.node));
    assert(props_wf(props, 0));
    crate::schema::lemma_props_wf_elem(props, i);
    lemma_z_rest_update(st.z, f);
    assert(props_issues(props, cur.v, cur.path, i) == (match value_member(cur.v, key) {
        Option::Some(sub_v) => node_issues(sub, sub_v, cur.path.push(SegView::Key(key))),
        Option::None => if props[i].required {
            seq![issue_at(crate::ops::missing_property_message(key), cur.path.push(SegView::Key(key)))]
        } else {
            Seq::<IssueView>::empty()
        },
    }) + props_issues(props, cur.v, cur.path, i + 1));
    assert(props_work(props, cur.v, i) == 1 + (match value_member(cur.v, key) {
        Option::Some(sub_v) => node_work(sub, sub_v),
        Option::None => 0,
    }) + props_work(props, cur.v, i + 1));
    match value_member(cur.v, key) {
        Option::Some(sub_v) => {
            let f2 = ZFrame { ctx: cur, kind: ZKind::Obj { i: i + 1, opened: true } };
            let z2 = st.z.drop_last().push(f2);
            let c2 = child_ctx(f2);
            lemma_z_rest_push(st.z.drop_last(), f2);
            lemma_resolve_push(root_v, cur.path, SegView::Key(key));
            assert(c2.node == sub && c2.v == sub_v && c2.ws == ip + 1);
            let st_mid = MState { z: z2, cur: c2, stage: Stage::Scalars { j: 0 } };
            assert(z_wf(ops, root, root_v, z2)) by {
                assert(z2.drop_last() =~= st.z.drop_last());
                assert(z2.last() == f2);
            }
            assert(ctx_wf(ops, root_v, c2));
            lemma_checks_skip0(c2.node.scalars);
            assert(local_rest(c2, st_mid.stage) =~= node_issues(sub, sub_v, c2.path));
            assert(local_work(c2, st_mid.stage) == node_work(sub, sub_v));
            assert(state_rest(st) =~= state_rest(st_mid));
            assert(state_work(st) == state_work(st_mid) + 1);
            let st2 = lemma_normalize(ops, root, root_v, st_mid, ip + 1);
            assert(st_path(st_mid) == c2.path);
            st2
        },
        Option::None => {
            let f2 = ZFrame { ctx: cur, kind: ZKind::Obj { i: i + 1, opened: false } };
            let z2 = st.z.drop_last().push(f2);
            lemma_z_rest_push(st.z.drop_last(), f2);
            let st2 = MState { z: z2, cur, stage: Stage::ObjOp };
            assert(z_wf(ops, root, root_v, z2)) by {
                assert(z2.drop_last() =~= st.z.drop_last());
                assert(z2.last() == f2);
            }
            // the skip rule crosses the property's window
            crate::scan::lemma_node_neutral(sub, 0);
            let stopper = props_base(cur.node, cur.ws) + props_off(props, i + 1);
            assert(ops.subrange(ip + 1, ip + 1 + w.len() as int) == w);
            assert(stopper == ip + 1 + w.len());
            assert(stopper < ops.len()) by {
                lemma_props_window(props, i + 1);
                lemma_ctx_layout(ops, root_v, cur);
                assert(stopper <= sizes_base(cur.node, cur.ws) - 1);
                assert(win_end(cur.node, cur.ws) <= ops.len());
            }
            assert((ops[stopper] matches OpView::CheckProperty { .. })
                || ops[stopper] == OpView::ExitObject);
            lemma_skip_window(ops, ip + 1, w);
            assert(state_rest(st2) == local_rest(st2.cur, st2.stage) + z_rest(z2));
            st2
        },
    }
}

/// `CheckArrayItems`: descend into the next element, or skip the item
/// window when none remain.
pub proof fn lemma_step_arr_check(
    ops: Seq<OpView>,
    root: SchemaNode,
    root_v: JsonView,
    st: MState,
    ip: int,
) -> (st2: MState)
    requires
        machine_wf(ops, root, root_v),
        st_wf(ops, root, root_v, st, ip),
        st_normal(st),
        st.stage is ArrCheck,
    ensures
        ({
            let f = st.z.last();
            let index = f.kind->Arr_index;
            let elems = arr_elems(f.ctx.v);
            let sub = zf_items(f);
            let wlen = node_ops(sub).len() as int;
            &&& ops[ip] == OpView::CheckArrayItems
            &&& st_path(st) == f.ctx.path
            &&& resolve_spec(root_v, f.ctx.path) == Option::Some(f.ctx.v)
            &&& st_normal(st2)
            &&& (index < elems.len() ==> {
                &&& st2.z == st.z.drop_last().push(ZFrame {
                    ctx: f.ctx,
                    kind: ZKind::Arr { index, item_open: true },
                })
                &&& st_wf(ops, root, root_v, st2, ip + 1)
                &&& state_rest(st) == state_rest(st2)
                &&& state_work(st) == state_work(st2) + 1
                &&& st_path(st2) == f.ctx.path.push(SegView::Index(index))
            })
            &&& (index >= elems.len() ==> {
                &&& st2 == (MState { z: st.z, cur: st.cur, stage: Stage::ArrExit })
                &&& scan_w(ops.skip(ip + 1), 0) == ScanResult::Stopped(wlen)
                &&& ip + 1 + wlen < ops.len()
                &&& st_wf(ops, root, root_v, st2, ip + 1 + wlen)
                &&& state_rest(st) == state_rest(st2)
                &&& state_work(st) == state_work(st2)
                &&& st_path(st2) == f.ctx.path
            })
        }),
{
    lemma_op_at(ops, root, root_v, st, ip);
    let f = st.z.last();
    let index = f.kind->Arr_index;
    let elems = arr_elems(f.ctx.v);
    let sub = zf_items(f);
    let w = node_ops(sub);
    let cur = f.ctx;
    lemma_ctx_layout(ops, root_v, cur);
    assert(node_wf(sub));
    lemma_z_rest_update(st.z, f);
    if index < elems.len() {
        assert(items_issues(sub, elems, cur.path, index) == node_issues(
            sub,
            elems[index],
            cur.path.push(SegView::Index(index)),
        ) + items_issues(sub, elems, cur.path, index + 1));
        assert(arr_work(sub, elems, index) == 2 + node_work(sub, elems[index])
            + arr_work(sub, elems, index + 1));
        let f2 = ZFrame { ctx: cur, kind: ZKind::Arr { index, item_open: true } };
        let z2 = st.z.drop_last().push(f2);
        let c2 = child_ctx(f2);
        lemma_z_rest_push(st.z.drop_last(), f2);
        lemma_resolve_push(root_v, cur.path, SegView::Index(index));
        assert(cur.v matches JsonView::Arr(es) && es == elems);
        assert(resolve_one(cur.v, SegView::Index(index)) == Option::Some(elems[index]));
        let st_mid = MState { z: z2, cur: c2, stage: Stage::Scalars { j: 0 } };
        assert(z_wf(ops, root, root_v, z2)) by {
            assert(z2.drop_last() =~= st.z.drop_last());
            assert(z2.last() == f2);
        }
        assert(c2.node == sub && c2.v == elems[index] && c2.ws == item_base(cur.node, cur.ws));
        assert(ctx_wf(ops, root_v, c2));
        lemma_checks_skip0(c2.node.scalars);
        assert(local_rest(c2, st_mid.stage) =~= node_issues(sub, elems[index], c2.path));
        assert(local_work(c2, st_mid.stage) == node_work(sub, elems[index]));
        assert(state_rest(st) =~= state_rest(st_mid));
        assert(state_work(st) == state_work(st_mid) + 1);
        let st2 = lemma_normalize(ops, root, root_v, st_mid, ip + 1);
        st2
    } else {
        let st2 = MState { z: st.z, cur: st.cur, stage: Stage::ArrExit };
        crate::scan::lemma_node_neutral(sub, 0);
        assert(ops.subrange(ip + 1, ip + 1 + w.len() as int) == w);
        assert(arr_exit_pos(cur.node, cur.ws) == ip + 1 + w.len());
        assert(ip + 1 + w.len() < ops.len()) by {
            assert(win_end(cur.node, cur.ws) == arr_exit_pos(cur.node, cur.ws) + 1);
            assert(win_end(cur.node, cur.ws) <= ops.len());
        }
        assert(ops[ip + 1 + w.len() as int] == OpView::ExitArray);
        lemma_skip_window(ops, ip + 1, w);
        st2
    }
}

/// `ExitArray` after an element: advance the index and rewind to the
/// bracket's `CheckArrayItems`.
pub proof fn lemma_step_arr_exit_rewind(
    ops: Seq<OpView>,
    root: SchemaNode,
    root_v: JsonView,
    st: MState,
    ip: int,
) -> (st2: MState)
    requires
        machine_wf(ops, root, root_v),
        st_wf(ops, root, root_v, st, ip),
        st_normal(st),
        st.stage is ArrExit,
        st.z.last().kind->Arr_item_open,
    ensures
        ({
            let f = st.z.last();
            let index = f.kind->Arr_index;
            &&& ops[ip] == OpView::ExitArray
            &&& st_path(st) == f.ctx.path.push(SegView::Index(index))
            &&& st2.z == st.z.drop_last().push(ZFrame {
                ctx: f.ctx,
                kind: ZKind::Arr { index: index + 1, item_open: false },
            })
            &&& st2.stage is ArrCheck
            &&& st_wf(ops, root, root_v, st2, check_items_pos(f.ctx.node, f.ctx.ws))
            &&& check_items_pos(f.ctx.node, f.ctx.ws) < ops.len()
            &&& st_normal(st2)
            &&& state_rest(st) == state_rest(st2)
            &&& state_work(st) == state_work(st2) + 1
            &&& st_path(st2) == f.ctx.path
        }),
{
    lemma_op_at(ops, root, root_v, st, ip);
    let f = st.z.last();
    let index = f.kind->Arr_index;
    let cur = f.ctx;
    lemma_ctx_layout(ops, root_v, cur);
    lemma_z_rest_update(st.z, f);
    let f2 = ZFrame { ctx: cur, kind: ZKind::Arr { index: index + 1, item_open: false } };
    let z2 = st.z.drop_last().push(f2);
    lemma_z_rest_push(st.z.drop_last(), f2);
    let st2 = MState { z: z2, cur, stage: Stage::ArrCheck };
    assert(z_wf(ops, root, root_v, z2)) by {
        assert(z2.drop_last() =~= st.z.drop_last());
        assert(z2.last() == f2);
    }
    st2
}

/// `ExitArray` with no elements left: pop the bracket; the node's window
/// is complete.
pub proof fn lemma_step_arr_exit_pop(
    ops: Seq<OpView>,
    root: SchemaNode,
    root_v: JsonView,
    st: MState,
    ip: int,
) -> (st2: MState)
    requires
        machine_wf(ops, root, root_v),
        st_wf(ops, root, root_v, st, ip),
        st_normal(st),
        st.stage is ArrExit,
        !st.z.last().kind->Arr_item_open,
    ensures
        ops[ip] == OpView::ExitArray,
        st_path(st) == st.cur.path,
        st_wf(ops, root, root_v, st2, ip + 1),
        st_normal(st2),
        st2.z == st.z.drop_last(),
        state_rest(st2) == state_rest(st),
        state_work(st) == state_work(st2) + 2,
        st_path(st2) == st.cur.path,
{
    lemma_op_at(ops, root, root_v, st, ip);
    let f = st.z.last();
    let index = f.kind->Arr_index;
    let elems = arr_elems(f.ctx.v);
    let cur = f.ctx;
    lemma_ctx_layout(ops, root_v, cur);
    lemma_z_rest_update(st.z, f);
    assert(frame_rest(f) == items_issues(zf_items(f), elems, cur.path, index));
    assert(items_issues(zf_items(f), elems, cur.path, index) == Seq::<IssueView>::empty());
    assert(frame_work(f) == arr_work(zf_items(f), elems, index));
    assert(arr_work(zf_items(f), elems, index) == 2);
    assert(ip + 1 == win_end(cur.node, cur.ws));
    let st2 = lemma_complete(ops, root, root_v, st.z.drop_last(), cur, ip + 1);
    st2
}

/// `ExitArray` after the last element: pop the bracket and continue
/// forward; the node's window is complete.
pub proof fn lemma_step_arr_exit_finish(
    ops: Seq<OpView>,
    root: SchemaNode,
    root_v: JsonView,
    st: MState,
    ip: int,
) -> (st2: MState)
    requires
        machine_wf(ops, root, root_v),
        st_wf(ops, root, root_v, st, ip),
        st_normal(st),
        st.stage is ArrExit,
        st.z.last().kind->Arr_item_open,
        st.z.last().kind->Arr_index + 1 >= arr_elems(st.z.last().ctx.v).len(),
    ensures
        ops[ip] == OpView::ExitArray,
        st_path(st) == st.cur.path.push(SegView::Index(st.z.last().kind->Arr_index)),
        st_wf(ops, root, root_v, st2, ip + 1),
        st_normal(st2),
        st2.z == st.z.drop_last(),
        state_rest(st2) == state_rest(st),
        state_work(st) == state_work(st2) + 3,
        st_path(st2) == st.cur.path,
{
    lemma_op_at(ops, root, root_v, st, ip);
    let f = st.z.last();
    let index = f.kind->Arr_index;
    let elems = arr_elems(f.ctx.v);
    let cur = f.ctx;
    lemma_ctx_layout(ops, root_v, cur);
    lemma_z_rest_update(st.z, f);
    assert(frame_rest(f) == items_issues(zf_items(f), elems, cur.path, index + 1));
    assert(items_issues(zf_items(f), elems, cur.path, index + 1) == Seq::<IssueView>::empty());
    assert(frame_work(f) == 1 + arr_work(zf_items(f), elems, index + 1));
    assert(arr_work(zf_items(f), elems, index + 1) == 2);
    assert(ip + 1 == win_end(cur.node, cur.ws));
    let st2 = lemma_complete(ops, root, root_v, st.z.drop_last(), cur, ip + 1);
    st2
}

} // verus!
