//! The traversal context and its ghost counterpart: which schema node each
//! bracket on the stack belongs to, where its window sits in the compiled
//! sequence, what remains of the walk, and how much work that still is.
//! The execution engines share these definitions and their step lemmas.

use vstd::prelude::*;
use crate::value::{JsonView, arr_elems, json_size, json_size_seq, lemma_json_size_seq_elem};
use crate::ops::OpView;
use crate::schema::{SchemaNode, PropNode, node_ops, obj_seg, props_ops, node_wf};
use crate::semantics::{
    checks_issues, obj_stage_issues, items_stage_issues, props_issues, items_issues,
    value_member,
};
use crate::types::{IssueView, SegView};

verus! {

// ------------------------------------------------------------------
// Value resolution along a path
// ------------------------------------------------------------------

/// The value a path leads to from the root, if every segment resolves.
pub open spec fn resolve_spec(v: JsonView, p: Seq<SegView>) -> Option<JsonView>
    decreases p.len(),
{
    if p.len() == 0 {
        Option::Some(v)
    } else {
        match resolve_one(v, p[0]) {
            Option::Some(m) => resolve_spec(m, p.drop_first()),
            Option::None => Option::None,
        }
    }
}

/// One resolution step: an object member by key, an array element by index.
pub open spec fn resolve_one(v: JsonView, seg: SegView) -> Option<JsonView> {
    match seg {
        SegView::Key(k) => value_member(v, k),
        SegView::Index(i) => match v {
            JsonView::Arr(elems) => if 0 <= i < elems.len() {
                Option::Some(elems[i])
            } else {
                Option::None
            },
            _ => Option::None,
        },
    }
}

/// Resolving an extended path takes one more step from the old target.
pub proof fn lemma_resolve_push(v: JsonView, p: Seq<SegView>, seg: SegView)
    ensures
        resolve_spec(v, p.push(seg)) == (match resolve_spec(v, p) {
            Option::Some(m) => resolve_one(m, seg),
            Option::None => Option::None,
        }),
    decreases p.len(),
{
    if p.len() == 0 {
        assert(p.push(seg)[0] == seg);
        assert(p.push(seg).drop_first() =~= Seq::<SegView>::empty());
        match resolve_one(v, seg) {
            Option::Some(m) => {
                assert(resolve_spec(m, p.push(seg).drop_first()) == Option::Some(m));
            },
            Option::None => {},
        }
    } else {
        assert(p.push(seg)[0] == p[0]);
        assert(p.push(seg).drop_first() =~= p.drop_first().push(seg));
        match resolve_one(v, p[0]) {
            Option::Some(m) => {
                lemma_resolve_push(m, p.drop_first(), seg);
            },
            Option::None => {},
        }
    }
}

// ------------------------------------------------------------------
// Positions within a node's compiled window
// ------------------------------------------------------------------

/// Offset of property window `i` within the property segment.
pub open spec fn props_off(props: Seq<PropNode>, i: int) -> int {
    props_ops(props, 0).len() - props_ops(props, i).len()
}

/// Position of the node's `EnterObject`.
pub open spec fn obj_enter_pos(n: SchemaNode, ws: int) -> int {
    ws + n.scalars.len()
}

/// Position of the first property window.
pub open spec fn props_base(n: SchemaNode, ws: int) -> int {
    obj_enter_pos(n, ws) + 1
}

/// Position of the first array-size check.
pub open spec fn sizes_base(n: SchemaNode, ws: int) -> int {
    ws + n.scalars.len() + obj_seg(n).len()
}

/// Position of the node's `EnterArray`.
pub open spec fn arr_enter_pos(n: SchemaNode, ws: int) -> int {
    sizes_base(n, ws) + n.sizes.len()
}

/// Position of the node's `CheckArrayItems`.
pub open spec fn check_items_pos(n: SchemaNode, ws: int) -> int {
    arr_enter_pos(n, ws) + 1
}

/// Position where the item window begins.
pub open spec fn item_base(n: SchemaNode, ws: int) -> int {
    check_items_pos(n, ws) + 1
}

/// Position of the node's `ExitArray`.
pub open spec fn arr_exit_pos(n: SchemaNode, ws: int) -> int {
    item_base(n, ws) + (match n.items {
        Option::Some(sub) => node_ops(*sub).len() as int,
        Option::None => 0,
    })
}

/// Position just past the node's whole window.
pub open spec fn win_end(n: SchemaNode, ws: int) -> int {
    ws + node_ops(n).len()
}

// ------------------------------------------------------------------
// The ghost context stack
// ------------------------------------------------------------------

/// The node a part of the machine is working on: the schema node, the
/// value focused for it, that value's path, and where the node's window
/// starts in the compiled sequence.
pub struct NodeCtx {
    pub node: SchemaNode,
    pub v: JsonView,
    pub path: Seq<SegView>,
    pub ws: int,
}

/// Ghost progress of one bracket.
pub enum ZKind {
    /// Inside the object bracket: properties before `i` are finished;
    /// `opened` says whether property `i - 1` still holds the path.
    Obj { i: int, opened: bool },
    /// Inside the array bracket: elements before `index` are finished;
    /// `item_open` says whether element `index` is being validated.
    Arr { index: int, item_open: bool },
}

/// One bracket on the ghost stack.
pub struct ZFrame {
    pub ctx: NodeCtx,
    pub kind: ZKind,
}

/// An execution engine's traversal-context frame.
#[derive(Clone, Copy, Debug)]
pub enum Frame {
    /// An object in progress; `prop_open` says whether the previous
    /// property left a path segment pushed.
    InObject { prop_open: bool },
    /// An array in progress: the current index, the position of the
    /// bracket's `CheckArrayItems`, and whether an element is open.
    InArray { index: usize, check_pos: usize, item_open: bool },
}

/// Whether an execution frame shows exactly its ghost counterpart.
pub open spec fn frame_matches(f: Frame, zf: ZFrame) -> bool {
    match f {
        Frame::InObject { prop_open } => zf.kind matches ZKind::Obj { i: _, opened }
            && prop_open == opened,
        Frame::InArray { index, check_pos, item_open } => zf.kind matches ZKind::Arr {
            index: zi,
            item_open: zopen,
        } && index == zi && item_open == zopen
            && check_pos == check_items_pos(zf.ctx.node, zf.ctx.ws),
    }
}

/// The properties of a frame's node (used only when it has some).
pub open spec fn zf_props(zf: ZFrame) -> Seq<PropNode> {
    zf.ctx.node.props->Some_0
}

/// The item sub-schema of a frame's node (used only when it has one).
pub open spec fn zf_items(zf: ZFrame) -> SchemaNode {
    *zf.ctx.node.items->Some_0
}

/// Whether the frame currently holds an open child position.
pub open spec fn zf_open(zf: ZFrame) -> bool {
    match zf.kind {
        ZKind::Obj { i: _, opened } => opened,
        ZKind::Arr { index: _, item_open } => item_open,
    }
}

/// A context is well formed when its window really holds its node's
/// operations, the node is well formed, and its value sits at its path.
pub open spec fn ctx_wf(ops: Seq<OpView>, root_v: JsonView, c: NodeCtx) -> bool {
    &&& 0 <= c.ws
    &&& c.ws + node_ops(c.node).len() <= ops.len()
    &&& ops.subrange(c.ws, c.ws + node_ops(c.node).len()) == node_ops(c.node)
    &&& node_wf(c.node)
    &&& resolve_spec(root_v, c.path) == Option::Some(c.v)
}

/// Internal consistency of one ghost frame.
pub open spec fn zf_wf(ops: Seq<OpView>, root_v: JsonView, zf: ZFrame) -> bool {
    &&& ctx_wf(ops, root_v, zf.ctx)
    &&& match zf.kind {
        ZKind::Obj { i, opened } => {
            &&& zf.ctx.node.props is Some
            &&& 0 <= i <= zf_props(zf).len()
            &&& (opened ==> i >= 1 && value_member(zf.ctx.v, zf_props(zf)[i - 1].key) is Some)
        },
        ZKind::Arr { index, item_open } => {
            &&& zf.ctx.node.items is Some
            &&& 0 <= index <= arr_elems(zf.ctx.v).len()
            &&& (item_open ==> index < arr_elems(zf.ctx.v).len())
        },
    }
}

/// The context of whatever sits nested inside an open frame.
pub open spec fn child_ctx(zf: ZFrame) -> NodeCtx {
    match zf.kind {
        ZKind::Obj { i, opened: _ } => NodeCtx {
            node: zf_props(zf)[i - 1].sub,
            v: value_member(zf.ctx.v, zf_props(zf)[i - 1].key)->Some_0,
            path: zf.ctx.path.push(SegView::Key(zf_props(zf)[i - 1].key)),
            ws: props_base(zf.ctx.node, zf.ctx.ws) + props_off(zf_props(zf), i - 1) + 1,
        },
        ZKind::Arr { index, item_open: _ } => NodeCtx {
            node: zf_items(zf),
            v: arr_elems(zf.ctx.v)[index],
            path: zf.ctx.path.push(SegView::Index(index)),
            ws: item_base(zf.ctx.node, zf.ctx.ws),
        },
    }
}

/// The context of the root node.
pub open spec fn ctx_root(root: SchemaNode, root_v: JsonView) -> NodeCtx {
    NodeCtx { node: root, v: root_v, path: Seq::empty(), ws: 0 }
}

/// The context expected of whatever sits nested inside the stack `z`.
pub open spec fn expected_ctx(root: SchemaNode, root_v: JsonView, z: Seq<ZFrame>) -> NodeCtx {
    if z.len() == 0 {
        ctx_root(root, root_v)
    } else {
        child_ctx(z.last())
    }
}

/// The stack is well formed: every frame is, every frame but possibly the
/// innermost holds an open child position, and each frame's context is the
/// one its enclosing stack expects.
pub open spec fn z_wf(ops: Seq<OpView>, root: SchemaNode, root_v: JsonView, z: Seq<ZFrame>) -> bool
    decreases z.len(),
{
    if z.len() == 0 {
        true
    } else {
        &&& z_wf(ops, root, root_v, z.drop_last())
        &&& zf_wf(ops, root_v, z.last())
        &&& (z.len() >= 2 ==> zf_open(z[z.len() - 2]))
        &&& z.last().ctx == expected_ctx(root, root_v, z.drop_last())
    }
}

// ------------------------------------------------------------------
// The machine's ghost state
// ------------------------------------------------------------------

/// Where within the current node the machine stands.
pub enum Stage {
    /// At scalar check `j` of the current node.
    Scalars { j: int },
    /// At array-size check `j` of the current node.
    Sizes { j: int },
    /// At `CheckProperty` number `i` of the innermost (object) frame, or at
    /// its `ExitObject` when all properties are done.
    ObjOp,
    /// At the innermost (array) frame's `CheckArrayItems`.
    ArrCheck,
    /// At the innermost (array) frame's `ExitArray`.
    ArrExit,
    /// At `Done`.
    AtDone,
}

/// The machine's ghost state: the bracket stack, the current node context,
/// and the position within it.
pub struct MState {
    pub z: Seq<ZFrame>,
    pub cur: NodeCtx,
    pub stage: Stage,
}

/// Well-formedness of the whole ghost state at instruction pointer `ip`.
pub open spec fn st_wf(
    ops: Seq<OpView>,
    root: SchemaNode,
    root_v: JsonView,
    st: MState,
    ip: int,
) -> bool {
    &&& z_wf(ops, root, root_v, st.z)
    &&& match st.stage {
        Stage::Scalars { j } => {
            &&& st.cur == expected_ctx(root, root_v, st.z)
            &&& (st.z.len() > 0 ==> zf_open(st.z.last()))
            &&& ctx_wf(ops, root_v, st.cur)
            &&& 0 <= j <= st.cur.node.scalars.len()
            &&& ip == st.cur.ws + j
        },
        Stage::Sizes { j } => {
            &&& st.cur == expected_ctx(root, root_v, st.z)
            &&& (st.z.len() > 0 ==> zf_open(st.z.last()))
            &&& ctx_wf(ops, root_v, st.cur)
            &&& 0 <= j <= st.cur.node.sizes.len()
            &&& ip == sizes_base(st.cur.node, st.cur.ws) + j
        },
        Stage::ObjOp => {
            &&& st.z.len() > 0
            &&& st.z.last().kind is Obj
            &&& st.cur == st.z.last().ctx
            &&& ip == props_base(st.cur.node, st.cur.ws)
                + props_off(zf_props(st.z.last()), st.z.last().kind->Obj_i)
        },
        Stage::ArrCheck => {
            &&& st.z.len() > 0
            &&& st.z.last().kind is Arr
            &&& !st.z.last().kind->Arr_item_open
            &&& st.cur == st.z.last().ctx
            &&& ip == check_items_pos(st.cur.node, st.cur.ws)
        },
        Stage::ArrExit => {
            &&& st.z.len() > 0
            &&& st.z.last().kind is Arr
            &&& st.cur == st.z.last().ctx
            &&& (!st.z.last().kind->Arr_item_open ==> st.z.last().kind->Arr_index
                >= arr_elems(st.cur.v).len())
            &&& ip == arr_exit_pos(st.cur.node, st.cur.ws)
        },
        Stage::AtDone => {
            &&& st.z.len() == 0
            &&& st.cur == ctx_root(root, root_v)
            &&& ip == node_ops(root).len()
        },
    }
}

/// A state the engines pause at: one where `ip` holds a real operation.
/// The two silent boundaries (end of the scalar checks without an object
/// bracket, end of the size checks without an array bracket) are always
/// normalized away.
pub open spec fn st_normal(st: MState) -> bool {
    match st.stage {
        Stage::Scalars { j } => j == st.cur.node.scalars.len() ==> st.cur.node.props is Some,
        Stage::Sizes { j } => j == st.cur.node.sizes.len() ==> st.cur.node.items is Some,
        _ => true,
    }
}

/// The path the execution engine's path vector holds in this state: the
/// current context's path, plus the segment of a property or element whose
/// window just finished but whose segment has not been popped yet.
pub open spec fn st_path(st: MState) -> Seq<SegView> {
    match st.stage {
        Stage::Scalars { j: _ } => st.cur.path,
        Stage::Sizes { j: _ } => st.cur.path,
        Stage::ObjOp => if zf_open(st.z.last()) {
            child_ctx(st.z.last()).path
        } else {
            st.cur.path
        },
        Stage::ArrCheck => st.cur.path,
        Stage::ArrExit => if zf_open(st.z.last()) {
            child_ctx(st.z.last()).path
        } else {
            st.cur.path
        },
        Stage::AtDone => Seq::empty(),
    }
}

// ------------------------------------------------------------------
// What remains to be reported
// ------------------------------------------------------------------

/// The issues one frame still owes once control returns to it.
pub open spec fn frame_rest(zf: ZFrame) -> Seq<IssueView> {
    match zf.kind {
        ZKind::Obj { i, opened: _ } => props_issues(zf_props(zf), zf.ctx.v, zf.ctx.path, i)
            + checks_issues(zf.ctx.node.sizes, zf.ctx.v, zf.ctx.path)
            + items_stage_issues(zf.ctx.node, zf.ctx.v, zf.ctx.path),
        ZKind::Arr { index, item_open } => items_issues(
            zf_items(zf),
            arr_elems(zf.ctx.v),
            zf.ctx.path,
            index + if item_open { 1int } else { 0int },
        ),
    }
}

/// The issues the whole stack still owes, innermost first.
pub open spec fn z_rest(z: Seq<ZFrame>) -> Seq<IssueView>
    decreases z.len(),
{
    if z.len() == 0 {
        Seq::empty()
    } else {
        frame_rest(z.last()) + z_rest(z.drop_last())
    }
}

/// The issues the current node still owes from the current stage on.
pub open spec fn local_rest(cur: NodeCtx, stage: Stage) -> Seq<IssueView> {
    match stage {
        Stage::Scalars { j } => checks_issues(cur.node.scalars.skip(j), cur.v, cur.path)
            + obj_stage_issues(cur.node, cur.v, cur.path)
            + checks_issues(cur.node.sizes, cur.v, cur.path)
            + items_stage_issues(cur.node, cur.v, cur.path),
        Stage::Sizes { j } => checks_issues(cur.node.sizes.skip(j), cur.v, cur.path)
            + items_stage_issues(cur.node, cur.v, cur.path),
        _ => Seq::empty(),
    }
}

/// Everything the machine still has to report from this state on.
pub open spec fn state_rest(st: MState) -> Seq<IssueView> {
    local_rest(st.cur, st.stage) + z_rest(st.z)
}

// ------------------------------------------------------------------
// How much work remains (the termination measure)
// ------------------------------------------------------------------

/// Loop iterations to process one node's window.
pub open spec fn node_work(n: SchemaNode, v: JsonView) -> nat
    decreases n, json_size(v), 3int,
{
    n.scalars.len() + obj_stage_work(n, v) + n.sizes.len() + items_stage_work(n, v)
}

pub open spec fn obj_stage_work(n: SchemaNode, v: JsonView) -> nat
    decreases n, json_size(v), 2int,
{
    match n.props {
        Option::Some(props) => 2 + props_work(props, v, 0),
        Option::None => 0,
    }
}

pub open spec fn props_work(props: Seq<PropNode>, v: JsonView, i: int) -> nat
    decreases props, json_size(v), props.len() - i,
{
    if i < 0 || i >= props.len() {
        0
    } else {
        1 + (match value_member(v, props[i].key) {
            Option::Some(sub_v) => node_work(props[i].sub, sub_v),
            Option::None => 0,
        }) + props_work(props, v, i + 1)
    }
}

pub open spec fn items_stage_work(n: SchemaNode, v: JsonView) -> nat
    decreases n, json_size(v), 2int,
{
    match n.items {
        Option::Some(sub) => 1 + arr_work(*sub, arr_elems(v), 0),
        Option::None => 0,
    }
}

pub open spec fn arr_work(sub: SchemaNode, elems: Seq<JsonView>, index: int) -> nat
    decreases sub, json_size_seq(elems) + 1, elems.len() - index,
        via arr_work_dec
{
    if index < 0 || index >= elems.len() {
        2
    } else {
        2 + node_work(sub, elems[index]) + arr_work(sub, elems, index + 1)
    }
}

#[via_fn]
proof fn arr_work_dec(sub: SchemaNode, elems: Seq<JsonView>, index: int) {
    if 0 <= index < elems.len() {
        lemma_json_size_seq_elem(elems, index);
    }
}

/// The iterations one frame still needs once control returns to it.
pub open spec fn frame_work(zf: ZFrame) -> nat {
    match zf.kind {
        ZKind::Obj { i, opened: _ } => props_work(zf_props(zf), zf.ctx.v, i) + 1
            + zf.ctx.node.sizes.len() + items_stage_work(zf.ctx.node, zf.ctx.v),
        ZKind::Arr { index, item_open } => if item_open {
            1 + arr_work(zf_items(zf), arr_elems(zf.ctx.v), index + 1)
        } else {
            arr_work(zf_items(zf), arr_elems(zf.ctx.v), index)
        },
    }
}

pub open spec fn z_work(z: Seq<ZFrame>) -> nat
    decreases z.len(),
{
    if z.len() == 0 {
        0
    } else {
        frame_work(z.last()) + z_work(z.drop_last())
    }
}

pub open spec fn local_work(cur: NodeCtx, stage: Stage) -> nat {
    match stage {
        Stage::Scalars { j } => (cur.node.scalars.len() - j) as nat + obj_stage_work(cur.node, cur.v)
            + cur.node.sizes.len() + items_stage_work(cur.node, cur.v),
        Stage::Sizes { j } => (cur.node.sizes.len() - j) as nat + items_stage_work(cur.node, cur.v),
        _ => 0,
    }
}

/// The loop iterations the machine still needs from this state on.
pub open spec fn state_work(st: MState) -> nat {
    local_work(st.cur, st.stage) + z_work(st.z)
}

} // verus!
