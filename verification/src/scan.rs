//! The skip rule: a balanced-bracket scan over the flat instruction stream
//! that stands in for "skip this subtree" in a tree walker.

use vstd::prelude::*;
use crate::ops::{Op, OpView, ops_view};
use crate::schema::{SchemaNode, PropNode, node_ops, obj_seg, arr_seg, props_ops, node_wf, props_wf};

verus! {

/// What a scan over a window does: stop at an offset, or run through the
/// whole window and end at a depth.
pub enum ScanResult {
    Stopped(int),
    Ran(int),
}

/// Scans `w` with a nesting counter starting at `d`: the counter rises at
/// `EnterObject`/`EnterArray` and falls at a matching exit; the scan stops,
/// without consuming, at the first `CheckProperty` seen at counter zero or
/// at the exit that would take the counter below zero.
pub open spec fn scan_w(w: Seq<OpView>, d: int) -> ScanResult
    decreases w.len(),
{
    if w.len() == 0 {
        ScanResult::Ran(d)
    } else {
        let step: Option<int> = match w[0] {
            OpView::EnterObject => Option::Some(d + 1),
            OpView::EnterArray => Option::Some(d + 1),
            OpView::CheckProperty { .. } => if d == 0 {
                Option::None
            } else {
                Option::Some(d)
            },
            OpView::ExitObject => if d == 0 {
                Option::None
            } else {
                Option::Some(d - 1)
            },
            OpView::ExitArray => if d == 0 {
                Option::None
            } else {
                Option::Some(d - 1)
            },
            _ => Option::Some(d),
        };
        match step {
            Option::None => ScanResult::Stopped(0),
            Option::Some(d2) => match scan_w(w.drop_first(), d2) {
                ScanResult::Stopped(k) => ScanResult::Stopped(k + 1),
                ScanResult::Ran(df) => ScanResult::Ran(df),
            },
        }
    }
}

/// A scan that runs through `u` continues into `v` at the depth it ended
/// with; one that stops in `u` stops there.
pub proof fn lemma_scan_append(u: Seq<OpView>, v: Seq<OpView>, d: int)
    ensures
        scan_w(u + v, d) == (match scan_w(u, d) {
            ScanResult::Ran(d2) => (match scan_w(v, d2) {
                ScanResult::Stopped(k) => ScanResult::Stopped(u.len() + k),
                r => r,
            }),
            ScanResult::Stopped(k) => ScanResult::Stopped(k),
        }),
    decreases u.len(),
{
    if u.len() == 0 {
        assert(u + v =~= v);
        match scan_w(v, d) {
            ScanResult::Stopped(k) => {
                assert(scan_w(u + v, d) == ScanResult::Stopped(0 + k));
            },
            ScanResult::Ran(_) => {},
        }
    } else {
        assert((u + v)[0] == u[0]);
        assert((u + v).drop_first() =~= u.drop_first() + v);
        lemma_scan_append(u.drop_first(), v, match u[0] {
            OpView::EnterObject => d + 1,
            OpView::EnterArray => d + 1,
            OpView::ExitObject => d - 1,
            OpView::ExitArray => d - 1,
            _ => d,
        });
    }
}

/// What scanning a single operation does.
pub proof fn lemma_scan_one(op: OpView, d: int)
    ensures
        scan_w(seq![op], d) == (match op {
            OpView::EnterObject => ScanResult::Ran(d + 1),
            OpView::EnterArray => ScanResult::Ran(d + 1),
            OpView::CheckProperty { .. } => if d == 0 {
                ScanResult::Stopped(0)
            } else {
                ScanResult::Ran(d)
            },
            OpView::ExitObject => if d == 0 {
                ScanResult::Stopped(0)
            } else {
                ScanResult::Ran(d - 1)
            },
            OpView::ExitArray => if d == 0 {
                ScanResult::Stopped(0)
            } else {
                ScanResult::Ran(d - 1)
            },
            _ => ScanResult::Ran(d),
        }),
{
    let w = seq![op];
    assert(w.drop_first() =~= Seq::<OpView>::empty());
    assert(scan_w(w.drop_first(), d + 1) == ScanResult::Ran(d + 1));
    assert(scan_w(w.drop_first(), d) == ScanResult::Ran(d));
    assert(scan_w(w.drop_first(), d - 1) == ScanResult::Ran(d - 1));
}

/// A node's compiled window is neutral: scanned from any non-negative
/// depth, the scan passes through it all and ends at the same depth.
pub proof fn lemma_node_neutral(n: SchemaNode, d: int)
    requires
        d >= 0,
        node_wf(n),
    ensures
        scan_w(node_ops(n), d) == ScanResult::Ran(d),
    decreases n, 3int,
{
    lemma_scalar_neutral(n.scalars, d);
    lemma_obj_seg_neutral(n, d);
    lemma_scalar_neutral(n.sizes, d);
    lemma_arr_seg_neutral(n, d);
    lemma_scan_append(n.scalars, obj_seg(n), d);
    lemma_scan_append(n.scalars + obj_seg(n), n.sizes, d);
    lemma_scan_append(n.scalars + obj_seg(n) + n.sizes, arr_seg(n), d);
}

/// Scalar checks neither move the counter nor stop a scan.
pub proof fn lemma_scalar_neutral(w: Seq<OpView>, d: int)
    requires
        forall|k: int| 0 <= k < w.len() ==> crate::ops::is_scalar_check(w[k]),
    ensures
        scan_w(w, d) == ScanResult::Ran(d),
    decreases w.len(),
{
    if w.len() > 0 {
        lemma_scalar_neutral(w.drop_first(), d);
    }
}

proof fn lemma_obj_seg_neutral(n: SchemaNode, d: int)
    requires
        d >= 0,
        node_wf(n),
    ensures
        scan_w(obj_seg(n), d) == ScanResult::Ran(d),
    decreases n, 2int,
{
    match n.props {
        Option::Some(props) => {
            lemma_scan_one(OpView::EnterObject, d);
            lemma_scan_one(OpView::ExitObject, d + 1);
            lemma_props_neutral(props, 0, d + 1);
            lemma_scan_append(seq![OpView::EnterObject], props_ops(props, 0), d);
            lemma_scan_append(
                seq![OpView::EnterObject] + props_ops(props, 0),
                seq![OpView::ExitObject],
                d,
            );
        },
        Option::None => {},
    }
}

proof fn lemma_arr_seg_neutral(n: SchemaNode, d: int)
    requires
        d >= 0,
        node_wf(n),
    ensures
        scan_w(arr_seg(n), d) == ScanResult::Ran(d),
    decreases n, 2int,
{
    match n.items {
        Option::Some(sub) => {
            lemma_scan_one(OpView::EnterArray, d);
            lemma_scan_one(OpView::CheckArrayItems, d + 1);
            lemma_scan_one(OpView::ExitArray, d + 1);
            assert(seq![OpView::EnterArray, OpView::CheckArrayItems] =~= seq![
                OpView::EnterArray,
            ] + seq![OpView::CheckArrayItems]);
            lemma_scan_append(seq![OpView::EnterArray], seq![OpView::CheckArrayItems], d);
            lemma_node_neutral(*sub, d + 1);
            lemma_scan_append(
                seq![OpView::EnterArray, OpView::CheckArrayItems],
                node_ops(*sub),
                d,
            );
            lemma_scan_append(
                seq![OpView::EnterArray, OpView::CheckArrayItems] + node_ops(*sub),
                seq![OpView::ExitArray],
                d,
            );
        },
        Option::None => {},
    }
}

/// Property windows are neutral at any positive depth: their
/// `CheckProperty` operations sit above the scan's zero level.
pub proof fn lemma_props_neutral(props: Seq<PropNode>, i: int, d: int)
    requires
        d >= 1,
        props_wf(props, 0),
    ensures
        scan_w(props_ops(props, i), d) == ScanResult::Ran(d),
    decreases props, props.len() - i,
{
    if 0 <= i < props.len() {
        let head = seq![
            OpView::CheckProperty { key: props[i].key, required: props[i].required },
        ];
        lemma_scan_one(head[0], d);
        crate::schema::lemma_props_wf_elem(props, i);
        lemma_node_neutral(props[i].sub, d);
        lemma_props_neutral(props, i + 1, d);
        lemma_scan_append(head, node_ops(props[i].sub), d);
        lemma_scan_append(head + node_ops(props[i].sub), props_ops(props, i + 1), d);
    }
}

/// Executes the skip rule from `start`, which the caller knows stops
/// within the sequence.
pub fn skip_scan(ops: &Vec<Op>, start: usize) -> (r: usize)
    requires
        start <= ops@.len(),
        scan_w(ops_view(ops@).skip(start as int), 0) matches ScanResult::Stopped(_),
    ensures
        scan_w(ops_view(ops@).skip(start as int), 0) == ScanResult::Stopped(r - start),
        start <= r < ops@.len(),
{
    let ghost w0 = ops_view(ops@).skip(start as int);
    let n: usize = ops.len();
    let mut i: usize = start;
    let mut d: usize = 0;
    loop
        invariant
            n == ops@.len(),
            start <= i <= n,
            w0 == ops_view(ops@).skip(start as int),
            scan_w(w0, 0) matches ScanResult::Stopped(_),
            d <= i - start,
            scan_w(w0, 0) == (match scan_w(ops_view(ops@).skip(i as int), d as int) {
                ScanResult::Stopped(k) => ScanResult::Stopped(i - start + k),
                r => r,
            }),
        decreases ops@.len() - i,
    {
        proof {
            if i == ops@.len() {
                assert(ops_view(ops@).skip(i as int) =~= Seq::<OpView>::empty());
                assert(false);
            }
        }
        assert(i < ops@.len());
        let ghost w = ops_view(ops@).skip(i as int);
        assert(w[0] == ops@[i as int]@);
        proof {
            assert(w.drop_first() =~= ops_view(ops@).skip(i as int + 1));
        }
        match &ops[i] {
            Op::EnterObject => {
                d = d + 1;
                i = i + 1;
            },
            Op::EnterArray => {
                d = d + 1;
                i = i + 1;
            },
            Op::CheckProperty { .. } => {
                if d == 0 {
                    proof {
                        assert(scan_w(w, 0int) == ScanResult::Stopped(0));
                        assert(scan_w(w0, 0) == ScanResult::Stopped(i - start));
                    }
                    return i;
                }
                i = i + 1;
            },
            Op::ExitObject => {
                if d == 0 {
                    proof {
                        assert(scan_w(w, 0int) == ScanResult::Stopped(0));
                        assert(scan_w(w0, 0) == ScanResult::Stopped(i - start));
                    }
                    return i;
                }
                d = d - 1;
                i = i + 1;
            },
            Op::ExitArray => {
                if d == 0 {
                    proof {
                        assert(scan_w(w, 0int) == ScanResult::Stopped(0));
                        assert(scan_w(w0, 0) == ScanResult::Stopped(i - start));
                    }
                    return i;
                }
                d = d - 1;
                i = i + 1;
            },
            _ => {
                i = i + 1;
            },
        }
    }
}

} // verus!
