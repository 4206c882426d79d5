//! The execution engines: interpreters that walk a compiled schema's flat
//! operation sequence with an explicit traversal-context stack.  All are
//! verified against the one denotational meaning in `semantics`.

use vstd::prelude::*;
use vstd::seq_lib::lemma_concat_associative;
use crate::compile::CompiledSchema;
use crate::ops::{Op, TypeTag, ops_view, is_scalar_check, check_passes, check_message, tag_matches};
use crate::schema::{parse_schema, node_ops, lemma_parse_schema_wf};
use crate::semantics::{node_issues, schema_issues, schema_valid, issue_at};
use crate::scan::skip_scan;
use crate::steps::{
    machine_wf, lemma_stage_from_op, lemma_normalize, lemma_checks_skip0,
    lemma_step_scalar, lemma_step_enter_object, lemma_step_check_property,
    lemma_step_exit_object, lemma_step_enter_array, lemma_step_arr_check,
    lemma_step_arr_exit_rewind, lemma_step_arr_exit_finish, lemma_step_arr_exit_pop,
};
use crate::types::{
    PathSegment, SegView, ValidationIssue, ValidationResult, IssueView, path_view,
    issues_view, lemma_path_view_push, lemma_path_view_drop_last, lemma_issues_view_push,
    dup_path,
};
use crate::value::{
    JsonValue, JsonView, arr_elems, json_view, lemma_json_view_seq, find_member,
    deep_clone_value, u64_string,
};
use vstd::string::StringExecFns;
use crate::walk::{
    Frame, MState, Stage, ctx_root, st_wf, st_normal, st_path, state_rest, state_work,
    frame_matches, resolve_spec, resolve_one, lemma_resolve_push,
};

verus! {

/// Whether an operation is a scalar check.
fn is_check_op(op: &Op) -> (r: bool)
    ensures
        r == is_scalar_check(op@),
{
    match op {
        Op::CheckType(_) => true,
        Op::CheckMinimum(_) => true,
        Op::CheckMaximum(_) => true,
        Op::CheckExclusiveMinimum(_) => true,
        Op::CheckExclusiveMaximum(_) => true,
        Op::CheckMinLength(_) => true,
        Op::CheckMaxLength(_) => true,
        Op::CheckMinItems(_) => true,
        Op::CheckMaxItems(_) => true,
        _ => false,
    }
}

/// Whether the focused value is of the given primitive kind.
pub fn tag_match(tag: TypeTag, v: &JsonValue) -> (r: bool)
    ensures
        r == tag_matches(tag, v@),
{
    match tag {
        TypeTag::Str => matches!(v, JsonValue::Str(_)),
        TypeTag::Num => matches!(v, JsonValue::Num(_)),
        TypeTag::Int => match v {
            JsonValue::Num(n) => n.is_integer(),
            _ => false,
        },
        TypeTag::Bool => matches!(v, JsonValue::Bool(_)),
        TypeTag::Null => matches!(v, JsonValue::Null),
        TypeTag::Obj => matches!(v, JsonValue::Obj(_)),
        TypeTag::Arr => matches!(v, JsonValue::Arr(_)),
    }
}

/// Evaluates one scalar check against the focused value.
fn eval_check(op: &Op, v: &JsonValue) -> (r: bool)
    ensures
        r == check_passes(op@, v@),
{
    match op {
        Op::CheckType(tag) => tag_match(*tag, v),
        Op::CheckMinimum(b) => match v {
            JsonValue::Num(n) => b.le(n),
            _ => true,
        },
        Op::CheckMaximum(b) => match v {
            JsonValue::Num(n) => n.le(b),
            _ => true,
        },
        Op::CheckExclusiveMinimum(b) => match v {
            JsonValue::Num(n) => b.lt(n),
            _ => true,
        },
        Op::CheckExclusiveMaximum(b) => match v {
            JsonValue::Num(n) => n.lt(b),
            _ => true,
        },
        Op::CheckMinLength(c) => match v {
            JsonValue::Str(s) => {
                let l: usize = vstd::string::StrSliceExecFns::unicode_len(s.as_str());
                l as u64 >= *c
            },
            _ => true,
        },
        Op::CheckMaxLength(c) => match v {
            JsonValue::Str(s) => {
                let l: usize = vstd::string::StrSliceExecFns::unicode_len(s.as_str());
                l as u64 <= *c
            },
            _ => true,
        },
        Op::CheckMinItems(c) => match v {
            JsonValue::Arr(items) => {
                proof {
                    lemma_json_view_seq(*items, 0);
                }
                items.len() as u64 >= *c
            },
            _ => true,
        },
        Op::CheckMaxItems(c) => match v {
            JsonValue::Arr(items) => {
                proof {
                    lemma_json_view_seq(*items, 0);
                }
                items.len() as u64 <= *c
            },
            _ => true,
        },
        _ => true,
    }
}

/// The lower-case name of a primitive kind, as the `type` keyword writes
/// it.
fn tag_name_str(tag: TypeTag) -> (r: &'static str)
    ensures
        r@ == crate::ops::tag_name(tag),
{
    match tag {
        TypeTag::Str => "string",
        TypeTag::Num => "number",
        TypeTag::Int => "integer",
        TypeTag::Bool => "boolean",
        TypeTag::Null => "null",
        TypeTag::Obj => "object",
        TypeTag::Arr => "array",
    }
}

/// Builds the issue a failed scalar check reports: the message names the
/// specifics of the focused value, and an issue at the root carries no
/// path.
fn check_fail_issue(op: &Op, focus: &JsonValue, path: &Vec<PathSegment>) -> (r: ValidationIssue)
    requires
        is_scalar_check(op@),
    ensures
        r@ == issue_at(check_message(op@, focus@), path_view(path@)),
{
    let message: String = match op {
        Op::CheckType(tag) => {
            let mut m = String::from_str("Expected type \"");
            m.append(tag_name_str(*tag));
            m.append("\", got ");
            m.append(crate::validators::json_type_name(focus));
            m
        },
        Op::CheckMinimum(_) => String::from_str("Number below minimum"),
        Op::CheckMaximum(_) => String::from_str("Number above maximum"),
        Op::CheckExclusiveMinimum(_) => String::from_str("Number not above exclusiveMinimum"),
        Op::CheckExclusiveMaximum(_) => String::from_str("Number not below exclusiveMaximum"),
        Op::CheckMinLength(_) => String::from_str("String shorter than minLength"),
        Op::CheckMaxLength(_) => String::from_str("String longer than maxLength"),
        Op::CheckMinItems(c) => {
            let mut m = String::from_str("Array has ");
            let len = arr_len(focus);
            m.append(u64_string(len as u64).as_str());
            m.append(" items, minimum is ");
            m.append(u64_string(*c).as_str());
            m
        },
        Op::CheckMaxItems(c) => {
            let mut m = String::from_str("Array has ");
            let len = arr_len(focus);
            m.append(u64_string(len as u64).as_str());
            m.append(" items, maximum is ");
            m.append(u64_string(*c).as_str());
            m
        },
        _ => String::new(),
    };
    let issue_path: Option<Vec<PathSegment>> = if path.len() == 0 {
        Option::None
    } else {
        Option::Some(dup_path(path))
    };
    ValidationIssue { message, path: issue_path }
}

/// Splitting a path at `k` splits its resolution.
proof fn lemma_resolve_split(v: JsonView, p: Seq<SegView>, k: int)
    requires
        0 <= k <= p.len(),
    ensures
        resolve_spec(v, p) == (match resolve_spec(v, p.take(k)) {
            Option::Some(m) => resolve_spec(m, p.skip(k)),
            Option::None => Option::<JsonView>::None,
        }),
    decreases k,
{
    if k == 0 {
        assert(p.take(0) =~= Seq::<SegView>::empty());
        assert(p.skip(0) =~= p);
    } else {
        assert(p.take(k)[0] == p[0]);
        assert(p.take(k).len() > 0);
        match resolve_one(v, p[0]) {
            Option::Some(m) => {
                lemma_resolve_split(m, p.drop_first(), k - 1);
                assert(p.take(k).drop_first() =~= p.drop_first().take(k - 1));
                assert(p.drop_first().skip(k - 1) =~= p.skip(k));
            },
            Option::None => {},
        }
    }
}

/// How many elements the focused value has when it is an array; zero
/// otherwise.
fn arr_len(v: &JsonValue) -> (r: usize)
    ensures
        r == arr_elems(json_view(*v)).len(),
{
    match v {
        JsonValue::Arr(items) => {
            proof {
                lemma_json_view_seq(*items, 0);
            }
            items.len()
        },
        JsonValue::Null => 0,
        JsonValue::Bool(_) => 0,
        JsonValue::Num(_) => 0,
        JsonValue::Str(_) => 0,
        JsonValue::Obj(_) => 0,
    }
}

/// Walks the path from the root of the value, one segment at a time.
fn resolve_value<'a>(root: &'a JsonValue, path: &Vec<PathSegment>) -> (r: Option<&'a JsonValue>)
    ensures
        match r {
            Option::Some(f) => resolve_spec(json_view(*root), path_view(path@))
                == Option::Some(json_view(*f)),
            Option::None => resolve_spec(json_view(*root), path_view(path@)) is None,
        },
{
    let ghost rv = json_view(*root);
    let ghost pv = path_view(path@);
    let mut cur: &'a JsonValue = root;
    let mut k: usize = 0;
    while k < path.len()
        invariant
            0 <= k <= path@.len(),
            rv == json_view(*root),
            pv == path_view(path@),
            pv.len() == path@.len(),
            resolve_spec(rv, pv.take(k as int)) == Option::Some(json_view(*cur)),
        decreases path@.len() - k,
    {
        proof {
            assert(pv.take(k as int + 1) =~= pv.take(k as int).push(pv[k as int]));
            lemma_resolve_push(rv, pv.take(k as int), pv[k as int]);
        }
        match &path[k] {
            PathSegment::Key(key) => {
                match cur {
                    JsonValue::Obj(members) => {
                        match find_member(members, key.as_str()) {
                            Option::Some(mi) => {
                                cur = &members[mi].value;
                            },
                            Option::None => {
                                proof {
                                    lemma_resolve_split(rv, pv, k as int + 1);
                                }
                                return Option::None;
                            },
                        }
                    },
                    _ => {
                        proof {
                            lemma_resolve_split(rv, pv, k as int + 1);
                        }
                        return Option::None;
                    },
                }
            },
            PathSegment::Index(idx) => {
                match cur {
                    JsonValue::Arr(items) => {
                        proof {
                            lemma_json_view_seq(*items, 0);
                        }
                        if *idx < items.len() {
                            cur = &items[*idx];
                        } else {
                            proof {
                                lemma_resolve_split(rv, pv, k as int + 1);
                            }
                            return Option::None;
                        }
                    },
                    _ => {
                        proof {
                            lemma_resolve_split(rv, pv, k as int + 1);
                        }
                        return Option::None;
                    },
                }
            },
        }
        k = k + 1;
    }
    proof {
        assert(pv.take(pv.len() as int) =~= pv);
    }
    Option::Some(cur)
}

/// The full-diagnostic engine: walks the compiled sequence against the
/// value, collecting one issue (with its location path) for every failed
/// check, and never short-circuiting.  On success the validated value is
/// returned back.
#[verifier::rlimit(100)]
pub fn full_diagnostic(compiled: &CompiledSchema, value: &JsonValue) -> (r: ValidationResult<
    JsonValue,
>)
    ensures
        r.spec_issues() == schema_issues(compiled.spec_source(), value@),
        r.spec_is_success() == schema_valid(compiled.spec_source(), value@),
        r matches ValidationResult::Success(out) ==> out@ == value@,
{
    let ops_vec = compiled.ops();
    let n_ops: usize = ops_vec.len();
    let ghost opsv = ops_view(ops_vec@);
    let ghost root = parse_schema(compiled.spec_source());
    let ghost root_v = json_view(*value);
    let ghost total = node_issues(root, root_v, Seq::empty());
    proof {
        lemma_parse_schema_wf(compiled.spec_source());
        assert(machine_wf(opsv, root, root_v));
    }

    let mut ip: usize = 0;
    let mut ctx: Vec<Frame> = Vec::new();
    let mut path: Vec<PathSegment> = Vec::new();
    let mut issues: Vec<ValidationIssue> = Vec::new();
    let ghost mut st: MState = MState {
        z: Seq::empty(),
        cur: ctx_root(root, root_v),
        stage: Stage::Scalars { j: 0 },
    };
    proof {
        assert(opsv.subrange(0, node_ops(root).len() as int) =~= node_ops(root));
        assert(st_wf(opsv, root, root_v, st, 0));
        lemma_checks_skip0(root.scalars);
        assert(state_rest(st) =~= total);
        st = lemma_normalize(opsv, root, root_v, st, 0);
        assert(issues_view(issues@) + state_rest(st) =~= total);
    }

    loop
        invariant
            machine_wf(opsv, root, root_v),
            opsv == ops_view(ops_vec@),
            n_ops == opsv.len(),
            root == parse_schema(compiled.spec_source()),
            root_v == json_view(*value),
            total == node_issues(root, root_v, Seq::empty()),
            st_wf(opsv, root, root_v, st, ip as int),
            st_normal(st),
            ip <= opsv.len(),
            ctx@.len() == st.z.len(),
            forall|k: int| 0 <= k < st.z.len() ==> frame_matches(ctx@[k], #[trigger] st.z[k]),
            path_view(path@) == st_path(st),
            issues_view(issues@) + state_rest(st) == total,
        ensures
            issues_view(issues@) == total,
        decreases state_work(st), opsv.len() - ip,
    {
        proof {
            lemma_stage_from_op(opsv, root, root_v, st, ip as int);
        }
        let op = &ops_vec[ip];
        let ghost stp = st;
        if is_check_op(op) {
            proof {
                st = lemma_step_scalar(opsv, root, root_v, stp, ip as int);
            }
            let focus = match resolve_value(value, &path) {
                Option::Some(f) => f,
                Option::None => {
                    proof {
                        assert(false);
                    }
                    value
                },
            };
            if !eval_check(op, focus) {
                let issue = check_fail_issue(op, focus, &path);
                proof {
                    lemma_issues_view_push(issues@, issue);
                    lemma_concat_associative(
                        issues_view(issues@),
                        seq![issue@],
                        state_rest(st),
                    );
                }
                issues.push(issue);
            }
            ip = ip + 1;
        } else {
            match op {
                Op::EnterObject => {
                    proof {
                        st = lemma_step_enter_object(opsv, root, root_v, stp, ip as int);
                    }
                    ctx.push(Frame::InObject { prop_open: false });
                    ip = ip + 1;
                },
                Op::CheckProperty { key, required } => {
                    let li = ctx.len() - 1;
                    let prop_open: bool = match ctx[li] {
                        Frame::InObject { prop_open } => prop_open,
                        _ => {
                            proof {
                                assert(false);
                            }
                            false
                        },
                    };
                    if prop_open {
                        let ghost pre_path = path@;
                        path.pop();
                        proof {
                            lemma_path_view_drop_last(pre_path);
                        }
                    }
                    proof {
                        st = lemma_step_check_property(opsv, root, root_v, stp, ip as int);
                        assert(path_view(path@) == stp.z.last().ctx.path);
                    }
                    let focus = match resolve_value(value, &path) {
                        Option::Some(f) => f,
                        Option::None => {
                            proof {
                                assert(false);
                            }
                            value
                        },
                    };
                    let present: bool = match focus {
                        JsonValue::Obj(members) => match find_member(members, key.as_str()) {
                            Option::Some(_) => true,
                            Option::None => false,
                        },
                        _ => false,
                    };
                    ctx.pop();
                    if present {
                        ctx.push(Frame::InObject { prop_open: true });
                        let ghost pre = path@;
                        path.push(PathSegment::Key(key.clone()));
                        proof {
                            lemma_path_view_push(pre, path@.last());
                        }
                        ip = ip + 1;
                    } else {
                        ctx.push(Frame::InObject { prop_open: false });
                        if *required {
                            let mut p2 = dup_path(&path);
                            let ghost pre2 = p2@;
                            p2.push(PathSegment::Key(key.clone()));
                            proof {
                                lemma_path_view_push(pre2, p2@.last());
                            }
                            let mut message = String::from_str("Missing required property '");
                            message.append(key.as_str());
                            message.append("'");
                            let issue = ValidationIssue { message, path: Option::Some(p2) };
                            proof {
                                lemma_issues_view_push(issues@, issue);
                                lemma_concat_associative(
                                    issues_view(issues@),
                                    seq![issue@],
                                    state_rest(st),
                                );
                            }
                            issues.push(issue);
                        }
                        ip = skip_scan(ops_vec, ip + 1);
                    }
                },
                Op::ExitObject => {
                    let li = ctx.len() - 1;
                    let prop_open: bool = match ctx[li] {
                        Frame::InObject { prop_open } => prop_open,
                        _ => {
                            proof {
                                assert(false);
                            }
                            false
                        },
                    };
                    proof {
                        st = lemma_step_exit_object(opsv, root, root_v, stp, ip as int);
                    }
                    if prop_open {
                        let ghost pre_path = path@;
                        path.pop();
                        proof {
                            lemma_path_view_drop_last(pre_path);
                        }
                    }
                    ctx.pop();
                    ip = ip + 1;
                },
                Op::EnterArray => {
                    proof {
                        st = lemma_step_enter_array(opsv, root, root_v, stp, ip as int);
                    }
                    ctx.push(Frame::InArray { index: 0, check_pos: ip + 1, item_open: false });
                    ip = ip + 1;
                },
                Op::CheckArrayItems => {
                    let li = ctx.len() - 1;
                    let (index, check_pos) = match ctx[li] {
                        Frame::InArray { index, check_pos, item_open: _ } => (index, check_pos),
                        _ => {
                            proof {
                                assert(false);
                            }
                            (0usize, 0usize)
                        },
                    };
                    proof {
                        st = lemma_step_arr_check(opsv, root, root_v, stp, ip as int);
                    }
                    let focus = match resolve_value(value, &path) {
                        Option::Some(f) => f,
                        Option::None => {
                            proof {
                                assert(false);
                            }
                            value
                        },
                    };
                    let len: usize = arr_len(focus);
                    if index < len {
                        ctx.pop();
                        ctx.push(Frame::InArray { index, check_pos, item_open: true });
                        proof {
                            lemma_path_view_push(path@, PathSegment::Index(index));
                        }
                        path.push(PathSegment::Index(index));
                        ip = ip + 1;
                    } else {
                        ip = skip_scan(ops_vec, ip + 1);
                    }
                },
                Op::ExitArray => {
                    let li = ctx.len() - 1;
                    let (index, check_pos, item_open) = match ctx[li] {
                        Frame::InArray { index, check_pos, item_open } => (
                            index,
                            check_pos,
                            item_open,
                        ),
                        _ => {
                            proof {
                                assert(false);
                            }
                            (0usize, 0usize, false)
                        },
                    };
                    if item_open {
                        proof {
                            let f = stp.z.last();
                            assert(frame_matches(ctx@[li as int], stp.z[li as int]));
                            assert(stp.z[li as int] == stp.z.last());
                            assert(crate::walk::z_wf(opsv, root, root_v, stp.z));
                            assert(crate::walk::zf_wf(opsv, root_v, f));
                            assert(st_path(stp) == f.ctx.path.push(
                                SegView::Index(f.kind->Arr_index),
                            ));
                        }
                        let ghost pre_path = path@;
                        path.pop();
                        proof {
                            lemma_path_view_drop_last(pre_path);
                            assert(stp.z.last().ctx.path.push(
                                SegView::Index(stp.z.last().kind->Arr_index),
                            ).drop_last() =~= stp.z.last().ctx.path);
                            assert(path_view(path@) == stp.z.last().ctx.path);
                        }
                        let focus = match resolve_value(value, &path) {
                            Option::Some(f) => f,
                            Option::None => {
                                proof {
                                    assert(false);
                                }
                                value
                            },
                        };
                        let len: usize = arr_len(focus);
                        proof {
                            assert(json_view(*focus) == stp.z.last().ctx.v);
                            assert(index < len);
                        }
                        if index + 1 < len {
                            proof {
                                st = lemma_step_arr_exit_rewind(
                                    opsv,
                                    root,
                                    root_v,
                                    stp,
                                    ip as int,
                                );
                            }
                            ctx.pop();
                            ctx.push(Frame::InArray {
                                index: index + 1,
                                check_pos,
                                item_open: false,
                            });
                            ip = check_pos;
                        } else {
                            proof {
                                st = lemma_step_arr_exit_finish(
                                    opsv,
                                    root,
                                    root_v,
                                    stp,
                                    ip as int,
                                );
                            }
                            ctx.pop();
                            ip = ip + 1;
                        }
                    } else {
                        proof {
                            st = lemma_step_arr_exit_pop(opsv, root, root_v, stp, ip as int);
                        }
                        ctx.pop();
                        ip = ip + 1;
                    }
                },
                Op::Done => {
                    proof {
                        assert(st.stage is AtDone);
                        assert(state_rest(st) =~= Seq::<IssueView>::empty());
                        assert(issues_view(issues@) + state_rest(st) =~= issues_view(issues@));
                    }
                    break;
                },
                Op::CheckType(_) | Op::CheckMinimum(_) | Op::CheckMaximum(_)
                    | Op::CheckExclusiveMinimum(_) | Op::CheckExclusiveMaximum(_)
                    | Op::CheckMinLength(_) | Op::CheckMaxLength(_)
                    | Op::CheckMinItems(_) | Op::CheckMaxItems(_) => {
                    proof {
                        assert(is_scalar_check(op@));
                        assert(false);
                    }
                },
            }
        }
    }

    if issues.len() == 0 {
        proof {
            assert(issues_view(issues@) =~= Seq::<IssueView>::empty());
        }
        ValidationResult::Success(deep_clone_value(value))
    } else {
        proof {
            assert(issues_view(issues@).len() == issues@.len());
        }
        ValidationResult::Failure(issues)
    }
}

/// The boolean fast-path engine: the same control flow over the same
/// compiled sequence, with no path bookkeeping and no issue allocation;
/// it answers `false` at the first failed check and `true` only when
/// `Done` is reached.
#[verifier::rlimit(100)]
pub fn boolean_fastpath(compiled: &CompiledSchema, value: &JsonValue) -> (r: bool)
    ensures
        r == schema_valid(compiled.spec_source(), value@),
{
    let ops_vec = compiled.ops();
    let n_ops: usize = ops_vec.len();
    let ghost opsv = ops_view(ops_vec@);
    let ghost root = parse_schema(compiled.spec_source());
    let ghost root_v = json_view(*value);
    let ghost total = node_issues(root, root_v, Seq::empty());
    proof {
        lemma_parse_schema_wf(compiled.spec_source());
        assert(machine_wf(opsv, root, root_v));
    }

    let mut ip: usize = 0;
    let mut ctx: Vec<Frame> = Vec::new();
    let mut path: Vec<PathSegment> = Vec::new();
    let ghost mut st: MState = MState {
        z: Seq::empty(),
        cur: ctx_root(root, root_v),
        stage: Stage::Scalars { j: 0 },
    };
    proof {
        assert(opsv.subrange(0, node_ops(root).len() as int) =~= node_ops(root));
        assert(st_wf(opsv, root, root_v, st, 0));
        lemma_checks_skip0(root.scalars);
        assert(state_rest(st) =~= total);
        st = lemma_normalize(opsv, root, root_v, st, 0);
    }

    loop
        invariant
            machine_wf(opsv, root, root_v),
            opsv == ops_view(ops_vec@),
            n_ops == opsv.len(),
            root == parse_schema(compiled.spec_source()),
            root_v == json_view(*value),
            total == node_issues(root, root_v, Seq::empty()),
            st_wf(opsv, root, root_v, st, ip as int),
            st_normal(st),
            ip <= opsv.len(),
            ctx@.len() == st.z.len(),
            forall|k: int| 0 <= k < st.z.len() ==> frame_matches(ctx@[k], #[trigger] st.z[k]),
            path_view(path@) == st_path(st),
            state_rest(st) == total,
        ensures
            total.len() == 0,
        decreases state_work(st), opsv.len() - ip,
    {
        proof {
            lemma_stage_from_op(opsv, root, root_v, st, ip as int);
        }
        let op = &ops_vec[ip];
        let ghost stp = st;
        if is_check_op(op) {
            proof {
                st = lemma_step_scalar(opsv, root, root_v, stp, ip as int);
            }
            let focus = match resolve_value(value, &path) {
                Option::Some(f) => f,
                Option::None => {
                    proof {
                        assert(false);
                    }
                    value
                },
            };
            if !eval_check(op, focus) {
                proof {
                    assert(total.len() > 0);
                }
                return false;
            }
            ip = ip + 1;
        } else {
            match op {
                Op::EnterObject => {
                    proof {
                        st = lemma_step_enter_object(opsv, root, root_v, stp, ip as int);
                    }
                    ctx.push(Frame::InObject { prop_open: false });
                    ip = ip + 1;
                },
                Op::CheckProperty { key, required } => {
                    let li = ctx.len() - 1;
                    let prop_open: bool = match ctx[li] {
                        Frame::InObject { prop_open } => prop_open,
                        _ => {
                            proof {
                                assert(false);
                            }
                            false
                        },
                    };
                    if prop_open {
                        let ghost pre_path = path@;
                        path.pop();
                        proof {
                            lemma_path_view_drop_last(pre_path);
                        }
                    }
                    proof {
                        st = lemma_step_check_property(opsv, root, root_v, stp, ip as int);
                        assert(path_view(path@) == stp.z.last().ctx.path);
                    }
                    let focus = match resolve_value(value, &path) {
                        Option::Some(f) => f,
                        Option::None => {
                            proof {
                                assert(false);
                            }
                            value
                        },
                    };
                    let present: bool = match focus {
                        JsonValue::Obj(members) => match find_member(members, key.as_str()) {
                            Option::Some(_) => true,
                            Option::None => false,
                        },
                        _ => false,
                    };
                    ctx.pop();
                    if present {
                        ctx.push(Frame::InObject { prop_open: true });
                        let ghost pre = path@;
                        path.push(PathSegment::Key(key.clone()));
                        proof {
                            lemma_path_view_push(pre, path@.last());
                        }
                        ip = ip + 1;
                    } else {
                        if *required {
                            proof {
                                assert(total.len() > 0);
                            }
                            return false;
                        }
                        ctx.push(Frame::InObject { prop_open: false });
                        ip = skip_scan(ops_vec, ip + 1);
                    }
                },
                Op::ExitObject => {
                    let li = ctx.len() - 1;
                    let prop_open: bool = match ctx[li] {
                        Frame::InObject { prop_open } => prop_open,
                        _ => {
                            proof {
                                assert(false);
                            }
                            false
                        },
                    };
                    proof {
                        st = lemma_step_exit_object(opsv, root, root_v, stp, ip as int);
                    }
                    if prop_open {
                        let ghost pre_path = path@;
                        path.pop();
                        proof {
                            lemma_path_view_drop_last(pre_path);
                        }
                    }
                    ctx.pop();
                    ip = ip + 1;
                },
                Op::EnterArray => {
                    proof {
                        st = lemma_step_enter_array(opsv, root, root_v, stp, ip as int);
                    }
                    ctx.push(Frame::InArray { index: 0, check_pos: ip + 1, item_open: false });
                    ip = ip + 1;
                },
                Op::CheckArrayItems => {
                    let li = ctx.len() - 1;
                    let (index, check_pos) = match ctx[li] {
                        Frame::InArray { index, check_pos, item_open: _ } => (index, check_pos),
                        _ => {
                            proof {
                                assert(false);
                            }
                            (0usize, 0usize)
                        },
                    };
                    proof {
                        st = lemma_step_arr_check(opsv, root, root_v, stp, ip as int);
                    }
                    let focus = match resolve_value(value, &path) {
                        Option::Some(f) => f,
                        Option::None => {
                            proof {
                                assert(false);
                            }
                            value
                        },
                    };
                    let len: usize = arr_len(focus);
                    if index < len {
                        ctx.pop();
                        ctx.push(Frame::InArray { index, check_pos, item_open: true });
                        let ghost pre = path@;
                        path.push(PathSegment::Index(index));
                        proof {
                            lemma_path_view_push(pre, path@.last());
                        }
                        ip = ip + 1;
                    } else {
                        ip = skip_scan(ops_vec, ip + 1);
                    }
                },
                Op::ExitArray => {
                    let li = ctx.len() - 1;
                    let (index, check_pos, item_open) = match ctx[li] {
                        Frame::InArray { index, check_pos, item_open } => (
                            index,
                            check_pos,
                            item_open,
                        ),
                        _ => {
                            proof {
                                assert(false);
                            }
                            (0usize, 0usize, false)
                        },
                    };
                    if item_open {
                        proof {
                            let f = stp.z.last();
                            assert(frame_matches(ctx@[li as int], stp.z[li as int]));
                            assert(stp.z[li as int] == stp.z.last());
                            assert(crate::walk::z_wf(opsv, root, root_v, stp.z));
                            assert(crate::walk::zf_wf(opsv, root_v, f));
                            assert(st_path(stp) == f.ctx.path.push(
                                SegView::Index(f.kind->Arr_index),
                            ));
                        }
                        let ghost pre_path = path@;
                        path.pop();
                        proof {
                            lemma_path_view_drop_last(pre_path);
                            assert(stp.z.last().ctx.path.push(
                                SegView::Index(stp.z.last().kind->Arr_index),
                            ).drop_last() =~= stp.z.last().ctx.path);
                            assert(path_view(path@) == stp.z.last().ctx.path);
                        }
                        let focus = match resolve_value(value, &path) {
                            Option::Some(f) => f,
                            Option::None => {
                                proof {
                                    assert(false);
                                }
                                value
                            },
                        };
                        let len: usize = arr_len(focus);
                        proof {
                            assert(json_view(*focus) == stp.z.last().ctx.v);
                            assert(index < len);
                        }
                        if index + 1 < len {
                            proof {
                                st = lemma_step_arr_exit_rewind(
                                    opsv,
                                    root,
                                    root_v,
                                    stp,
                                    ip as int,
                                );
                            }
                            ctx.pop();
                            ctx.push(Frame::InArray {
                                index: index + 1,
                                check_pos,
                                item_open: false,
                            });
                            ip = check_pos;
                        } else {
                            proof {
                                st = lemma_step_arr_exit_finish(
                                    opsv,
                                    root,
                                    root_v,
                                    stp,
                                    ip as int,
                                );
                            }
                            ctx.pop();
                            ip = ip + 1;
                        }
                    } else {
                        proof {
                            st = lemma_step_arr_exit_pop(opsv, root, root_v, stp, ip as int);
                        }
                        ctx.pop();
                        ip = ip + 1;
                    }
                },
                Op::Done => {
                    proof {
                        assert(st.stage is AtDone);
                        assert(state_rest(st) =~= Seq::<IssueView>::empty());
                    }
                    break;
                },
                Op::CheckType(_) | Op::CheckMinimum(_) | Op::CheckMaximum(_)
                    | Op::CheckExclusiveMinimum(_) | Op::CheckExclusiveMaximum(_)
                    | Op::CheckMinLength(_) | Op::CheckMaxLength(_)
                    | Op::CheckMinItems(_) | Op::CheckMaxItems(_) => {
                    proof {
                        assert(is_scalar_check(op@));
                        assert(false);
                    }
                },
            }
        }
    }
    true
}

/// The value stack mirrors the current path: entry `k` is the value the
/// first `k` path segments lead to.
pub open spec fn stack_matches(root_v: JsonView, p: Seq<SegView>, vs: Seq<&JsonValue>) -> bool {
    &&& vs.len() == p.len() + 1
    &&& forall|k: int| 0 <= k < vs.len() ==> resolve_spec(root_v, p.take(k))
        == Option::Some(json_view(*(#[trigger] vs[k])))
}

proof fn lemma_stack_top(root_v: JsonView, p: Seq<SegView>, vs: Seq<&JsonValue>)
    requires
        stack_matches(root_v, p, vs),
    ensures
        resolve_spec(root_v, p) == Option::Some(json_view(*vs.last())),
{
    assert(p.take(p.len() as int) =~= p);
}

proof fn lemma_stack_push(
    root_v: JsonView,
    p: Seq<SegView>,
    vs: Seq<&JsonValue>,
    seg: SegView,
    v: &JsonValue,
)
    requires
        stack_matches(root_v, p, vs),
        resolve_spec(root_v, p.push(seg)) == Option::Some(json_view(*v)),
    ensures
        stack_matches(root_v, p.push(seg), vs.push(v)),
{
    let p2 = p.push(seg);
    let vs2 = vs.push(v);
    assert forall|k: int| 0 <= k < vs2.len() implies resolve_spec(root_v, p2.take(k))
        == Option::Some(json_view(*(#[trigger] vs2[k]))) by {
        if k < vs.len() {
            assert(p2.take(k) =~= p.take(k));
            assert(vs2[k] == vs[k]);
        } else {
            assert(p2.take(k) =~= p2);
            assert(vs2[k] == v);
        }
    }
}

proof fn lemma_stack_pop(root_v: JsonView, p: Seq<SegView>, vs: Seq<&JsonValue>)
    requires
        stack_matches(root_v, p, vs),
        p.len() > 0,
    ensures
        stack_matches(root_v, p.drop_last(), vs.drop_last()),
{
    let p2 = p.drop_last();
    let vs2 = vs.drop_last();
    assert forall|k: int| 0 <= k < vs2.len() implies resolve_spec(root_v, p2.take(k))
        == Option::Some(json_view(*(#[trigger] vs2[k]))) by {
        assert(p2.take(k) =~= p.take(k));
        assert(vs2[k] == vs[k]);
    }
}

/// The direct engine: the same control flow, but the focused value is
/// kept on a parallel value stack pushed and popped alongside the
/// traversal context — each frame holds its own current value, read
/// directly out of the caller's value, instead of re-deriving it from the
/// root by path.
#[verifier::rlimit(100)]
pub fn direct_fastpath(compiled: &CompiledSchema, value: &JsonValue) -> (r: bool)
    ensures
        r == schema_valid(compiled.spec_source(), value@),
{
    let ops_vec = compiled.ops();
    let n_ops: usize = ops_vec.len();
    let ghost opsv = ops_view(ops_vec@);
    let ghost root = parse_schema(compiled.spec_source());
    let ghost root_v = json_view(*value);
    let ghost total = node_issues(root, root_v, Seq::empty());
    proof {
        lemma_parse_schema_wf(compiled.spec_source());
        assert(machine_wf(opsv, root, root_v));
    }

    let mut ip: usize = 0;
    let mut ctx: Vec<Frame> = Vec::new();
    let mut vstack: Vec<&JsonValue> = Vec::new();
    vstack.push(value);
    let ghost mut st: MState = MState {
        z: Seq::empty(),
        cur: ctx_root(root, root_v),
        stage: Stage::Scalars { j: 0 },
    };
    proof {
        assert(opsv.subrange(0, node_ops(root).len() as int) =~= node_ops(root));
        assert(st_wf(opsv, root, root_v, st, 0));
        lemma_checks_skip0(root.scalars);
        assert(state_rest(st) =~= total);
        st = lemma_normalize(opsv, root, root_v, st, 0);
        assert forall|k: int| 0 <= k < vstack@.len() implies resolve_spec(
            root_v,
            st_path(st).take(k),
        ) == Option::Some(json_view(*(#[trigger] vstack@[k]))) by {
            assert(st_path(st).take(k) =~= Seq::<SegView>::empty());
        }
    }

    loop
        invariant
            machine_wf(opsv, root, root_v),
            opsv == ops_view(ops_vec@),
            n_ops == opsv.len(),
            root == parse_schema(compiled.spec_source()),
            root_v == json_view(*value),
            total == node_issues(root, root_v, Seq::empty()),
            st_wf(opsv, root, root_v, st, ip as int),
            st_normal(st),
            ip <= opsv.len(),
            ctx@.len() == st.z.len(),
            forall|k: int| 0 <= k < st.z.len() ==> frame_matches(ctx@[k], #[trigger] st.z[k]),
            stack_matches(root_v, st_path(st), vstack@),
            state_rest(st) == total,
        ensures
            total.len() == 0,
        decreases state_work(st), opsv.len() - ip,
    {
        proof {
            lemma_stage_from_op(opsv, root, root_v, st, ip as int);
        }
        let op = &ops_vec[ip];
        let ghost stp = st;
        if is_check_op(op) {
            proof {
                st = lemma_step_scalar(opsv, root, root_v, stp, ip as int);
                lemma_stack_top(root_v, st_path(stp), vstack@);
            }
            let focus = vstack[vstack.len() - 1];
            proof {
                assert(json_view(*focus) == stp.cur.v);
            }
            if !eval_check(op, focus) {
                proof {
                    assert(total.len() > 0);
                }
                return false;
            }
            ip = ip + 1;
        } else {
            match op {
                Op::EnterObject => {
                    proof {
                        st = lemma_step_enter_object(opsv, root, root_v, stp, ip as int);
                    }
                    ctx.push(Frame::InObject { prop_open: false });
                    ip = ip + 1;
                },
                Op::CheckProperty { key, required } => {
                    let li = ctx.len() - 1;
                    let prop_open: bool = match ctx[li] {
                        Frame::InObject { prop_open } => prop_open,
                        _ => {
                            proof {
                                assert(false);
                            }
                            false
                        },
                    };
                    proof {
                        st = lemma_step_check_property(opsv, root, root_v, stp, ip as int);
                    }
                    if prop_open {
                        proof {
                            lemma_stack_pop(root_v, st_path(stp), vstack@);
                            assert(st_path(stp).drop_last() =~= stp.z.last().ctx.path);
                        }
                        vstack.pop();
                    }
                    proof {
                        lemma_stack_top(root_v, stp.z.last().ctx.path, vstack@);
                    }
                    let focus = vstack[vstack.len() - 1];
                    proof {
                        assert(json_view(*focus) == stp.z.last().ctx.v);
                    }
                    ctx.pop();
                    let mut descended: bool = false;
                    match focus {
                        JsonValue::Obj(members) => {
                            match find_member(members, key.as_str()) {
                                Option::Some(mi) => {
                                    proof {
                                        lemma_resolve_push(
                                            root_v,
                                            stp.z.last().ctx.path,
                                            SegView::Key(key@),
                                        );
                                        lemma_stack_push(
                                            root_v,
                                            stp.z.last().ctx.path,
                                            vstack@,
                                            SegView::Key(key@),
                                            &members[mi as int].value,
                                        );
                                    }
                                    vstack.push(&members[mi].value);
                                    descended = true;
                                },
                                Option::None => {},
                            }
                        },
                        _ => {},
                    }
                    if descended {
                        ctx.push(Frame::InObject { prop_open: true });
                        ip = ip + 1;
                    } else {
                        if *required {
                            proof {
                                assert(total.len() > 0);
                            }
                            return false;
                        }
                        ctx.push(Frame::InObject { prop_open: false });
                        ip = skip_scan(ops_vec, ip + 1);
                    }
                },
                Op::ExitObject => {
                    let li = ctx.len() - 1;
                    let prop_open: bool = match ctx[li] {
                        Frame::InObject { prop_open } => prop_open,
                        _ => {
                            proof {
                                assert(false);
                            }
                            false
                        },
                    };
                    proof {
                        st = lemma_step_exit_object(opsv, root, root_v, stp, ip as int);
                    }
                    if prop_open {
                        proof {
                            lemma_stack_pop(root_v, st_path(stp), vstack@);
                            assert(st_path(stp).drop_last() =~= stp.z.last().ctx.path);
                        }
                        vstack.pop();
                    }
                    ctx.pop();
                    ip = ip + 1;
                },
                Op::EnterArray => {
                    proof {
                        st = lemma_step_enter_array(opsv, root, root_v, stp, ip as int);
                    }
                    ctx.push(Frame::InArray { index: 0, check_pos: ip + 1, item_open: false });
                    ip = ip + 1;
                },
                Op::CheckArrayItems => {
                    let li = ctx.len() - 1;
                    let (index, check_pos) = match ctx[li] {
                        Frame::InArray { index, check_pos, item_open: _ } => (index, check_pos),
                        _ => {
                            proof {
                                assert(false);
                            }
                            (0usize, 0usize)
                        },
                    };
                    proof {
                        st = lemma_step_arr_check(opsv, root, root_v, stp, ip as int);
                        lemma_stack_top(root_v, st_path(stp), vstack@);
                    }
                    let focus = vstack[vstack.len() - 1];
                    proof {
                        assert(json_view(*focus) == stp.z.last().ctx.v);
                    }
                    let len: usize = arr_len(focus);
                    if index < len {
                        ctx.pop();
                        ctx.push(Frame::InArray { index, check_pos, item_open: true });
                        match focus {
                            JsonValue::Arr(items) => {
                                proof {
                                    lemma_json_view_seq(*items, 0);
                                    lemma_resolve_push(
                                        root_v,
                                        stp.z.last().ctx.path,
                                        SegView::Index(index as int),
                                    );
                                    lemma_stack_push(
                                        root_v,
                                        stp.z.last().ctx.path,
                                        vstack@,
                                        SegView::Index(index as int),
                                        &items[index as int],
                                    );
                                }
                                vstack.push(&items[index]);
                            },
                            _ => {
                                proof {
                                    assert(false);
                                }
                            },
                        }
                        ip = ip + 1;
                    } else {
                        ip = skip_scan(ops_vec, ip + 1);
                    }
                },
                Op::ExitArray => {
                    let li = ctx.len() - 1;
                    let (index, check_pos, item_open) = match ctx[li] {
                        Frame::InArray { index, check_pos, item_open } => (
                            index,
                            check_pos,
                            item_open,
                        ),
                        _ => {
                            proof {
                                assert(false);
                            }
                            (0usize, 0usize, false)
                        },
                    };
                    if item_open {
                        proof {
                            let f = stp.z.last();
                            assert(frame_matches(ctx@[li as int], stp.z[li as int]));
                            assert(stp.z[li as int] == stp.z.last());
                            assert(crate::walk::z_wf(opsv, root, root_v, stp.z));
                            assert(crate::walk::zf_wf(opsv, root_v, f));
                            assert(st_path(stp) == f.ctx.path.push(
                                SegView::Index(f.kind->Arr_index),
                            ));
                            lemma_stack_pop(root_v, st_path(stp), vstack@);
                            assert(st_path(stp).drop_last() =~= stp.z.last().ctx.path);
                        }
                        vstack.pop();
                        proof {
                            lemma_stack_top(root_v, stp.z.last().ctx.path, vstack@);
                        }
                        let focus = vstack[vstack.len() - 1];
                        proof {
                            assert(json_view(*focus) == stp.z.last().ctx.v);
                        }
                        let len: usize = arr_len(focus);
                        proof {
                            assert(index < len);
                        }
                        if index + 1 < len {
                            proof {
                                st = lemma_step_arr_exit_rewind(
                                    opsv,
                                    root,
                                    root_v,
                                    stp,
                                    ip as int,
                                );
                            }
                            ctx.pop();
                            ctx.push(Frame::InArray {
                                index: index + 1,
                                check_pos,
                                item_open: false,
                            });
                            ip = check_pos;
                        } else {
                            proof {
                                st = lemma_step_arr_exit_finish(
                                    opsv,
                                    root,
                                    root_v,
                                    stp,
                                    ip as int,
                                );
                            }
                            ctx.pop();
                            ip = ip + 1;
                        }
                    } else {
                        proof {
                            st = lemma_step_arr_exit_pop(opsv, root, root_v, stp, ip as int);
                        }
                        ctx.pop();
                        ip = ip + 1;
                    }
                },
                Op::Done => {
                    proof {
                        assert(st.stage is AtDone);
                        assert(state_rest(st) =~= Seq::<IssueView>::empty());
                    }
                    break;
                },
                Op::CheckType(_) | Op::CheckMinimum(_) | Op::CheckMaximum(_)
                    | Op::CheckExclusiveMinimum(_) | Op::CheckExclusiveMaximum(_)
                    | Op::CheckMinLength(_) | Op::CheckMaxLength(_)
                    | Op::CheckMinItems(_) | Op::CheckMaxItems(_) => {
                    proof {
                        assert(is_scalar_check(op@));
                        assert(false);
                    }
                },
            }
        }
    }
    true
}

} // verus!
