//! The library's own generic JSON-like value representation and its
//! mathematical model.
//!
//! Numbers are decimal fixed-point values `mantissa / 10^scale`; a value that
//! was written as an integer has `scale == 0`.  This representation covers
//! every `i64` and `u64` exactly and keeps all comparisons in integer
//! arithmetic.

use vstd::prelude::*;
use vstd::string::{StringExecFns, StrSliceExecFns};

verus! {

/// `10^e`.
pub open spec fn pow10(e: nat) -> int
    decreases e,
{
    if e == 0 {
        1
    } else {
        10 * pow10((e - 1) as nat)
    }
}

pub proof fn lemma_pow10_bounds(e: nat)
    requires
        e <= 18,
    ensures
        1 <= pow10(e) <= 1_000_000_000_000_000_000,
    decreases e,
{
    if e > 0 {
        lemma_pow10_bounds((e - 1) as nat);
        assert(pow10(18) == 1_000_000_000_000_000_000) by {
            reveal_with_fuel(pow10, 19);
        }
        assert(pow10(e) == 10 * pow10((e - 1) as nat));
        assert(pow10(e) <= pow10(18)) by {
            lemma_pow10_mono(e, 18);
        }
    }
}

pub proof fn lemma_pow10_mono(a: nat, b: nat)
    requires
        a <= b,
    ensures
        pow10(a) <= pow10(b),
        1 <= pow10(a),
    decreases b,
{
    if a == b {
        lemma_pow10_pos(a);
    } else {
        lemma_pow10_mono(a, (b - 1) as nat);
        lemma_pow10_pos((b - 1) as nat);
    }
}

pub proof fn lemma_pow10_pos(e: nat)
    ensures
        1 <= pow10(e),
    decreases e,
{
    if e > 0 {
        lemma_pow10_pos((e - 1) as nat);
    }
}

/// Largest mantissa magnitude a `Number` may carry: covers every `i64` and
/// every `u64`.
pub const MANTISSA_BOUND: i128 = 0x1_0000_0000_0000_0000;

/// Mathematical model of a JSON number: the mantissa and the decimal scale.
/// The represented value is `m / 10^s`; `s == 0` exactly when the number was
/// written as an integer.
pub struct NumView {
    pub m: int,
    pub s: nat,
}

/// The number's value scaled by `10^18`, an integer for every representable
/// number.  Two numbers compare as their scaled values do.
pub open spec fn num_val18(n: NumView) -> int {
    if n.s <= 18 {
        n.m * pow10((18 - n.s) as nat)
    } else {
        n.m
    }
}

/// A JSON number as decimal fixed point: `mantissa / 10^scale`.
#[derive(Debug, Clone, Copy)]
pub struct Number {
    mantissa: i128,
    scale: u32,
}

impl View for Number {
    type V = NumView;

    closed spec fn view(&self) -> NumView {
        NumView { m: self.mantissa as int, s: self.scale as nat }
    }
}

impl Number {
    /// Every `Number` keeps its mantissa within `MANTISSA_BOUND` and its
    /// scale at most 18, so that scaled comparisons fit in `i128`.
    #[verifier::type_invariant]
    pub closed spec fn wf(self) -> bool {
        &&& -MANTISSA_BOUND <= self.mantissa <= MANTISSA_BOUND
        &&& self.scale <= 18
    }

    /// The number `i`, written as an integer.
    pub fn from_i64(i: i64) -> (r: Number)
        ensures
            r@ == (NumView { m: i as int, s: 0 }),
    {
        Number { mantissa: i as i128, scale: 0 }
    }

    /// The number `u`, written as an integer.
    pub fn from_u64(u: u64) -> (r: Number)
        ensures
            r@ == (NumView { m: u as int, s: 0 }),
    {
        Number { mantissa: u as i128, scale: 0 }
    }

    /// The decimal number `m / 10^s`; with `s > 0` it counts as a
    /// non-integer however it happens to divide.
    pub fn from_decimal(m: i64, s: u32) -> (r: Number)
        requires
            s <= 18,
        ensures
            r@ == (NumView { m: m as int, s: s as nat }),
    {
        Number { mantissa: m as i128, scale: s }
    }

    /// Whether the number was written as an integer.
    pub fn is_integer(&self) -> (r: bool)
        ensures
            r == (self@.s == 0),
    {
        self.scale == 0
    }

    /// The value as an `i64`, for numbers written as integers in `i64`
    /// range.
    pub fn as_i64(&self) -> (r: Option<i64>)
        ensures
            r == (if self@.s == 0 && i64::MIN <= self@.m <= i64::MAX {
                Option::Some(self@.m as i64)
            } else {
                Option::<i64>::None
            }),
    {
        if self.scale == 0 && self.mantissa >= i64::MIN as i128 && self.mantissa <= i64::MAX as i128 {
            Option::Some(self.mantissa as i64)
        } else {
            Option::None
        }
    }

    /// The value as a `u64`, for numbers written as non-negative integers in
    /// `u64` range.
    pub fn as_u64(&self) -> (r: Option<u64>)
        ensures
            r == (if self@.s == 0 && 0 <= self@.m <= u64::MAX {
                Option::Some(self@.m as u64)
            } else {
                Option::<u64>::None
            }),
    {
        if self.scale == 0 && self.mantissa >= 0 && self.mantissa <= u64::MAX as i128 {
            Option::Some(self.mantissa as u64)
        } else {
            Option::None
        }
    }

    /// The raw mantissa and decimal scale.
    pub fn parts(&self) -> (r: (i128, u32))
        ensures
            r.0 == self@.m,
            r.1 == self@.s,
    {
        (self.mantissa, self.scale)
    }

    /// The mantissa scaled to 18 decimal places, the common basis on which
    /// two numbers compare.
    fn scaled18(&self) -> (r: i128)
        ensures
            r == num_val18(self@),
    {
        proof {
            use_type_invariant(self);
        }
        let e: u32 = 18 - self.scale;
        let p: i128 = pow10_exec(e);
        proof {
            lemma_pow10_bounds(e as nat);
            lemma_scaled_in_range(self.mantissa as int, pow10(e as nat));
        }
        self.mantissa * p
    }

    /// Whether `self <= other` as numbers.
    pub fn le(&self, other: &Number) -> (r: bool)
        ensures
            r == (num_val18(self@) <= num_val18(other@)),
    {
        self.scaled18() <= other.scaled18()
    }

    /// Whether `self < other` as numbers.
    pub fn lt(&self, other: &Number) -> (r: bool)
        ensures
            r == (num_val18(self@) < num_val18(other@)),
    {
        self.scaled18() < other.scaled18()
    }
}

proof fn lemma_scaled_in_range(m: int, p: int) by (nonlinear_arith)
    requires
        -MANTISSA_BOUND <= m <= MANTISSA_BOUND,
        1 <= p <= 1_000_000_000_000_000_000,
    ensures
        -(0x1_0000_0000_0000_0000i128 * 1_000_000_000_000_000_000) <= m * p
            <= 0x1_0000_0000_0000_0000i128 * 1_000_000_000_000_000_000,
{
}

/// `10^e` as an `i128`.
fn pow10_exec(e: u32) -> (r: i128)
    requires
        e <= 18,
    ensures
        r == pow10(e as nat),
{
    let mut r: i128 = 1;
    let mut i: u32 = 0;
    while i < e
        invariant
            i <= e <= 18,
            r == pow10(i as nat),
        decreases e - i,
    {
        proof {
            lemma_pow10_bounds(i as nat);
            lemma_pow10_bounds((i + 1) as nat);
        }
        r = r * 10;
        i = i + 1;
    }
    r
}

/// One property of a JSON object: a key and its value.
#[derive(Debug)]
pub struct Member {
    pub key: String,
    pub value: JsonValue,
}

/// The library's own generic JSON-like value.
#[derive(Debug)]
pub enum JsonValue {
    Null,
    Bool(bool),
    Num(Number),
    Str(String),
    /// An ordered list of elements.
    Arr(Vec<JsonValue>),
    /// An ordered list of properties; insertion order is kept.
    Obj(Vec<Member>),
}

/// Mathematical model of one object property.
pub struct MemberView {
    pub key: Seq<char>,
    pub value: JsonView,
}

/// Mathematical model of a JSON-like value.
pub enum JsonView {
    Null,
    Bool(bool),
    Num(NumView),
    Str(Seq<char>),
    Arr(Seq<JsonView>),
    Obj(Seq<MemberView>),
}

/// The model of a value: same shape, with sequences for strings, arrays and
/// objects.
pub open spec fn json_view(v: JsonValue) -> JsonView
    decreases v,
{
    match v {
        JsonValue::Null => JsonView::Null,
        JsonValue::Bool(b) => JsonView::Bool(b),
        JsonValue::Num(n) => JsonView::Num(n@),
        JsonValue::Str(s) => JsonView::Str(s@),
        JsonValue::Arr(items) => JsonView::Arr(json_view_seq(items, 0)),
        JsonValue::Obj(members) => JsonView::Obj(member_view_seq(members, 0)),
    }
}

/// Models of the elements `items[i..]`.
pub open spec fn json_view_seq(items: Vec<JsonValue>, i: int) -> Seq<JsonView>
    decreases items, items@.len() - i,
{
    if i < 0 || i >= items@.len() {
        Seq::empty()
    } else {
        seq![json_view(items@[i])] + json_view_seq(items, i + 1)
    }
}

/// Models of the properties `members[i..]`.
pub open spec fn member_view_seq(members: Vec<Member>, i: int) -> Seq<MemberView>
    decreases members, members@.len() - i,
{
    if i < 0 || i >= members@.len() {
        Seq::empty()
    } else {
        seq![MemberView { key: members@[i].key@, value: json_view(members@[i].value) }]
            + member_view_seq(members, i + 1)
    }
}

impl View for JsonValue {
    type V = JsonView;

    open spec fn view(&self) -> JsonView {
        json_view(*self)
    }
}

pub proof fn lemma_json_view_seq(items: Vec<JsonValue>, i: int)
    requires
        0 <= i <= items@.len(),
    ensures
        json_view_seq(items, i) =~= Seq::new(
            (items@.len() - i) as nat,
            |k: int| json_view(items@[i + k]),
        ),
    decreases items@.len() - i,
{
    if i < items@.len() {
        lemma_json_view_seq(items, i + 1);
    }
}

pub proof fn lemma_member_view_seq(members: Vec<Member>, i: int)
    requires
        0 <= i <= members@.len(),
    ensures
        member_view_seq(members, i) =~= Seq::new(
            (members@.len() - i) as nat,
            |k: int| MemberView {
                key: members@[i + k].key@,
                value: json_view(members@[i + k].value),
            },
        ),
    decreases members@.len() - i,
{
    if i < members@.len() {
        lemma_member_view_seq(members, i + 1);
    }
}

/// The value of `key` among `members`, by first occurrence.
pub open spec fn obj_lookup(members: Seq<MemberView>, key: Seq<char>) -> Option<JsonView>
    decreases members.len(),
{
    if members.len() == 0 {
        Option::None
    } else if members[0].key == key {
        Option::Some(members[0].value)
    } else {
        obj_lookup(members.drop_first(), key)
    }
}

/// Whether an object with the given properties has `key`.
pub open spec fn obj_has_key(members: Seq<MemberView>, key: Seq<char>) -> bool {
    obj_lookup(members, key) is Some
}

/// String equality by contents.
pub fn str_eq(a: &str, b: &str) -> (r: bool)
    ensures
        r == (a@ == b@),
{
    let sa: String = a.to_owned();
    let sb: String = b.to_owned();
    sa == sb
}

/// `obj_lookup` looks past any prefix free of the key.
pub proof fn lemma_obj_lookup_skip(members: Seq<MemberView>, key: Seq<char>, i: int)
    requires
        0 <= i <= members.len(),
        forall|j: int| 0 <= j < i ==> members[j].key != key,
    ensures
        obj_lookup(members, key) == obj_lookup(members.skip(i), key),
    decreases i,
{
    if i > 0 {
        lemma_obj_lookup_skip(members.drop_first(), key, i - 1);
        assert(members.drop_first().skip(i - 1) =~= members.skip(i));
    } else {
        assert(members.skip(0) =~= members);
    }
}

/// Finds the first member with the given key, if any.
pub fn find_member(members: &Vec<Member>, key: &str) -> (r: Option<usize>)
    ensures
        match r {
            Option::Some(i) => {
                &&& 0 <= i < members@.len()
                &&& members@[i as int].key@ == key@
                &&& obj_lookup(member_view_seq(*members, 0), key@)
                    == Option::Some(json_view(members@[i as int].value))
            },
            Option::None => obj_lookup(member_view_seq(*members, 0), key@) is None,
        },
{
    proof {
        lemma_member_view_seq(*members, 0);
    }
    let ghost mv = member_view_seq(*members, 0);
    let mut i: usize = 0;
    while i < members.len()
        invariant
            0 <= i <= members@.len(),
            mv == member_view_seq(*members, 0),
            mv =~= Seq::new(
                members@.len() as nat,
                |k: int| MemberView { key: members@[k].key@, value: json_view(members@[k].value) },
            ),
            forall|j: int| 0 <= j < i ==> mv[j].key != key@,
        decreases members@.len() - i,
    {
        if str_eq(members[i].key.as_str(), key) {
            proof {
                lemma_obj_lookup_skip(mv, key@, i as int);
                assert(mv.skip(i as int)[0] == mv[i as int]);
                assert(mv.skip(i as int).drop_first() =~= mv.skip(i as int + 1));
            }
            return Option::Some(i);
        }
        i = i + 1;
    }
    proof {
        lemma_obj_lookup_skip(mv, key@, members@.len() as int);
        assert(mv.skip(members@.len() as int) =~= Seq::empty());
    }
    Option::None
}

/// A deep copy: the model is kept exactly.
pub fn deep_clone_value(v: &JsonValue) -> (r: JsonValue)
    ensures
        json_view(r) == json_view(*v),
    decreases json_view(*v),
{
    match v {
        JsonValue::Null => JsonValue::Null,
        JsonValue::Bool(b) => JsonValue::Bool(*b),
        JsonValue::Num(n) => JsonValue::Num(*n),
        JsonValue::Str(s) => JsonValue::Str(s.clone()),
        JsonValue::Arr(items) => {
            let mut out: Vec<JsonValue> = Vec::new();
            let mut i: usize = 0;
            while i < items.len()
                invariant
                    *v == JsonValue::Arr(*items),
                    0 <= i <= items@.len(),
                    out@.len() == i,
                    forall|k: int| 0 <= k < i ==> json_view(#[trigger] out@[k])
                        == json_view(items@[k]),
                decreases items@.len() - i,
            {
                proof {
                    lemma_json_view_seq(*items, 0);
                    let jv = json_view(*v);
                    let s = json_view_seq(*items, 0);
                    assert(jv == JsonView::Arr(s));
                    assert(decreases_to!(jv => jv->Arr_0));
                    assert(decreases_to!(s => s[i as int]));
                    assert(s[i as int] == json_view(items@[i as int]));
                }
                out.push(deep_clone_value(&items[i]));
                i = i + 1;
            }
            proof {
                lemma_json_view_seq(*items, 0);
                lemma_json_view_seq(out, 0);
                assert(json_view_seq(out, 0) =~= json_view_seq(*items, 0));
            }
            JsonValue::Arr(out)
        },
        JsonValue::Obj(members) => {
            let mut out: Vec<Member> = Vec::new();
            let mut i: usize = 0;
            while i < members.len()
                invariant
                    *v == JsonValue::Obj(*members),
                    0 <= i <= members@.len(),
                    out@.len() == i,
                    forall|k: int| 0 <= k < i ==> (#[trigger] out@[k]).key@ == members@[k].key@
                        && json_view(out@[k].value) == json_view(members@[k].value),
                decreases members@.len() - i,
            {
                proof {
                    lemma_member_view_seq(*members, 0);
                    let jv = json_view(*v);
                    let s = member_view_seq(*members, 0);
                    assert(jv == JsonView::Obj(s));
                    assert(decreases_to!(jv => jv->Obj_0));
                    assert(decreases_to!(s => s[i as int]));
                    let mv = s[i as int];
                    assert(decreases_to!(mv => mv.value));
                    assert(mv.value == json_view(members@[i as int].value));
                }
                out.push(Member {
                    key: members[i].key.clone(),
                    value: deep_clone_value(&members[i].value),
                });
                i = i + 1;
            }
            proof {
                lemma_member_view_seq(*members, 0);
                lemma_member_view_seq(out, 0);
                assert(member_view_seq(out, 0) =~= member_view_seq(*members, 0));
            }
            JsonValue::Obj(out)
        },
    }
}

/// The elements of an array value; empty for any other kind.
pub open spec fn arr_elems(v: JsonView) -> Seq<JsonView> {
    match v {
        JsonView::Arr(elems) => elems,
        _ => Seq::empty(),
    }
}

/// The decimal digit character for `d`.
pub open spec fn digit_char(d: int) -> char {
    if d == 0 {
        '0'
    } else if d == 1 {
        '1'
    } else if d == 2 {
        '2'
    } else if d == 3 {
        '3'
    } else if d == 4 {
        '4'
    } else if d == 5 {
        '5'
    } else if d == 6 {
        '6'
    } else if d == 7 {
        '7'
    } else if d == 8 {
        '8'
    } else {
        '9'
    }
}

/// The decimal rendering of a non-negative integer, most significant digit
/// first.
pub open spec fn dec_str(n: nat) -> Seq<char>
    decreases n,
        via dec_str_dec
{
    if n < 10 {
        seq![digit_char(n as int)]
    } else {
        dec_str((n / 10) as nat).push(digit_char((n % 10) as int))
    }
}

#[via_fn]
proof fn dec_str_dec(n: nat) {
    if n >= 10 {
        assert(n / 10 < n) by (nonlinear_arith)
            requires
                n >= 10,
        ;
    }
}

/// The one-character string for a decimal digit.
fn digit_str(d: u64) -> (r: &'static str)
    requires
        d < 10,
    ensures
        r@ == seq![digit_char(d as int)],
{
    proof {
        reveal_strlit("0");
        reveal_strlit("1");
        reveal_strlit("2");
        reveal_strlit("3");
        reveal_strlit("4");
        reveal_strlit("5");
        reveal_strlit("6");
        reveal_strlit("7");
        reveal_strlit("8");
        reveal_strlit("9");
    }
    let r: &'static str = match d {
        0 => "0",
        1 => "1",
        2 => "2",
        3 => "3",
        4 => "4",
        5 => "5",
        6 => "6",
        7 => "7",
        8 => "8",
        _ => "9",
    };
    proof {
        assert(r@ =~= seq![digit_char(d as int)]);
    }
    r
}

/// Appends the decimal rendering of `n`.
fn push_u64_dec(s: &mut String, n: u64)
    ensures
        final(s)@ == old(s)@ + dec_str(n as nat),
    decreases n,
{
    if n < 10 {
        s.append(digit_str(n));
    } else {
        proof {
            assert(n / 10 < n) by (nonlinear_arith)
                requires
                    n >= 10,
            ;
        }
        push_u64_dec(s, n / 10);
        s.append(digit_str(n % 10));
        proof {
            assert(old(s)@ + dec_str((n / 10) as nat) + seq![digit_char((n % 10) as int)]
                =~= old(s)@ + dec_str(n as nat));
        }
    }
}

/// The decimal rendering of `n` as a fresh string.
pub fn u64_string(n: u64) -> (r: String)
    ensures
        r@ == dec_str(n as nat),
{
    let mut s = String::new();
    push_u64_dec(&mut s, n);
    proof {
        assert(Seq::<char>::empty() + dec_str(n as nat) =~= dec_str(n as nat));
    }
    s
}

/// Whether two characters are equal up to ASCII case: either the same, or
/// an ASCII capital against its small form.
pub open spec fn char_eq_ci(a: char, b: char) -> bool {
    a == b || (65 <= a as int <= 90 && a as int + 32 == b as int)
}

/// Whether `s` is `t` up to ASCII case, `t` being the lower-case form.
pub open spec fn str_eq_ci(s: Seq<char>, t: Seq<char>) -> bool {
    s.len() == t.len() && forall|i: int| 0 <= i < s.len() ==> char_eq_ci(
        #[trigger] s[i],
        t[i],
    )
}

/// Compares a string against a lower-case name, ignoring ASCII case.
pub fn eq_ignore_ascii_case(s: &str, t: &str) -> (r: bool)
    ensures
        r == str_eq_ci(s@, t@),
{
    let n = s.unicode_len();
    if n != t.unicode_len() {
        return false;
    }
    let mut i: usize = 0;
    while i < n
        invariant
            0 <= i <= n,
            n == s@.len(),
            n == t@.len(),
            forall|k: int| 0 <= k < i ==> char_eq_ci(#[trigger] s@[k], t@[k]),
        decreases n - i,
    {
        let a = s.get_char(i);
        let b = t.get_char(i);
        let ca = a as u32;
        let cb = b as u32;
        if !(a == b || (65 <= ca && ca <= 90 && ca + 32 == cb)) {
            return false;
        }
        i = i + 1;
    }
    true
}

/// Structural size of a value model, the termination measure for recursion
/// over values reached through `obj_lookup`.
pub open spec fn json_size(v: JsonView) -> nat
    decreases v,
{
    match v {
        JsonView::Arr(items) => 1 + json_size_seq(items),
        JsonView::Obj(members) => 1 + member_size_seq(members),
        _ => 1,
    }
}

pub open spec fn json_size_seq(items: Seq<JsonView>) -> nat
    decreases items,
{
    if items.len() == 0 {
        0
    } else {
        json_size(items[0]) + json_size_seq(items.drop_first())
    }
}

pub open spec fn member_size_seq(members: Seq<MemberView>) -> nat
    decreases members,
{
    if members.len() == 0 {
        0
    } else {
        1 + json_size(members[0].value) + member_size_seq(members.drop_first())
    }
}

pub proof fn lemma_json_size_seq_elem(items: Seq<JsonView>, i: int)
    requires
        0 <= i < items.len(),
    ensures
        json_size(items[i]) <= json_size_seq(items),
    decreases items.len(),
{
    if i > 0 {
        lemma_json_size_seq_elem(items.drop_first(), i - 1);
    }
}

pub proof fn lemma_member_size_seq_elem(members: Seq<MemberView>, i: int)
    requires
        0 <= i < members.len(),
    ensures
        json_size(members[i].value) < 1 + member_size_seq(members),
    decreases members.len(),
{
    if i > 0 {
        lemma_member_size_seq_elem(members.drop_first(), i - 1);
    }
}

/// A value found by `obj_lookup` is structurally smaller than the object it
/// came from.
pub proof fn lemma_obj_lookup_size(members: Seq<MemberView>, key: Seq<char>)
    requires
        obj_lookup(members, key) is Some,
    ensures
        json_size(obj_lookup(members, key)->Some_0) < json_size(JsonView::Obj(members)),
    decreases members.len(),
{
    if members.len() > 0 && members[0].key != key {
        lemma_obj_lookup_size(members.drop_first(), key);
    }
}

} // verus!
