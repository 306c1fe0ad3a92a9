//! The predicate tree: literal values, the `Query` expression tree and the
//! builder operations that construct it.

pub mod parse;
pub mod render;

use vstd::prelude::*;

verus! {

/// A literal operand of a comparison.
///
/// A floating-point operand is carried as its decimal source text (a run of
/// digits with exactly one decimal point, see [`valid_float_text`]); the
/// compilers hand that text to the backend, which parses it into its own
/// 64-bit floating-point representation.
#[derive(Debug, PartialEq)]
pub enum Value {
    Number(i64),
    Float(String),
    Text(String),
    Bool(bool),
    Array(Vec<Value>),
    Absent,
}

/// The boolean filter predicate tree.
///
/// Leaves compare a (dotted, non-empty) field name with a [`Value`]; `And`
/// and `Or` combine two sub-predicates; `Empty` is the neutral predicate
/// that matches everything.
#[derive(Debug, PartialEq)]
pub enum Query {
    Or { left: Box<Query>, right: Box<Query> },
    And { left: Box<Query>, right: Box<Query> },
    Eq { field: String, value: Value },
    Neq { field: String, value: Value },
    Gt { field: String, value: Value },
    GtE { field: String, value: Value },
    Lt { field: String, value: Value },
    LtE { field: String, value: Value },
    Rx { field: String, value: Value },
    In { field: String, value: Value },
    Contains { field: String, value: Value },
    Empty,
}

/// The mathematical model of a [`Value`]: text as character sequences.
#[verifier::ext_equal]
pub enum ValueV {
    Number(i64),
    Float(Seq<char>),
    Text(Seq<char>),
    Bool(bool),
    Array(Seq<ValueV>),
    Absent,
}

/// The mathematical model of a [`Query`].
#[verifier::ext_equal]
pub enum QueryV {
    Or { left: Box<QueryV>, right: Box<QueryV> },
    And { left: Box<QueryV>, right: Box<QueryV> },
    Eq { field: Seq<char>, value: ValueV },
    Neq { field: Seq<char>, value: ValueV },
    Gt { field: Seq<char>, value: ValueV },
    GtE { field: Seq<char>, value: ValueV },
    Lt { field: Seq<char>, value: ValueV },
    LtE { field: Seq<char>, value: ValueV },
    Rx { field: Seq<char>, value: ValueV },
    In { field: Seq<char>, value: ValueV },
    Contains { field: Seq<char>, value: ValueV },
    Empty,
}

/// The model of a [`Value`].
pub open spec fn value_view(v: Value) -> ValueV
    decreases v,
{
    match v {
        Value::Number(n) => ValueV::Number(n),
        Value::Float(t) => ValueV::Float(t@),
        Value::Text(s) => ValueV::Text(s@),
        Value::Bool(b) => ValueV::Bool(b),
        Value::Array(items) => ValueV::Array(
            Seq::new(
                items@.len(),
                |i: int|
                    if 0 <= i < items@.len() {
                        value_view(items@[i])
                    } else {
                        ValueV::Absent
                    },
            ),
        ),
        Value::Absent => ValueV::Absent,
    }
}

/// The models of a sequence of values, element by element.
pub open spec fn value_views(s: Seq<Value>) -> Seq<ValueV> {
    Seq::new(s.len(), |i: int| value_view(s[i]))
}

impl View for Value {
    type V = ValueV;

    open spec fn view(&self) -> ValueV {
        value_view(*self)
    }
}

/// The model of a [`Query`].
pub open spec fn query_view(q: Query) -> QueryV
    decreases q,
{
    match q {
        Query::Or { left, right } => QueryV::Or {
            left: Box::new(query_view(*left)),
            right: Box::new(query_view(*right)),
        },
        Query::And { left, right } => QueryV::And {
            left: Box::new(query_view(*left)),
            right: Box::new(query_view(*right)),
        },
        Query::Eq { field, value } => QueryV::Eq { field: field@, value: value_view(value) },
        Query::Neq { field, value } => QueryV::Neq { field: field@, value: value_view(value) },
        Query::Gt { field, value } => QueryV::Gt { field: field@, value: value_view(value) },
        Query::GtE { field, value } => QueryV::GtE { field: field@, value: value_view(value) },
        Query::Lt { field, value } => QueryV::Lt { field: field@, value: value_view(value) },
        Query::LtE { field, value } => QueryV::LtE { field: field@, value: value_view(value) },
        Query::Rx { field, value } => QueryV::Rx { field: field@, value: value_view(value) },
        Query::In { field, value } => QueryV::In { field: field@, value: value_view(value) },
        Query::Contains { field, value } => QueryV::Contains {
            field: field@,
            value: value_view(value),
        },
        Query::Empty => QueryV::Empty,
    }
}

impl View for Query {
    type V = QueryV;

    open spec fn view(&self) -> QueryV {
        query_view(*self)
    }
}

pub open spec fn is_digit(c: char) -> bool {
    '0' <= c && c <= '9'
}

/// The decimal digit character for `d` (0 to 9).
pub open spec fn digit_char(d: nat) -> char {
    if d == 0 {
        '0'
    } else if d == 1 {
        '1'
    } else if d == 2 {
        '2'
    } else if d == 3 {
        '3'
    } else if d == 4 {
        '4'
    } else if d == 5 {
        '5'
    } else if d == 6 {
        '6'
    } else if d == 7 {
        '7'
    } else if d == 8 {
        '8'
    } else {
        '9'
    }
}

/// The decimal rendering of `n`, most significant digit first.
pub open spec fn dec_str(n: nat) -> Seq<char>
    decreases n,
{
    if n < 10 {
        seq![digit_char(n)]
    } else {
        dec_str(n / 10).push(digit_char(n % 10))
    }
}

/// How many decimal points a character run holds.
pub open spec fn dot_count(s: Seq<char>) -> nat
    decreases s.len(),
{
    if s.len() == 0 {
        0
    } else {
        dot_count(s.drop_last()) + (if s.last() == '.' {
            1nat
        } else {
            0nat
        })
    }
}

/// The decimal source text of a floating-point literal: digits with exactly
/// one decimal point, starting with a digit.
pub open spec fn valid_float_text(s: Seq<char>) -> bool {
    &&& s.len() > 0
    &&& is_digit(s[0])
    &&& forall|i: int| 0 <= i < s.len() ==> is_digit(#[trigger] s[i]) || s[i] == '.'
    &&& dot_count(s) == 1
}

/// Every `Float` inside the value carries well-formed decimal text.
pub open spec fn value_floats_valid(v: ValueV) -> bool
    decreases v,
{
    match v {
        ValueV::Float(t) => valid_float_text(t),
        ValueV::Array(items) => forall|i: int|
            0 <= i < items.len() ==> value_floats_valid(#[trigger] items[i]),
        _ => true,
    }
}

/// Every `Float` inside the tree carries well-formed decimal text.
pub open spec fn query_floats_valid(q: QueryV) -> bool
    decreases q,
{
    match q {
        QueryV::And { left, right } => query_floats_valid(*left) && query_floats_valid(*right),
        QueryV::Or { left, right } => query_floats_valid(*left) && query_floats_valid(*right),
        QueryV::Eq { value, .. } => value_floats_valid(value),
        QueryV::Neq { value, .. } => value_floats_valid(value),
        QueryV::Gt { value, .. } => value_floats_valid(value),
        QueryV::GtE { value, .. } => value_floats_valid(value),
        QueryV::Lt { value, .. } => value_floats_valid(value),
        QueryV::LtE { value, .. } => value_floats_valid(value),
        QueryV::Rx { value, .. } => value_floats_valid(value),
        QueryV::In { value, .. } => value_floats_valid(value),
        QueryV::Contains { value, .. } => value_floats_valid(value),
        QueryV::Empty => true,
    }
}

/// The field name of a comparison leaf.
pub open spec fn leaf_field(q: QueryV) -> Seq<char> {
    match q {
        QueryV::Eq { field, .. } => field,
        QueryV::Neq { field, .. } => field,
        QueryV::Gt { field, .. } => field,
        QueryV::GtE { field, .. } => field,
        QueryV::Lt { field, .. } => field,
        QueryV::LtE { field, .. } => field,
        QueryV::Rx { field, .. } => field,
        QueryV::In { field, .. } => field,
        QueryV::Contains { field, .. } => field,
        _ => Seq::empty(),
    }
}

/// The value operand of a comparison leaf.
pub open spec fn leaf_value(q: QueryV) -> ValueV {
    match q {
        QueryV::Eq { value, .. } => value,
        QueryV::Neq { value, .. } => value,
        QueryV::Gt { value, .. } => value,
        QueryV::GtE { value, .. } => value,
        QueryV::Lt { value, .. } => value,
        QueryV::LtE { value, .. } => value,
        QueryV::Rx { value, .. } => value,
        QueryV::In { value, .. } => value,
        QueryV::Contains { value, .. } => value,
        _ => ValueV::Absent,
    }
}

impl Value {
    /// The integer carried by a `Number`, if the value is one.
    pub fn get_number(&self) -> (r: Option<i64>)
        ensures
            r == (match self@ {
                ValueV::Number(n) => Some(n),
                _ => None::<i64>,
            }),
    {
        match self {
            Value::Number(n) => Some(*n),
            _ => None,
        }
    }

    /// The text carried by a `Text`, if the value is one.
    pub fn get_string(&self) -> (r: Option<String>)
        ensures
            match self@ {
                ValueV::Text(s) => r matches Some(t) && t@ == s,
                _ => r is None,
            },
    {
        match self {
            Value::Text(s) => Some(clone_string(s)),
            _ => None,
        }
    }

    /// The decimal source text carried by a `Float`, if the value is one.
    pub fn get_float(&self) -> (r: Option<String>)
        ensures
            match self@ {
                ValueV::Float(t) => r matches Some(u) && u@ == t,
                _ => r is None,
            },
    {
        match self {
            Value::Float(t) => Some(clone_string(t)),
            _ => None,
        }
    }
}

/// Clones a string; vstd gives `String::clone` an exact contract.
pub fn clone_string(s: &String) -> (r: String)
    ensures
        r == *s,
{
    s.clone()
}

impl From<i64> for Value {
    fn from(v: i64) -> (r: Value) {
        Value::Number(v)
    }
}

impl vstd::std_specs::convert::FromSpecImpl<i64> for Value {
    open spec fn obeys_from_spec() -> bool {
        true
    }

    open spec fn from_spec(v: i64) -> Value {
        Value::Number(v)
    }
}

impl From<i32> for Value {
    fn from(v: i32) -> (r: Value) {
        Value::Number(v as i64)
    }
}

impl vstd::std_specs::convert::FromSpecImpl<i32> for Value {
    open spec fn obeys_from_spec() -> bool {
        true
    }

    open spec fn from_spec(v: i32) -> Value {
        Value::Number(v as i64)
    }
}

impl From<isize> for Value {
    fn from(v: isize) -> (r: Value) {
        Value::Number(v as i64)
    }
}

impl vstd::std_specs::convert::FromSpecImpl<isize> for Value {
    open spec fn obeys_from_spec() -> bool {
        true
    }

    open spec fn from_spec(v: isize) -> Value {
        Value::Number(v as i64)
    }
}

impl From<usize> for Value {
    fn from(v: usize) -> (r: Value) {
        Value::Number(#[verifier::truncate] (v as i64))
    }
}

impl vstd::std_specs::convert::FromSpecImpl<usize> for Value {
    open spec fn obeys_from_spec() -> bool {
        true
    }

    open spec fn from_spec(v: usize) -> Value {
        Value::Number(v as i64)
    }
}

impl From<bool> for Value {
    fn from(v: bool) -> (r: Value) {
        Value::Bool(v)
    }
}

impl vstd::std_specs::convert::FromSpecImpl<bool> for Value {
    open spec fn obeys_from_spec() -> bool {
        true
    }

    open spec fn from_spec(v: bool) -> Value {
        Value::Bool(v)
    }
}

impl From<String> for Value {
    fn from(v: String) -> (r: Value) {
        Value::Text(v)
    }
}

impl vstd::std_specs::convert::FromSpecImpl<String> for Value {
    open spec fn obeys_from_spec() -> bool {
        true
    }

    open spec fn from_spec(v: String) -> Value {
        Value::Text(v)
    }
}

impl<'a> From<&'a str> for Value {
    fn from(v: &'a str) -> (r: Value)
        ensures
            r@ == ValueV::Text(v@),
    {
        Value::Text(v.to_owned())
    }
}

impl<'a> vstd::std_specs::convert::FromSpecImpl<&'a str> for Value {
    open spec fn obeys_from_spec() -> bool {
        false
    }

    open spec fn from_spec(v: &'a str) -> Value {
        Value::Absent
    }
}

impl From<Vec<i64>> for Value {
    fn from(v: Vec<i64>) -> (r: Value)
        ensures
            r@ == ValueV::Array(Seq::new(v@.len(), |i: int| ValueV::Number(v@[i]))),
    {
        let mut items: Vec<Value> = Vec::new();
        let mut i: usize = 0;
        while i < v.len()
            invariant
                i <= v.len(),
                items@.len() == i,
                forall|j: int| 0 <= j < i ==> #[trigger] items@[j] == Value::Number(v@[j]),
            decreases v.len() - i,
        {
            items.push(Value::Number(v[i]));
            i += 1;
        }
        let r = Value::Array(items);
        proof {
            assert forall|k: int| 0 <= k < items@.len() implies value_view(
                #[trigger] items@[k],
            ) == ValueV::Number(v@[k]) by {
                assert(items@[k] == Value::Number(v@[k]));
            }
            assert(r@->Array_0 =~= Seq::new(v@.len(), |i: int| ValueV::Number(v@[i])));
        }
        r
    }
}

impl vstd::std_specs::convert::FromSpecImpl<Vec<i64>> for Value {
    open spec fn obeys_from_spec() -> bool {
        false
    }

    open spec fn from_spec(v: Vec<i64>) -> Value {
        Value::Absent
    }
}

impl From<Vec<String>> for Value {
    fn from(v: Vec<String>) -> (r: Value)
        ensures
            r@ == ValueV::Array(Seq::new(v@.len(), |i: int| ValueV::Text(v@[i]@))),
    {
        let mut items: Vec<Value> = Vec::new();
        let mut i: usize = 0;
        while i < v.len()
            invariant
                i <= v.len(),
                items@.len() == i,
                forall|j: int| 0 <= j < i ==> #[trigger] items@[j]@ == ValueV::Text(v@[j]@),
            decreases v.len() - i,
        {
            items.push(Value::Text(clone_string(&v[i])));
            i += 1;
        }
        let r = Value::Array(items);
        proof {
            assert forall|k: int| 0 <= k < items@.len() implies value_view(
                #[trigger] items@[k],
            ) == ValueV::Text(v@[k]@) by {
                assert(items@[k]@ == ValueV::Text(v@[k]@));
            }
            assert(r@->Array_0 =~= Seq::new(v@.len(), |i: int| ValueV::Text(v@[i]@)));
        }
        r
    }
}

impl vstd::std_specs::convert::FromSpecImpl<Vec<String>> for Value {
    open spec fn obeys_from_spec() -> bool {
        false
    }

    open spec fn from_spec(v: Vec<String>) -> Value {
        Value::Absent
    }
}

impl<'a> From<Vec<&'a str>> for Value {
    fn from(v: Vec<&'a str>) -> (r: Value)
        ensures
            r@ == ValueV::Array(Seq::new(v@.len(), |i: int| ValueV::Text(v@[i]@))),
    {
        let mut items: Vec<Value> = Vec::new();
        let mut i: usize = 0;
        while i < v.len()
            invariant
                i <= v.len(),
                items@.len() == i,
                forall|j: int| 0 <= j < i ==> #[trigger] items@[j]@ == ValueV::Text(v@[j]@),
            decreases v.len() - i,
        {
            items.push(Value::Text(v[i].to_owned()));
            i += 1;
        }
        let r = Value::Array(items);
        proof {
            assert forall|k: int| 0 <= k < items@.len() implies value_view(
                #[trigger] items@[k],
            ) == ValueV::Text(v@[k]@) by {
                assert(items@[k]@ == ValueV::Text(v@[k]@));
            }
            assert(r@->Array_0 =~= Seq::new(v@.len(), |i: int| ValueV::Text(v@[i]@)));
        }
        r
    }
}

impl<'a> vstd::std_specs::convert::FromSpecImpl<Vec<&'a str>> for Value {
    open spec fn obeys_from_spec() -> bool {
        false
    }

    open spec fn from_spec(v: Vec<&'a str>) -> Value {
        Value::Absent
    }
}

impl Clone for Value {
    /// The copy has the same model as the original.
    fn clone(&self) -> (r: Self)
        ensures
            r@ == self@,
        decreases *self,
    {
        match self {
            Value::Number(n) => Value::Number(*n),
            Value::Float(t) => Value::Float(clone_string(t)),
            Value::Text(s) => Value::Text(clone_string(s)),
            Value::Bool(b) => Value::Bool(*b),
            Value::Array(items) => {
                let mut out: Vec<Value> = Vec::new();
                let mut i: usize = 0;
                while i < items.len()
                    invariant
                        *self == Value::Array(*items),
                        i <= items.len(),
                        out@.len() == i,
                        forall|j: int|
                            0 <= j < i ==> value_view(#[trigger] out@[j]) == value_view(
                                items@[j],
                            ),
                    decreases items.len() - i,
                {
                    proof {
                        broadcast use vstd::std_specs::vec::axiom_vec_index_decreases;

                        assert(decreases_to!(*self => self->Array_0));
                        assert(self->Array_0 == *items);
                        assert(decreases_to!(*items => items@[i as int]));
                    }
                    out.push(items[i].clone());
                    i += 1;
                }
                let r = Value::Array(out);
                proof {
                    assert(value_view(r)->Array_0 =~= value_view(*self)->Array_0);
                }
                r
            },
            Value::Absent => Value::Absent,
        }
    }
}

impl Clone for Query {
    /// The copy has the same model as the original.
    fn clone(&self) -> (r: Self)
        ensures
            r@ == self@,
        decreases *self,
    {
        match self {
            Query::Or { left, right } => Query::Or {
                left: Box::new((**left).clone()),
                right: Box::new((**right).clone()),
            },
            Query::And { left, right } => Query::And {
                left: Box::new((**left).clone()),
                right: Box::new((**right).clone()),
            },
            Query::Eq { field, value } => Query::Eq {
                field: clone_string(field),
                value: value.clone(),
            },
            Query::Neq { field, value } => Query::Neq {
                field: clone_string(field),
                value: value.clone(),
            },
            Query::Gt { field, value } => Query::Gt {
                field: clone_string(field),
                value: value.clone(),
            },
            Query::GtE { field, value } => Query::GtE {
                field: clone_string(field),
                value: value.clone(),
            },
            Query::Lt { field, value } => Query::Lt {
                field: clone_string(field),
                value: value.clone(),
            },
            Query::LtE { field, value } => Query::LtE {
                field: clone_string(field),
                value: value.clone(),
            },
            Query::Rx { field, value } => Query::Rx {
                field: clone_string(field),
                value: value.clone(),
            },
            Query::In { field, value } => Query::In {
                field: clone_string(field),
                value: value.clone(),
            },
            Query::Contains { field, value } => Query::Contains {
                field: clone_string(field),
                value: value.clone(),
            },
            Query::Empty => Query::Empty,
        }
    }
}

impl Query {
    /// Builds an equality leaf.
    pub fn eq(field: String, value: Value) -> (q: Query)
        requires
            field@.len() > 0,
        ensures
            q == (Query::Eq { field, value }),
    {
        Query::Eq { field, value }
    }

    /// Builds an inequality leaf.
    pub fn neq(field: String, value: Value) -> (q: Query)
        requires
            field@.len() > 0,
        ensures
            q == (Query::Neq { field, value }),
    {
        Query::Neq { field, value }
    }

    /// Builds a strictly-greater leaf.
    pub fn gt(field: String, value: Value) -> (q: Query)
        requires
            field@.len() > 0,
        ensures
            q == (Query::Gt { field, value }),
    {
        Query::Gt { field, value }
    }

    /// Builds a greater-or-equal leaf.
    pub fn gte(field: String, value: Value) -> (q: Query)
        requires
            field@.len() > 0,
        ensures
            q == (Query::GtE { field, value }),
    {
        Query::GtE { field, value }
    }

    /// Builds a strictly-less leaf.
    pub fn lt(field: String, value: Value) -> (q: Query)
        requires
            field@.len() > 0,
        ensures
            q == (Query::Lt { field, value }),
    {
        Query::Lt { field, value }
    }

    /// Builds a less-or-equal leaf.
    pub fn lte(field: String, value: Value) -> (q: Query)
        requires
            field@.len() > 0,
        ensures
            q == (Query::LtE { field, value }),
    {
        Query::LtE { field, value }
    }

    /// Builds a pattern-match leaf.
    pub fn matches(field: String, value: Value) -> (q: Query)
        requires
            field@.len() > 0,
        ensures
            q == (Query::Rx { field, value }),
    {
        Query::Rx { field, value }
    }

    /// Builds a set-membership leaf.
    pub fn is_in(field: String, value: Value) -> (q: Query)
        requires
            field@.len() > 0,
        ensures
            q == (Query::In { field, value }),
    {
        Query::In { field, value }
    }

    /// Builds an array-element-membership leaf.
    pub fn contains(field: String, value: Value) -> (q: Query)
        requires
            field@.len() > 0,
        ensures
            q == (Query::Contains { field, value }),
    {
        Query::Contains { field, value }
    }

    /// Conjunction of two predicates.
    pub fn and(left: Query, right: Query) -> (q: Query)
        ensures
            q == (Query::And { left: Box::new(left), right: Box::new(right) }),
    {
        Query::And { left: Box::new(left), right: Box::new(right) }
    }

    /// Disjunction of two predicates.
    pub fn or(left: Query, right: Query) -> (q: Query)
        ensures
            q == (Query::Or { left: Box::new(left), right: Box::new(right) }),
    {
        Query::Or { left: Box::new(left), right: Box::new(right) }
    }

    /// Conditional conjunction: when `cond` holds, conjoins `left` with the
    /// predicate the thunk builds; otherwise returns `left` unchanged — the
    /// right branch is never evaluated and leaves no trace in the tree.
    pub fn and_if<F: FnOnce() -> Query>(cond: bool, left: Query, right: F) -> (q: Query)
        requires
            cond ==> call_requires(right, ()),
        ensures
            !cond ==> q == left,
            cond ==> exists|r: Query|
                call_ensures(right, (), r) && q == (Query::And {
                    left: Box::new(left),
                    right: Box::new(r),
                }),
    {
        if cond {
            let r = right();
            Query::And { left: Box::new(left), right: Box::new(r) }
        } else {
            left
        }
    }

    /// Conditional disjunction, symmetric to [`Query::and_if`].
    pub fn or_if<F: FnOnce() -> Query>(cond: bool, left: Query, right: F) -> (q: Query)
        requires
            cond ==> call_requires(right, ()),
        ensures
            !cond ==> q == left,
            cond ==> exists|r: Query|
                call_ensures(right, (), r) && q == (Query::Or {
                    left: Box::new(left),
                    right: Box::new(r),
                }),
    {
        if cond {
            let r = right();
            Query::Or { left: Box::new(left), right: Box::new(r) }
        } else {
            left
        }
    }
}

} // verus!
