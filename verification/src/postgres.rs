//! The relational compiler: a predicate becomes a WHERE-clause text with
//! 1-indexed positional placeholders and an ordered list of bound values.

use vstd::prelude::*;
use vstd::string::StringExecFns;
use crate::query::{
    dec_str, digit_char, leaf_field, leaf_value, query_view, value_view, Query, QueryV,
    Value, ValueV,
};

verus! {

/// One bound parameter of a compiled WHERE clause.
#[derive(Debug, PartialEq)]
pub struct Param {
    value: Value,
}

impl View for Param {
    type V = ValueV;

    closed spec fn view(&self) -> ValueV {
        value_view(self.value)
    }
}

impl Param {
    /// Wraps a value as a bound parameter.
    pub fn from_value(v: Value) -> (p: Param)
        ensures
            p@ == v@,
    {
        Param { value: v }
    }
}

/// The models of a parameter list, element by element.
pub open spec fn param_views(s: Seq<Param>) -> Seq<ValueV> {
    Seq::new(s.len(), |i: int| s[i]@)
}

/// A 1-indexed positional placeholder: `$` followed by the index.
pub open spec fn placeholder(n: nat) -> Seq<char> {
    seq!['$'] + dec_str(n)
}

/// The operator text a comparison leaf emits, with its surrounding spaces.
pub open spec fn rel_op_text(q: QueryV) -> Seq<char> {
    match q {
        QueryV::Eq { .. } => (" = ")@,
        QueryV::Neq { .. } => (" != ")@,
        QueryV::Gt { .. } => (" > ")@,
        QueryV::GtE { .. } => (" >= ")@,
        QueryV::Lt { .. } => (" < ")@,
        QueryV::LtE { .. } => (" <= ")@,
        QueryV::Rx { .. } => (" LIKE ")@,
        QueryV::In { .. } => (" IN ")@,
        QueryV::Contains { .. } => (" CONTAINS ")@,
        _ => Seq::empty(),
    }
}

/// The bound values of the predicate, in left-to-right depth-first order of
/// its comparison leaves.
pub open spec fn params_of(q: QueryV) -> Seq<ValueV>
    decreases q,
{
    match q {
        QueryV::And { left, right } => params_of(*left) + params_of(*right),
        QueryV::Or { left, right } => params_of(*left) + params_of(*right),
        QueryV::Empty => Seq::empty(),
        _ => seq![leaf_value(q)],
    }
}

/// The WHERE-clause text of the predicate when `k` parameters were already
/// bound before it: each leaf takes the next placeholder index, connectives
/// wrap their operands in parentheses, `Empty` is the empty text.
pub open spec fn where_text(q: QueryV, k: nat) -> Seq<char>
    decreases q,
{
    match q {
        QueryV::And { left, right } => ("(")@ + where_text(*left, k) + (" AND ")@ + where_text(
            *right,
            k + params_of(*left).len(),
        ) + (")")@,
        QueryV::Or { left, right } => ("(")@ + where_text(*left, k) + (" OR ")@ + where_text(
            *right,
            k + params_of(*left).len(),
        ) + (")")@,
        QueryV::Empty => Seq::empty(),
        _ => leaf_field(q) + rel_op_text(q) + placeholder(k + 1),
    }
}

/// A compiled WHERE clause: the text and the bound values its placeholders
/// refer to, in placeholder order.
#[derive(Debug)]
pub struct Where {
    pub where_clause: String,
    pub params: Vec<Param>,
}

/// Appends the decimal rendering of `n`.
pub(crate) fn push_dec(out: &mut String, n: u64)
    ensures
        final(out)@ == old(out)@ + dec_str(n as nat),
    decreases n,
{
    if n >= 10 {
        push_dec(out, n / 10);
    }
    let d: u64 = n % 10;
    let digit: &str = if d == 0 {
        "0"
    } else if d == 1 {
        "1"
    } else if d == 2 {
        "2"
    } else if d == 3 {
        "3"
    } else if d == 4 {
        "4"
    } else if d == 5 {
        "5"
    } else if d == 6 {
        "6"
    } else if d == 7 {
        "7"
    } else if d == 8 {
        "8"
    } else {
        "9"
    };
    proof {
        reveal_strlit("0");
        reveal_strlit("1");
        reveal_strlit("2");
        reveal_strlit("3");
        reveal_strlit("4");
        reveal_strlit("5");
        reveal_strlit("6");
        reveal_strlit("7");
        reveal_strlit("8");
        reveal_strlit("9");
        assert(digit@ =~= seq![digit_char((n % 10) as nat)]);
    }
    out.append(digit);
    proof {
        if n >= 10 {
            assert(dec_str(n as nat) == dec_str(n as nat / 10).push(digit_char(n as nat % 10)));
            assert(final(out)@ =~= old(out)@ + dec_str(n as nat));
        } else {
            assert(final(out)@ =~= old(out)@ + dec_str(n as nat));
        }
    }
}

impl Value {
    /// Binds this value: appends it to the parameter list and returns the
    /// placeholder text for its (1-indexed) position.
    pub fn to_param(self, params: &mut Vec<Param>) -> (r: String)
        ensures
            final(params)@.len() == old(params)@.len() + 1,
            param_views(final(params)@) == param_views(old(params)@).push(self@),
            r@ == placeholder(final(params)@.len() as nat),
    {
        let ghost orig = params@;
        params.push(Param { value: self });
        let mut r = String::new();
        r.append("$");
        push_dec(&mut r, params.len() as u64);
        proof {
            reveal_strlit("$");
            assert(param_views(params@) =~= param_views(orig).push(value_view(self)));
            assert(r@ =~= placeholder(params@.len() as nat));
        }
        r
    }
}

/// Copies a parameter list; the copy has the same models.
fn clone_params(params: &Vec<Param>) -> (r: Vec<Param>)
    ensures
        param_views(r@) == param_views(params@),
{
    let mut r: Vec<Param> = Vec::new();
    let mut i: usize = 0;
    while i < params.len()
        invariant
            i <= params.len(),
            r@.len() == i,
            forall|j: int| 0 <= j < i ==> #[trigger] r@[j]@ == params@[j]@,
        decreases params.len() - i,
    {
        r.push(Param { value: params[i].value.clone() });
        i += 1;
    }
    proof {
        assert(param_views(r@) =~= param_views(params@));
    }
    r
}

/// Builds the clause text of one comparison leaf and binds its value.
fn leaf_clause(field: &String, op_txt: &str, value: &Value, params: &mut Vec<Param>) -> (s: String)
    ensures
        final(params)@.len() == old(params)@.len() + 1,
        param_views(final(params)@) == param_views(old(params)@).push(value@),
        s@ == field@ + op_txt@ + placeholder(old(params)@.len() + 1 as nat),
{
    let mut out = crate::query::clone_string(field);
    out.append(op_txt);
    let p = value.clone().to_param(params);
    out.append(p.as_str());
    proof {
        assert(out@ =~= field@ + op_txt@ + placeholder(old(params)@.len() + 1 as nat));
    }
    out
}

impl Query {
    /// Compiles the predicate, appending its bound values to an existing
    /// parameter list; placeholder numbering continues from the list's
    /// current length.
    pub fn to_where_with_params(&self, params: &mut Vec<Param>) -> (w: Where)
        ensures
            param_views(final(params)@) == param_views(old(params)@) + params_of(self@),
            w.where_clause@ == where_text(self@, old(params)@.len() as nat),
            param_views(w.params@) == param_views(final(params)@),
        decreases *self,
    {
        let ghost orig = params@;
        match self {
            Query::And { left, right } => {
                let mut out = String::new();
                out.append("(");
                let lw = (&**left).to_where_with_params(params);
                out.append(lw.where_clause.as_str());
                out.append(" AND ");
                let rw = (&**right).to_where_with_params(params);
                out.append(rw.where_clause.as_str());
                out.append(")");
                proof {
                    assert(param_views(params@) =~= param_views(orig) + params_of(self@));
                    assert(out@ =~= where_text(self@, orig.len() as nat));
                }
                Where { where_clause: out, params: clone_params(params) }
            },
            Query::Or { left, right } => {
                let mut out = String::new();
                out.append("(");
                let lw = (&**left).to_where_with_params(params);
                out.append(lw.where_clause.as_str());
                out.append(" OR ");
                let rw = (&**right).to_where_with_params(params);
                out.append(rw.where_clause.as_str());
                out.append(")");
                proof {
                    assert(param_views(params@) =~= param_views(orig) + params_of(self@));
                    assert(out@ =~= where_text(self@, orig.len() as nat));
                }
                Where { where_clause: out, params: clone_params(params) }
            },
            Query::Empty => {
                proof {
                    assert(param_views(params@) =~= param_views(orig) + params_of(self@));
                }
                Where { where_clause: String::new(), params: clone_params(params) }
            },
            Query::Eq { field, value } => {
                let s = leaf_clause(field, " = ", value, params);
                proof {
                    assert(param_views(params@) =~= param_views(orig) + params_of(self@));
                }
                Where { where_clause: s, params: clone_params(params) }
            },
            Query::Neq { field, value } => {
                let s = leaf_clause(field, " != ", value, params);
                proof {
                    assert(param_views(params@) =~= param_views(orig) + params_of(self@));
                }
                Where { where_clause: s, params: clone_params(params) }
            },
            Query::Gt { field, value } => {
                let s = leaf_clause(field, " > ", value, params);
                proof {
                    assert(param_views(params@) =~= param_views(orig) + params_of(self@));
                }
                Where { where_clause: s, params: clone_params(params) }
            },
            Query::GtE { field, value } => {
                let s = leaf_clause(field, " >= ", value, params);
                proof {
                    assert(param_views(params@) =~= param_views(orig) + params_of(self@));
                }
                Where { where_clause: s, params: clone_params(params) }
            },
            Query::Lt { field, value } => {
                let s = leaf_clause(field, " < ", value, params);
                proof {
                    assert(param_views(params@) =~= param_views(orig) + params_of(self@));
                }
                Where { where_clause: s, params: clone_params(params) }
            },
            Query::LtE { field, value } => {
                let s = leaf_clause(field, " <= ", value, params);
                proof {
                    assert(param_views(params@) =~= param_views(orig) + params_of(self@));
                }
                Where { where_clause: s, params: clone_params(params) }
            },
            Query::Rx { field, value } => {
                let s = leaf_clause(field, " LIKE ", value, params);
                proof {
                    assert(param_views(params@) =~= param_views(orig) + params_of(self@));
                }
                Where { where_clause: s, params: clone_params(params) }
            },
            Query::In { field, value } => {
                let s = leaf_clause(field, " IN ", value, params);
                proof {
                    assert(param_views(params@) =~= param_views(orig) + params_of(self@));
                }
                Where { where_clause: s, params: clone_params(params) }
            },
            Query::Contains { field, value } => {
                let s = leaf_clause(field, " CONTAINS ", value, params);
                proof {
                    assert(param_views(params@) =~= param_views(orig) + params_of(self@));
                }
                Where { where_clause: s, params: clone_params(params) }
            },
        }
    }

    /// Compiles the predicate into a WHERE clause with a fresh parameter
    /// list; placeholders are numbered contiguously from 1.
    pub fn to_where(&self) -> (w: Where)
        ensures
            w.where_clause@ == where_text(self@, 0),
            param_views(w.params@) == params_of(self@),
    {
        let mut params: Vec<Param> = Vec::new();
        self.to_where_with_params(&mut params)
    }
}

/// Compiles a predicate for the relational backend.
pub fn to_where(query: &Query) -> (w: Where)
    ensures
        w.where_clause@ == where_text(query@, 0),
        param_views(w.params@) == params_of(query@),
{
    query.to_where()
}

} // verus!
