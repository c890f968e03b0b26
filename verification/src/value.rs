//! Runtime values of the language and their mathematical model.
use vstd::prelude::*;

use crate::text::{decimal, push_char, push_decimal};

verus! {

/// The mathematical model of a runtime value.
pub enum Val {
    Int(i64),
    Bool(bool),
    Null,
    Str(Seq<char>),
    Arr(Seq<Val>),
}

/// A runtime value.
#[derive(Debug, PartialEq)]
pub enum Value {
    Int(i64),
    Bool(bool),
    Null,
    String(String),
    Array(Vec<Value>),
}

impl Value {
    /// The model of this value.
    pub open spec fn val(&self) -> Val
        decreases self, 0nat,
    {
        match self {
            Value::Int(n) => Val::Int(*n),
            Value::Bool(b) => Val::Bool(*b),
            Value::Null => Val::Null,
            Value::String(s) => Val::Str(s@),
            Value::Array(v) => Val::Arr(vals(v@)),
        }
    }
}

/// The models of a sequence of values.
pub open spec fn vals(s: Seq<Value>) -> Seq<Val>
    decreases s, s.len(),
{
    if s.len() == 0 {
        Seq::empty()
    } else {
        vals(s.drop_last()).push(s.last().val())
    }
}

/// `vals` keeps the length and maps each element.
pub proof fn lemma_vals(s: Seq<Value>)
    ensures
        vals(s).len() == s.len(),
        forall|i: int| 0 <= i < s.len() ==> #[trigger] vals(s)[i] == s[i].val(),
    decreases s.len(),
{
    if s.len() > 0 {
        lemma_vals(s.drop_last());
    }
}

/// `vals` of a pushed sequence.
pub proof fn lemma_vals_push(s: Seq<Value>, v: Value)
    ensures
        vals(s.push(v)) == vals(s).push(v.val()),
{
    assert(s.push(v).drop_last() =~= s);
}

/// `vals` of an updated sequence.
pub proof fn lemma_vals_update(s: Seq<Value>, i: int, v: Value)
    requires
        0 <= i < s.len(),
    ensures
        vals(s.update(i, v)) == vals(s).update(i, v.val()),
{
    lemma_vals(s);
    lemma_vals(s.update(i, v));
    assert(vals(s.update(i, v)) =~= vals(s).update(i, v.val()));
}

/// Whether a value counts as true in a condition: a boolean is itself, an
/// integer is true when it is not zero, null is false, and a string or an
/// array is true when it is not empty.
pub open spec fn truthy(v: Val) -> bool {
    match v {
        Val::Bool(b) => b,
        Val::Int(n) => n != 0,
        Val::Null => false,
        Val::Str(s) => s.len() > 0,
        Val::Arr(a) => a.len() > 0,
    }
}

/// The integer held by a value, if it is an integer.
pub open spec fn int_of(v: Val) -> Option<i64> {
    match v {
        Val::Int(n) => Some(n),
        _ => None,
    }
}

/// The boolean held by a value, if it is a boolean.
pub open spec fn bool_of(v: Val) -> Option<bool> {
    match v {
        Val::Bool(b) => Some(b),
        _ => None,
    }
}

/// How a value is printed: integers in decimal, booleans as `true` or
/// `false`, null as `null`, strings as their characters, and arrays as their
/// elements between brackets, separated by a comma and a space.
pub open spec fn show(v: Val) -> Seq<char>
    decreases v, 0nat,
{
    match v {
        Val::Int(n) => decimal(n as int),
        Val::Bool(b) => if b {
            seq!['t', 'r', 'u', 'e']
        } else {
            seq!['f', 'a', 'l', 's', 'e']
        },
        Val::Null => seq!['n', 'u', 'l', 'l'],
        Val::Str(s) => s,
        Val::Arr(a) => seq!['['] + show_items(a) + seq![']'],
    }
}

/// The printed elements of an array, separated by `", "`.
pub open spec fn show_items(a: Seq<Val>) -> Seq<char>
    decreases a, a.len(),
{
    if a.len() == 0 {
        Seq::empty()
    } else if a.len() == 1 {
        show(a[0])
    } else {
        show_items(a.drop_last()) + seq![',', ' '] + show(a.last())
    }
}

impl Value {
    /// Whether this value counts as true in a condition.
    pub fn is_truthy(&self) -> (r: bool)
        ensures
            r == truthy(self.val()),
    {
        match self {
            Value::Bool(b) => *b,
            Value::Int(n) => *n != 0,
            Value::Null => false,
            Value::String(s) => s.as_str().unicode_len() > 0,
            Value::Array(a) => {
                proof {
                    lemma_vals(a@);
                }
                a.len() > 0
            },
        }
    }

    /// The integer held by this value, if it is an integer.
    pub fn as_int(&self) -> (r: Option<i64>)
        ensures
            r == int_of(self.val()),
    {
        match self {
            Value::Int(n) => Some(*n),
            _ => None,
        }
    }

    /// The boolean held by this value, if it is a boolean.
    pub fn as_bool(&self) -> (r: Option<bool>)
        ensures
            r == bool_of(self.val()),
    {
        match self {
            Value::Bool(b) => Some(*b),
            _ => None,
        }
    }

    /// Whether this value is null.
    pub fn is_null(&self) -> (r: bool)
        ensures
            r == (self.val() is Null),
    {
        match self {
            Value::Null => true,
            _ => false,
        }
    }

    /// A copy of this value, with the same model.
    pub fn deep_copy(&self) -> (r: Value)
        ensures
            r.val() == self.val(),
        decreases self, 1nat,
    {
        match self {
            Value::Int(n) => Value::Int(*n),
            Value::Bool(b) => Value::Bool(*b),
            Value::Null => Value::Null,
            Value::String(s) => Value::String(s.clone()),
            Value::Array(a) => Value::Array(copy_values(a, Ghost(*self))),
        }
    }

    /// The text that printing this value shows.
    pub fn to_display_string(&self) -> (r: String)
        ensures
            r@ == show(self.val()),
    {
        let mut out = String::new();
        self.write_to(&mut out);
        proof {
            assert(out@ =~= show(self.val()));
        }
        out
    }

    /// Appends the printed form of this value to `out`.
    pub fn write_to(&self, out: &mut String)
        ensures
            final(out)@ == old(out)@ + show(self.val()),
        decreases self, 1nat,
    {
        match self {
            Value::Int(n) => push_decimal(out, *n),
            Value::Bool(b) => {
                if *b {
                    out.append("true");
                    proof {
                        reveal_strlit("true");
                    }
                } else {
                    out.append("false");
                    proof {
                        reveal_strlit("false");
                    }
                }
            },
            Value::Null => {
                out.append("null");
                proof {
                    reveal_strlit("null");
                }
            },
            Value::String(s) => {
                out.append(s.as_str());
            },
            Value::Array(a) => {
                push_char(out, '[');
                write_items(a, out, Ghost(*self));
                push_char(out, ']');
                proof {
                    assert(old(out)@ + show(self.val()) =~= old(out)@.push('[') + show_items(vals(a@)).push(']'));
                }
            },
        }
    }
}

fn copy_values(a: &Vec<Value>, Ghost(owner): Ghost<Value>) -> (r: Vec<Value>)
    requires
        owner is Array,
        owner->Array_0 == *a,
    ensures
        vals(r@) == vals(a@),
    decreases owner, 0nat,
{
    let mut out: Vec<Value> = Vec::new();
    let mut i: usize = 0;
    while i < a.len()
        invariant
            i <= a.len(),
            owner is Array,
            owner->Array_0 == *a,
            vals(out@) == vals(a@.take(i as int)),
        decreases a.len() - i,
    {
        proof {
            assert(decreases_to!(owner => owner->Array_0));
            assert(decreases_to!(owner->Array_0 => owner->Array_0@));
            assert(decreases_to!(owner->Array_0@ => owner->Array_0@[i as int]));
        }
        let x = a[i].deep_copy();
        let ghost before = out@;
        out.push(x);
        proof {
            lemma_vals_push(before, x);
            assert(a@.take(i + 1) =~= a@.take(i as int).push(a@[i as int]));
            lemma_vals_push(a@.take(i as int), a@[i as int]);
        }
        i = i + 1;
    }
    proof {
        assert(a@.take(a.len() as int) =~= a@);
    }
    out
}

fn write_items(a: &Vec<Value>, out: &mut String, Ghost(owner): Ghost<Value>)
    requires
        owner is Array,
        owner->Array_0 == *a,
    ensures
        final(out)@ == old(out)@ + show_items(vals(a@)),
    decreases owner, 0nat,
{
    let mut i: usize = 0;
    while i < a.len()
        invariant
            i <= a.len(),
            owner is Array,
            owner->Array_0 == *a,
            out@ == old(out)@ + show_items(vals(a@.take(i as int))),
        decreases a.len() - i,
    {
        proof {
            assert(decreases_to!(owner => owner->Array_0));
            assert(decreases_to!(owner->Array_0 => owner->Array_0@));
            assert(decreases_to!(owner->Array_0@ => owner->Array_0@[i as int]));
        }
        let ghost before = out@;
        if i > 0 {
            push_char(out, ',');
            push_char(out, ' ');
        }
        a[i].write_to(out);
        proof {
            let t = a@.take(i as int);
            assert(a@.take(i + 1) =~= t.push(a@[i as int]));
            lemma_vals_push(t, a@[i as int]);
            let vt = vals(t).push(a@[i as int].val());
            assert(vt.drop_last() =~= vals(t));
            if i > 0 {
                lemma_vals(t);
                assert(out@ =~= old(out)@ + show_items(vt));
            } else {
                assert(vals(t) =~= Seq::<Val>::empty());
                assert(out@ =~= old(out)@ + show_items(vt));
            }
        }
        i = i + 1;
    }
    proof {
        assert(a@.take(a.len() as int) =~= a@);
    }
}

} // verus!
