//! Rows and the dynamic values they carry.
//!
//! A decoded record is a [`Row`]: a vector of dynamically typed column
//! values.  Rows are the elements of the weighted multisets (Z-sets) that
//! flow from input endpoints through the circuit to output endpoints.

use vstd::prelude::*;

verus! {

/// One column of a row.
#[derive(Debug)]
pub enum Value {
    Null,
    Bool(bool),
    Int(i64),
    Str(String),
}

/// The mathematical model of a [`Value`].
pub enum ValueV {
    Null,
    Bool(bool),
    Int(int),
    Str(Seq<char>),
}

impl View for Value {
    type V = ValueV;

    open spec fn view(&self) -> ValueV {
        match self {
            Value::Null => ValueV::Null,
            Value::Bool(b) => ValueV::Bool(*b),
            Value::Int(i) => ValueV::Int(*i as int),
            Value::Str(s) => ValueV::Str(s@),
        }
    }
}

impl DeepView for Value {
    type V = ValueV;

    open spec fn deep_view(&self) -> ValueV {
        self@
    }
}

impl Clone for Value {
    fn clone(&self) -> (r: Self)
        ensures
            r@ == self@,
    {
        match self {
            Value::Null => Value::Null,
            Value::Bool(b) => Value::Bool(*b),
            Value::Int(i) => Value::Int(*i),
            Value::Str(s) => Value::Str(s.clone()),
        }
    }
}

impl PartialEq for Value {
    fn eq(&self, other: &Self) -> (r: bool)
        ensures
            r == (self@ == other@),
    {
        match (self, other) {
            (Value::Null, Value::Null) => true,
            (Value::Bool(a), Value::Bool(b)) => *a == *b,
            (Value::Int(a), Value::Int(b)) => *a == *b,
            (Value::Str(a), Value::Str(b)) => *a == *b,
            _ => false,
        }
    }
}

impl vstd::std_specs::cmp::PartialEqSpecImpl for Value {
    open spec fn obeys_eq_spec() -> bool {
        true
    }

    open spec fn eq_spec(&self, other: &Self) -> bool {
        self@ == other@
    }
}

/// One decoded record: a vector of column values.
#[derive(Debug)]
pub struct Row {
    pub values: Vec<Value>,
}

impl View for Row {
    type V = Seq<ValueV>;

    open spec fn view(&self) -> Seq<ValueV> {
        self.values.deep_view()
    }
}

impl DeepView for Row {
    type V = Seq<ValueV>;

    open spec fn deep_view(&self) -> Seq<ValueV> {
        self@
    }
}

impl Clone for Row {
    fn clone(&self) -> (r: Self)
        ensures
            r@ == self@,
    {
        let mut values: Vec<Value> = Vec::new();
        let n = self.values.len();
        for i in 0..n
            invariant
                n == self.values.len(),
                values.len() == i,
                forall|j: int| 0 <= j < i ==> values.deep_view()[j] == self@[j],
        {
            values.push(self.values[i].clone());
        }
        proof {
            assert(values.deep_view() =~= self@);
        }
        Row { values }
    }
}

impl PartialEq for Row {
    fn eq(&self, other: &Self) -> (r: bool)
        ensures
            r == (self@ == other@),
    {
        if self.values.len() != other.values.len() {
            proof {
                assert(self@.len() != other@.len());
            }
            return false;
        }
        let n = self.values.len();
        for i in 0..n
            invariant
                n == self.values.len() == other.values.len(),
                forall|j: int| 0 <= j < i ==> self@[j] == other@[j],
        {
            if !(self.values[i] == other.values[i]) {
                proof {
                    assert(self@[i as int] != other@[i as int]);
                }
                return false;
            }
        }
        proof {
            assert(self@ =~= other@);
        }
        true
    }
}

impl vstd::std_specs::cmp::PartialEqSpecImpl for Row {
    open spec fn obeys_eq_spec() -> bool {
        true
    }

    open spec fn eq_spec(&self, other: &Self) -> bool {
        self@ == other@
    }
}

impl Row {
    /// The empty row.
    pub fn new() -> (r: Self)
        ensures
            r@ == Seq::<ValueV>::empty(),
    {
        Row { values: Vec::new() }
    }

    /// Append one column value.
    pub fn push(&mut self, v: Value)
        ensures
            final (self)@ == old(self)@.push(v@),
    {
        self.values.push(v);
        proof {
            assert(self@ =~= old(self)@.push(v@));
        }
    }

    pub fn len(&self) -> (n: usize)
        ensures
            n == self@.len(),
    {
        self.values.len()
    }
}

} // verus!
