//! Rendering, ordering and comparison helpers for Z-set contents, as
//! used by the test harness around the circuit: turning consolidated
//! Z-sets into sorted string tables and digests, and comparing Z-sets
//! for equality.

use vstd::prelude::*;
use vstd::string::{StringExecFns, StrSliceExecFns};
use crate::value::{Row, Value, ValueV};
use crate::zset::{
    l1_norm, lemma_entry_bounded, lemma_l1_nonneg, lemma_l1_take_le, lemma_take_succ,
    lemma_weight_absent, lemma_weight_distinct_at, weight_of, ZEntryV, ZSet,
};

verus! {

/// How the rows of a rendered Z-set are ordered before hashing.
#[derive(Debug, PartialEq, Eq, Structural)]
pub enum SortOrder {
    NONE,
    ROW,
    VALUE,
}

/// Lexicographic order on character sequences, by code point.
pub open spec fn chars_cmp(a: Seq<char>, b: Seq<char>) -> core::cmp::Ordering
    decreases a.len(),
{
    if a.len() == 0 && b.len() == 0 {
        core::cmp::Ordering::Equal
    } else if a.len() == 0 {
        core::cmp::Ordering::Less
    } else if b.len() == 0 {
        core::cmp::Ordering::Greater
    } else if (a[0] as int) < (b[0] as int) {
        core::cmp::Ordering::Less
    } else if (a[0] as int) > (b[0] as int) {
        core::cmp::Ordering::Greater
    } else {
        chars_cmp(a.drop_first(), b.drop_first())
    }
}

/// Order on rows of rendered columns: column by column, ties broken by
/// the number of columns.
pub open spec fn rows_cmp(a: Seq<Seq<char>>, b: Seq<Seq<char>>) -> core::cmp::Ordering
    decreases a.len(),
{
    if a.len() == 0 || b.len() == 0 {
        if a.len() < b.len() {
            core::cmp::Ordering::Less
        } else if a.len() > b.len() {
            core::cmp::Ordering::Greater
        } else {
            core::cmp::Ordering::Equal
        }
    } else if chars_cmp(a[0], b[0]) != core::cmp::Ordering::Equal {
        chars_cmp(a[0], b[0])
    } else {
        rows_cmp(a.drop_first(), b.drop_first())
    }
}

/// `a` sorts no later than `b`.
pub open spec fn rows_le(a: Seq<Seq<char>>, b: Seq<Seq<char>>) -> bool {
    rows_cmp(a, b) != core::cmp::Ordering::Greater
}

pub proof fn lemma_chars_cmp_eq(a: Seq<char>, b: Seq<char>)
    ensures
        (chars_cmp(a, b) == core::cmp::Ordering::Equal) <==> a == b,
    decreases a.len(),
{
    if a.len() == 0 && b.len() == 0 {
        assert(a =~= b);
    } else if a.len() > 0 && b.len() > 0 {
        lemma_chars_cmp_eq(a.drop_first(), b.drop_first());
        if chars_cmp(a, b) == core::cmp::Ordering::Equal {
            assert(a[0] == b[0]);
            assert forall|i: int| 0 <= i < a.len() implies a[i] == b[i] by {
                if i > 0 {
                    assert(a.drop_first()[i - 1] == b.drop_first()[i - 1]);
                }
            }
            assert(a =~= b);
        }
        if a == b {
            assert(a.drop_first() =~= b.drop_first());
        }
    }
}

pub proof fn lemma_chars_cmp_flip(a: Seq<char>, b: Seq<char>)
    ensures
        (chars_cmp(a, b) == core::cmp::Ordering::Less) <==> (chars_cmp(b, a)
            == core::cmp::Ordering::Greater),
    decreases a.len(),
{
    if a.len() > 0 && b.len() > 0 {
        lemma_chars_cmp_flip(a.drop_first(), b.drop_first());
    }
}

pub proof fn lemma_chars_cmp_trans(a: Seq<char>, b: Seq<char>, c: Seq<char>)
    requires
        chars_cmp(a, b) != core::cmp::Ordering::Greater,
        chars_cmp(b, c) != core::cmp::Ordering::Greater,
    ensures
        chars_cmp(a, c) != core::cmp::Ordering::Greater,
        (chars_cmp(a, b) == core::cmp::Ordering::Less || chars_cmp(b, c)
            == core::cmp::Ordering::Less) ==> chars_cmp(a, c) == core::cmp::Ordering::Less,
    decreases a.len() + b.len() + c.len(),
{
    if a.len() == 0 {
        if c.len() > 0 {
        } else {
            if b.len() > 0 {
                assert(chars_cmp(b, c) == core::cmp::Ordering::Greater);
            }
        }
    } else {
        assert(b.len() > 0);
        assert(c.len() > 0) by {
            if c.len() == 0 {
                assert(chars_cmp(b, c) == core::cmp::Ordering::Greater);
            }
        }
        if (a[0] as int) == (b[0] as int) && (b[0] as int) == (c[0] as int) {
            lemma_chars_cmp_trans(a.drop_first(), b.drop_first(), c.drop_first());
        }
    }
}

pub proof fn lemma_rows_cmp_eq(a: Seq<Seq<char>>, b: Seq<Seq<char>>)
    ensures
        (rows_cmp(a, b) == core::cmp::Ordering::Equal) <==> a == b,
    decreases a.len(),
{
    if a.len() == 0 || b.len() == 0 {
        if a.len() == b.len() {
            assert(a =~= b);
        }
        if a == b {
        }
    } else {
        lemma_chars_cmp_eq(a[0], b[0]);
        lemma_rows_cmp_eq(a.drop_first(), b.drop_first());
        if rows_cmp(a, b) == core::cmp::Ordering::Equal {
            assert(a[0] == b[0]);
            assert(a.drop_first() == b.drop_first());
            assert forall|i: int| 0 <= i < a.len() implies a[i] == b[i] by {
                if i > 0 {
                    assert(a.drop_first()[i - 1] == b.drop_first()[i - 1]);
                }
            }
            assert(a =~= b);
        }
        if a == b {
            assert(a.drop_first() =~= b.drop_first());
            assert(a[0] == b[0]);
        }
    }
}

pub proof fn lemma_rows_cmp_flip(a: Seq<Seq<char>>, b: Seq<Seq<char>>)
    ensures
        (rows_cmp(a, b) == core::cmp::Ordering::Less) <==> (rows_cmp(b, a)
            == core::cmp::Ordering::Greater),
    decreases a.len(),
{
    if a.len() > 0 && b.len() > 0 {
        lemma_chars_cmp_flip(a[0], b[0]);
        lemma_chars_cmp_flip(b[0], a[0]);
        lemma_chars_cmp_eq(a[0], b[0]);
        lemma_chars_cmp_eq(b[0], a[0]);
        lemma_rows_cmp_flip(a.drop_first(), b.drop_first());
    }
}

pub proof fn lemma_rows_cmp_trans(a: Seq<Seq<char>>, b: Seq<Seq<char>>, c: Seq<Seq<char>>)
    requires
        rows_le(a, b),
        rows_le(b, c),
    ensures
        rows_le(a, c),
    decreases a.len() + b.len() + c.len(),
{
    if a.len() == 0 || b.len() == 0 || c.len() == 0 {
        if a.len() > 0 {
            assert(b.len() > 0) by {
                if b.len() == 0 {
                    assert(rows_cmp(a, b) == core::cmp::Ordering::Greater);
                }
            }
            assert(c.len() == 0);
            assert(rows_cmp(b, c) == core::cmp::Ordering::Greater);
        }
    } else {
        lemma_chars_cmp_eq(a[0], b[0]);
        lemma_chars_cmp_eq(b[0], c[0]);
        lemma_chars_cmp_eq(a[0], c[0]);
        lemma_chars_cmp_flip(a[0], b[0]);
        lemma_chars_cmp_flip(b[0], c[0]);
        lemma_chars_cmp_flip(a[0], c[0]);
        lemma_chars_cmp_trans(a[0], b[0], c[0]);
        if a[0] == b[0] && b[0] == c[0] {
            lemma_rows_cmp_trans(a.drop_first(), b.drop_first(), c.drop_first());
        }
    }
}

/// The rank a value's kind sorts by, before its contents.
pub open spec fn value_rank(v: ValueV) -> int {
    match v {
        ValueV::Null => 0,
        ValueV::Bool(_) => 1,
        ValueV::Int(_) => 2,
        ValueV::Str(_) => 3,
    }
}

/// Total order on column values: kind first, then contents.
pub open spec fn value_cmp(a: ValueV, b: ValueV) -> core::cmp::Ordering {
    if value_rank(a) < value_rank(b) {
        core::cmp::Ordering::Less
    } else if value_rank(a) > value_rank(b) {
        core::cmp::Ordering::Greater
    } else {
        match (a, b) {
            (ValueV::Bool(x), ValueV::Bool(y)) => if x == y {
                core::cmp::Ordering::Equal
            } else if !x {
                core::cmp::Ordering::Less
            } else {
                core::cmp::Ordering::Greater
            },
            (ValueV::Int(x), ValueV::Int(y)) => if x < y {
                core::cmp::Ordering::Less
            } else if x > y {
                core::cmp::Ordering::Greater
            } else {
                core::cmp::Ordering::Equal
            },
            (ValueV::Str(x), ValueV::Str(y)) => chars_cmp(x, y),
            _ => core::cmp::Ordering::Equal,
        }
    }
}

/// Total order on rows of values: column by column, ties broken by the
/// number of columns.  This is the key order of a Z-set: the order its
/// rows are walked in when a consolidated set is rendered or split.
pub open spec fn key_cmp(a: Seq<ValueV>, b: Seq<ValueV>) -> core::cmp::Ordering
    decreases a.len(),
{
    if a.len() == 0 || b.len() == 0 {
        if a.len() < b.len() {
            core::cmp::Ordering::Less
        } else if a.len() > b.len() {
            core::cmp::Ordering::Greater
        } else {
            core::cmp::Ordering::Equal
        }
    } else if value_cmp(a[0], b[0]) != core::cmp::Ordering::Equal {
        value_cmp(a[0], b[0])
    } else {
        key_cmp(a.drop_first(), b.drop_first())
    }
}

/// `a` sorts no later than `b` in the key order.
pub open spec fn key_le(a: Seq<ValueV>, b: Seq<ValueV>) -> bool {
    key_cmp(a, b) != core::cmp::Ordering::Greater
}

pub proof fn lemma_value_cmp_eq(a: ValueV, b: ValueV)
    ensures
        (value_cmp(a, b) == core::cmp::Ordering::Equal) <==> a == b,
{
    match (a, b) {
        (ValueV::Str(x), ValueV::Str(y)) => {
            lemma_chars_cmp_eq(x, y);
        },
        _ => {},
    }
}

pub proof fn lemma_value_cmp_flip(a: ValueV, b: ValueV)
    ensures
        (value_cmp(a, b) == core::cmp::Ordering::Less) <==> (value_cmp(b, a)
            == core::cmp::Ordering::Greater),
{
    match (a, b) {
        (ValueV::Str(x), ValueV::Str(y)) => {
            lemma_chars_cmp_flip(x, y);
        },
        _ => {},
    }
}

pub proof fn lemma_value_cmp_trans(a: ValueV, b: ValueV, c: ValueV)
    requires
        value_cmp(a, b) != core::cmp::Ordering::Greater,
        value_cmp(b, c) != core::cmp::Ordering::Greater,
    ensures
        value_cmp(a, c) != core::cmp::Ordering::Greater,
        (value_cmp(a, b) == core::cmp::Ordering::Less || value_cmp(b, c)
            == core::cmp::Ordering::Less) ==> value_cmp(a, c) == core::cmp::Ordering::Less,
{
    match (a, b, c) {
        (ValueV::Str(x), ValueV::Str(y), ValueV::Str(z)) => {
            lemma_chars_cmp_trans(x, y, z);
        },
        _ => {},
    }
}

pub proof fn lemma_key_cmp_eq(a: Seq<ValueV>, b: Seq<ValueV>)
    ensures
        (key_cmp(a, b) == core::cmp::Ordering::Equal) <==> a == b,
    decreases a.len(),
{
    if a.len() == 0 || b.len() == 0 {
        if a.len() == b.len() {
            assert(a =~= b);
        }
    } else {
        lemma_value_cmp_eq(a[0], b[0]);
        lemma_key_cmp_eq(a.drop_first(), b.drop_first());
        if key_cmp(a, b) == core::cmp::Ordering::Equal {
            assert(a[0] == b[0]);
            assert(a.drop_first() == b.drop_first());
            assert forall|i: int| 0 <= i < a.len() implies a[i] == b[i] by {
                if i > 0 {
                    assert(a.drop_first()[i - 1] == b.drop_first()[i - 1]);
                }
            }
            assert(a =~= b);
        }
        if a == b {
            assert(a.drop_first() =~= b.drop_first());
            assert(a[0] == b[0]);
        }
    }
}

pub proof fn lemma_key_cmp_flip(a: Seq<ValueV>, b: Seq<ValueV>)
    ensures
        (key_cmp(a, b) == core::cmp::Ordering::Less) <==> (key_cmp(b, a)
            == core::cmp::Ordering::Greater),
    decreases a.len(),
{
    if a.len() > 0 && b.len() > 0 {
        lemma_value_cmp_flip(a[0], b[0]);
        lemma_value_cmp_flip(b[0], a[0]);
        lemma_value_cmp_eq(a[0], b[0]);
        lemma_value_cmp_eq(b[0], a[0]);
        lemma_key_cmp_flip(a.drop_first(), b.drop_first());
    }
}

pub proof fn lemma_key_cmp_trans(a: Seq<ValueV>, b: Seq<ValueV>, c: Seq<ValueV>)
    requires
        key_le(a, b),
        key_le(b, c),
    ensures
        key_le(a, c),
    decreases a.len() + b.len() + c.len(),
{
    if a.len() == 0 || b.len() == 0 || c.len() == 0 {
        if a.len() > 0 {
            assert(b.len() > 0) by {
                if b.len() == 0 {
                    assert(key_cmp(a, b) == core::cmp::Ordering::Greater);
                }
            }
            assert(c.len() == 0);
            assert(key_cmp(b, c) == core::cmp::Ordering::Greater);
        }
    } else {
        lemma_value_cmp_eq(a[0], b[0]);
        lemma_value_cmp_eq(b[0], c[0]);
        lemma_value_cmp_eq(a[0], c[0]);
        lemma_value_cmp_flip(a[0], b[0]);
        lemma_value_cmp_flip(b[0], c[0]);
        lemma_value_cmp_flip(a[0], c[0]);
        lemma_value_cmp_trans(a[0], b[0], c[0]);
        if a[0] == b[0] && b[0] == c[0] {
            lemma_key_cmp_trans(a.drop_first(), b.drop_first(), c.drop_first());
        }
    }
}

/// Compare two character sequences starting at position `i`.
fn str_cmp_from(a: &str, b: &str, i: usize) -> (r: core::cmp::Ordering)
    requires
        i <= a@.len(),
        i <= b@.len(),
    ensures
        r == chars_cmp(a@.skip(i as int), b@.skip(i as int)),
    decreases a@.len() - i,
{
    let la = a.unicode_len();
    let lb = b.unicode_len();
    proof {
        assert(a@.skip(i as int).len() == la - i);
        assert(b@.skip(i as int).len() == lb - i);
    }
    if i == la && i == lb {
        core::cmp::Ordering::Equal
    } else if i == la {
        core::cmp::Ordering::Less
    } else if i == lb {
        core::cmp::Ordering::Greater
    } else {
        let ca = a.get_char(i);
        let cb = b.get_char(i);
        proof {
            assert(a@.skip(i as int)[0] == a@[i as int]);
            assert(b@.skip(i as int)[0] == b@[i as int]);
        }
        if (ca as u32) < (cb as u32) {
            proof {
                assert((ca as int) < (cb as int));
            }
            core::cmp::Ordering::Less
        } else if (ca as u32) > (cb as u32) {
            proof {
                assert((ca as int) > (cb as int));
            }
            core::cmp::Ordering::Greater
        } else {
            proof {
                assert((ca as int) == (cb as int));
            }
            let r = str_cmp_from(a, b, i + 1);
            proof {
                assert(a@.skip(i as int).drop_first() =~= a@.skip(i + 1));
                assert(b@.skip(i as int).drop_first() =~= b@.skip(i + 1));
            }
            r
        }
    }
}

/// Compare two strings by code point.
pub fn str_compare(a: &str, b: &str) -> (r: core::cmp::Ordering)
    ensures
        r == chars_cmp(a@, b@),
{
    let r = str_cmp_from(a, b, 0);
    proof {
        assert(a@.skip(0) =~= a@);
        assert(b@.skip(0) =~= b@);
    }
    r
}

/// Compare two rendered rows starting at column `i`.
fn compare_from(left: &Vec<String>, right: &Vec<String>, i: usize) -> (r: core::cmp::Ordering)
    requires
        i <= left@.len(),
        i <= right@.len(),
    ensures
        r == rows_cmp(left.deep_view().skip(i as int), right.deep_view().skip(i as int)),
    decreases left@.len() - i,
{
    proof {
        assert(left.deep_view().skip(i as int).len() == left@.len() - i);
        assert(right.deep_view().skip(i as int).len() == right@.len() - i);
    }
    if i == left.len() || i == right.len() {
        if left.len() - i < right.len() - i {
            core::cmp::Ordering::Less
        } else if left.len() - i > right.len() - i {
            core::cmp::Ordering::Greater
        } else {
            core::cmp::Ordering::Equal
        }
    } else {
        proof {
            assert(left.deep_view().skip(i as int)[0] == left.deep_view()[i as int]);
            assert(right.deep_view().skip(i as int)[0] == right.deep_view()[i as int]);
        }
        let c = str_compare(left[i].as_str(), right[i].as_str());
        if !matches!(c, core::cmp::Ordering::Equal) {
            c
        } else {
            let r = compare_from(left, right, i + 1);
            proof {
                assert(left.deep_view().skip(i as int).drop_first() =~= left.deep_view().skip(
                    i + 1,
                ));
                assert(right.deep_view().skip(i as int).drop_first() =~= right.deep_view().skip(
                    i + 1,
                ));
            }
            r
        }
    }
}

/// Compare two rendered rows column by column, ties broken by the
/// number of columns.
pub fn compare(left: &Vec<String>, right: &Vec<String>) -> (r: core::cmp::Ordering)
    ensures
        r == rows_cmp(left.deep_view(), right.deep_view()),
{
    let r = compare_from(left, right, 0);
    proof {
        assert(left.deep_view().skip(0) =~= left.deep_view());
        assert(right.deep_view().skip(0) =~= right.deep_view());
    }
    r
}

/// Compare two column values in the key order.
pub fn value_compare(a: &Value, b: &Value) -> (r: core::cmp::Ordering)
    ensures
        r == value_cmp(a@, b@),
{
    match (a, b) {
        (Value::Null, Value::Null) => core::cmp::Ordering::Equal,
        (Value::Null, _) => core::cmp::Ordering::Less,
        (Value::Bool(_), Value::Null) => core::cmp::Ordering::Greater,
        (Value::Bool(x), Value::Bool(y)) => if *x == *y {
            core::cmp::Ordering::Equal
        } else if !*x {
            core::cmp::Ordering::Less
        } else {
            core::cmp::Ordering::Greater
        },
        (Value::Bool(_), _) => core::cmp::Ordering::Less,
        (Value::Int(x), Value::Int(y)) => if *x < *y {
            core::cmp::Ordering::Less
        } else if *x > *y {
            core::cmp::Ordering::Greater
        } else {
            core::cmp::Ordering::Equal
        },
        (Value::Int(_), Value::Str(_)) => core::cmp::Ordering::Less,
        (Value::Int(_), _) => core::cmp::Ordering::Greater,
        (Value::Str(x), Value::Str(y)) => str_compare(x.as_str(), y.as_str()),
        (Value::Str(_), _) => core::cmp::Ordering::Greater,
    }
}

/// Compare two rows in the key order, starting at column `i`.
fn key_compare_from(a: &Row, b: &Row, i: usize) -> (r: core::cmp::Ordering)
    requires
        i <= a@.len(),
        i <= b@.len(),
    ensures
        r == key_cmp(a@.skip(i as int), b@.skip(i as int)),
    decreases a@.len() - i,
{
    proof {
        assert(a@.skip(i as int).len() == a@.len() - i);
        assert(b@.skip(i as int).len() == b@.len() - i);
    }
    if i == a.values.len() || i == b.values.len() {
        if a.values.len() - i < b.values.len() - i {
            core::cmp::Ordering::Less
        } else if a.values.len() - i > b.values.len() - i {
            core::cmp::Ordering::Greater
        } else {
            core::cmp::Ordering::Equal
        }
    } else {
        proof {
            assert(a@.skip(i as int)[0] == a@[i as int]);
            assert(b@.skip(i as int)[0] == b@[i as int]);
            assert(a@[i as int] == a.values@[i as int]@);
            assert(b@[i as int] == b.values@[i as int]@);
        }
        let c = value_compare(&a.values[i], &b.values[i]);
        if !matches!(c, core::cmp::Ordering::Equal) {
            c
        } else {
            let r = key_compare_from(a, b, i + 1);
            proof {
                assert(a@.skip(i as int).drop_first() =~= a@.skip(i + 1));
                assert(b@.skip(i as int).drop_first() =~= b@.skip(i + 1));
            }
            r
        }
    }
}

/// Compare two rows in the key order.
pub fn key_compare(a: &Row, b: &Row) -> (r: core::cmp::Ordering)
    ensures
        r == key_cmp(a@, b@),
{
    let r = key_compare_from(a, b, 0);
    proof {
        assert(a@.skip(0) =~= a@);
        assert(b@.skip(0) =~= b@);
    }
    r
}

/// The rendering of one value as one table cell.
pub open spec fn slt_value_chars(v: ValueV) -> Seq<char> {
    match v {
        ValueV::Null => "NULL"@,
        ValueV::Bool(b) => if b {
            "true"@
        } else {
            "false"@
        },
        ValueV::Int(i) => crate::json::int_chars(i),
        ValueV::Str(s) => s,
    }
}

/// The rendering of one row: one cell per column.
pub open spec fn slt_row_chars(r: Seq<ValueV>) -> Seq<Seq<char>> {
    r.map_values(|v: ValueV| slt_value_chars(v))
}

/// Render one value as one table cell.
pub fn render_value(v: &crate::value::Value) -> (r: String)
    ensures
        r@ == slt_value_chars(v@),
{
    match v {
        crate::value::Value::Null => "NULL".to_owned(),
        crate::value::Value::Bool(b) => if *b {
            "true".to_owned()
        } else {
            "false".to_owned()
        },
        crate::value::Value::Int(i) => crate::json::render_i64(*i),
        crate::value::Value::Str(s) => s.clone(),
    }
}

/// Render one row, cell by cell.
pub fn render_row(row: &crate::value::Row) -> (r: Vec<String>)
    ensures
        r.deep_view() == slt_row_chars(row@),
{
    let mut r: Vec<String> = Vec::new();
    let n = row.values.len();
    for i in 0..n
        invariant
            n == row@.len(),
            r@.len() == i,
            forall|j: int| 0 <= j < i ==> (#[trigger] r@[j])@ == slt_value_chars(row@[j]),
    {
        r.push(render_value(&row.values[i]));
    }
    proof {
        assert(r.deep_view() =~= slt_row_chars(row@));
    }
    r
}

/// Copy a rendered row.
pub fn clone_strings(v: &Vec<String>) -> (r: Vec<String>)
    ensures
        r.deep_view() == v.deep_view(),
{
    let mut r: Vec<String> = Vec::new();
    let n = v.len();
    for i in 0..n
        invariant
            n == v@.len(),
            r@.len() == i,
            forall|j: int| 0 <= j < i ==> (#[trigger] r@[j])@ == v@[j]@,
    {
        r.push(v[i].clone());
    }
    proof {
        assert(r.deep_view() =~= v.deep_view());
    }
    r
}

/// `x` placed into the sorted sequence `s`, after every row that does
/// not sort after it.
pub open spec fn insert_sorted(s: Seq<Seq<Seq<char>>>, x: Seq<Seq<char>>) -> Seq<Seq<Seq<char>>>
    decreases s.len(),
{
    if s.len() == 0 {
        seq![x]
    } else if rows_cmp(s[0], x) == core::cmp::Ordering::Greater {
        seq![x] + s
    } else {
        seq![s[0]] + insert_sorted(s.drop_first(), x)
    }
}

/// The first `n` rows of `s`, sorted by insertion.
pub open spec fn insertion_sort(s: Seq<Seq<Seq<char>>>, n: int) -> Seq<Seq<Seq<char>>>
    decreases n,
{
    if n <= 0 {
        Seq::empty()
    } else {
        insert_sorted(insertion_sort(s, n - 1), s[n - 1])
    }
}

/// Every pair of rows is in order.
pub open spec fn rows_sorted(s: Seq<Seq<Seq<char>>>) -> bool {
    forall|i: int, j: int| 0 <= i < j < s.len() ==> rows_le(s[i], s[j])
}

/// Inserting into a sorted sequence keeps it sorted and adds exactly
/// the new row.
pub proof fn lemma_insert_sorted_ensures(s: Seq<Seq<Seq<char>>>, x: Seq<Seq<char>>)
    requires
        rows_sorted(s),
    ensures
        rows_sorted(insert_sorted(s, x)),
        insert_sorted(s, x).to_multiset() == s.to_multiset().insert(x),
        insert_sorted(s, x).len() == s.len() + 1,
    decreases s.len(),
{
    broadcast use vstd::seq_lib::group_to_multiset_ensures;

    if s.len() == 0 {
        let t = insert_sorted(s, x);
        assert(t =~= Seq::<Seq<Seq<char>>>::empty().push(x));
        assert(s =~= Seq::<Seq<Seq<char>>>::empty());
        assert(t.to_multiset() =~= s.to_multiset().insert(x));
    } else if rows_cmp(s[0], x) == core::cmp::Ordering::Greater {
        let t = seq![x] + s;
        assert forall|i: int, j: int| 0 <= i < j < t.len() implies rows_le(t[i], t[j]) by {
            if i == 0 {
                lemma_rows_cmp_flip(s[0], x);
                assert(rows_le(x, s[0]));
                if j > 1 {
                    assert(rows_le(s[0], s[j - 1]));
                    lemma_rows_cmp_trans(x, s[0], s[j - 1]);
                }
            } else {
                assert(rows_le(s[i - 1], s[j - 1]));
            }
        }
        assert(t =~= s.insert(0, x));
        lemma_multiset_insert_at(s, 0, x);
    } else {
        let rest = insert_sorted(s.drop_first(), x);
        assert(rows_sorted(s.drop_first())) by {
            assert forall|i: int, j: int|
                0 <= i < j < s.drop_first().len() implies rows_le(
                s.drop_first()[i],
                s.drop_first()[j],
            ) by {
                assert(s.drop_first()[i] == s[i + 1]);
                assert(s.drop_first()[j] == s[j + 1]);
            }
        }
        lemma_insert_sorted_ensures(s.drop_first(), x);
        let t = seq![s[0]] + rest;
        // s[0] sorts no later than everything in `rest`
        lemma_rows_cmp_flip(s[0], x);
        lemma_rows_cmp_eq(s[0], x);
        assert(rows_le(s[0], x));
        assert forall|i: int, j: int| 0 <= i < j < t.len() implies rows_le(t[i], t[j]) by {
            if i == 0 {
                lemma_insert_sorted_member(s.drop_first(), x, j - 1);
                let y = rest[j - 1];
                if y == x {
                    assert(rows_le(s[0], y));
                } else {
                    lemma_multiset_member_of(s.drop_first(), y);
                    let p = choose|p: int|
                        0 <= p < s.drop_first().len() && s.drop_first()[p] == y;
                    assert(s[p + 1] == y);
                    assert(rows_le(s[0], s[p + 1]));
                }
            } else {
                assert(rows_le(rest[i - 1], rest[j - 1]));
            }
        }
        assert(s =~= seq![s[0]] + s.drop_first());
        vstd::seq_lib::lemma_multiset_commutative(seq![s[0]], s.drop_first());
        vstd::seq_lib::lemma_multiset_commutative(seq![s[0]], rest);
        assert(t.to_multiset() =~= s.to_multiset().insert(x));
    }
}

/// Whatever sits in an inserted sequence is the new row or came from
/// the old one.
proof fn lemma_insert_sorted_member(s: Seq<Seq<Seq<char>>>, x: Seq<Seq<char>>, i: int)
    requires
        0 <= i < insert_sorted(s, x).len(),
    ensures
        insert_sorted(s, x)[i] == x || s.to_multiset().contains(insert_sorted(s, x)[i]),
    decreases s.len(),
{
    broadcast use vstd::seq_lib::group_to_multiset_ensures;

    if s.len() == 0 {
    } else if rows_cmp(s[0], x) == core::cmp::Ordering::Greater {
        if i > 0 {
            assert((seq![x] + s)[i] == s[i - 1]);
            assert(s.contains(s[i - 1]));
        }
    } else {
        if i == 0 {
            assert(s.contains(s[0]));
        } else {
            lemma_insert_sorted_member(s.drop_first(), x, i - 1);
            let y = insert_sorted(s.drop_first(), x)[i - 1];
            if y != x {
                lemma_multiset_member_of(s.drop_first(), y);
                let p = choose|p: int| 0 <= p < s.drop_first().len() && s.drop_first()[p] == y;
                assert(s[p + 1] == y);
                assert(s.contains(s[p + 1]));
            }
        }
    }
}

/// A multiset member of a sequence sits at some index.
proof fn lemma_multiset_member_of(s: Seq<Seq<Seq<char>>>, y: Seq<Seq<char>>)
    requires
        s.to_multiset().contains(y),
    ensures
        exists|p: int| 0 <= p < s.len() && s[p] == y,
{
    broadcast use vstd::seq_lib::group_to_multiset_ensures;

    assert(s.contains(y));
    let p = choose|p: int| 0 <= p < s.len() && s[p] == y;
    assert(s[p] == y);
}

/// Inserting at any position adds one occurrence to the multiset.
proof fn lemma_multiset_insert_at(s: Seq<Seq<Seq<char>>>, p: int, x: Seq<Seq<char>>)
    requires
        0 <= p <= s.len(),
    ensures
        s.insert(p, x).to_multiset() == s.to_multiset().insert(x),
{
    broadcast use vstd::seq_lib::group_to_multiset_ensures;

    let t = s.insert(p, x);
    assert(t.remove(p) =~= s);
    assert(t.remove(p).to_multiset() =~= t.to_multiset().remove(t[p]));
    assert(t[p] == x);
    assert(t.contains(t[p]));
    assert(t.to_multiset().count(x) > 0);
    assert(t.to_multiset() =~= s.to_multiset().insert(x)) by {
        assert(s.to_multiset() == t.to_multiset().remove(x));
        assert forall|y: Seq<Seq<char>>|
            #[trigger] t.to_multiset().count(y) == s.to_multiset().insert(x).count(y) by {
            if y == x {
                assert(s.to_multiset().count(x) == t.to_multiset().count(x) - 1);
            } else {
                assert(s.to_multiset().count(y) == t.to_multiset().count(y));
            }
        }
    }
}

/// The sorted form of the first `n` rows: sorted, and the same rows.
pub proof fn lemma_insertion_sort_ensures(s: Seq<Seq<Seq<char>>>, n: int)
    requires
        0 <= n <= s.len(),
    ensures
        rows_sorted(insertion_sort(s, n)),
        insertion_sort(s, n).to_multiset() == s.take(n).to_multiset(),
        insertion_sort(s, n).len() == n,
    decreases n,
{
    broadcast use vstd::seq_lib::group_to_multiset_ensures;

    if n <= 0 {
        assert(s.take(0) =~= Seq::<Seq<Seq<char>>>::empty());
        assert(insertion_sort(s, 0) =~= Seq::<Seq<Seq<char>>>::empty());
    } else {
        lemma_insertion_sort_ensures(s, n - 1);
        lemma_insert_sorted_ensures(insertion_sort(s, n - 1), s[n - 1]);
        assert(s.take(n) =~= s.take(n - 1).push(s[n - 1]));
    }
}

/// Where the scan found the first row sorting after `x`, the spec
/// insertion lands exactly there.
proof fn lemma_insert_sorted_at(s: Seq<Seq<Seq<char>>>, x: Seq<Seq<char>>, p: int)
    requires
        0 <= p <= s.len(),
        forall|q: int| 0 <= q < p ==> !(rows_cmp(#[trigger] s[q], x) == core::cmp::Ordering::Greater),
        p < s.len() ==> rows_cmp(s[p], x) == core::cmp::Ordering::Greater,
    ensures
        insert_sorted(s, x) == s.insert(p, x),
    decreases s.len(),
{
    if s.len() == 0 {
        assert(insert_sorted(s, x) =~= s.insert(0, x));
    } else if rows_cmp(s[0], x) == core::cmp::Ordering::Greater {
        assert(p == 0);
        assert(insert_sorted(s, x) =~= s.insert(0, x));
    } else {
        assert(p >= 1);
        assert forall|q: int|
            0 <= q < p - 1 implies !(rows_cmp(#[trigger] s.drop_first()[q], x)
            == core::cmp::Ordering::Greater) by {
            assert(s.drop_first()[q] == s[q + 1]);
        }
        assert(p - 1 < s.drop_first().len() ==> rows_cmp(s.drop_first()[p - 1], x)
            == core::cmp::Ordering::Greater);
        lemma_insert_sorted_at(s.drop_first(), x, p - 1);
        assert(insert_sorted(s, x) =~= s.insert(p, x));
    }
}

/// Sort rendered rows, smallest first; equal rows keep their count.
pub fn sort_rows(rows: &Vec<Vec<String>>) -> (r: Vec<Vec<String>>)
    ensures
        r.deep_view() == insertion_sort(rows.deep_view(), rows.deep_view().len() as int),
{
    let mut out: Vec<Vec<String>> = Vec::new();
    let n = rows.len();
    proof {
        assert(out.deep_view() =~= insertion_sort(rows.deep_view(), 0));
    }
    for i in 0..n
        invariant
            n == rows@.len(),
            out.deep_view() == insertion_sort(rows.deep_view(), i as int),
    {
        let x = clone_strings(&rows[i]);
        let ghost xv = x.deep_view();
        let ghost pre = out.deep_view();
        let m = out.len();
        let mut p: usize = 0;
        while p < m && !row_greater(&out[p], &x)
            invariant
                m == out@.len(),
                0 <= p <= m,
                out.deep_view() == pre,
                x.deep_view() == xv,
                forall|q: int|
                    0 <= q < p ==> !(rows_cmp(#[trigger] pre[q], xv)
                        == core::cmp::Ordering::Greater),
            decreases m - p,
        {
            p = p + 1;
        }
        out.insert(p, x);
        proof {
            assert(rows.deep_view()[i as int] == (rows@[i as int]).deep_view());
            lemma_insert_sorted_at(pre, xv, p as int);
            assert(out.deep_view() =~= pre.insert(p as int, xv));
            assert(out.deep_view() == insertion_sort(rows.deep_view(), i + 1));
        }
    }
    out
}

/// `a` sorts strictly after `b`.
fn row_greater(a: &Vec<String>, b: &Vec<String>) -> (r: bool)
    ensures
        r == (rows_cmp(a.deep_view(), b.deep_view()) == core::cmp::Ordering::Greater),
{
    matches!(compare(a, b), core::cmp::Ordering::Greater)
}

/// The model entries of an owned entry vector.
pub open spec fn owned_zentries(s: Seq<(Seq<ValueV>, i64)>) -> Seq<ZEntryV> {
    s.map_values(|e: (Seq<ValueV>, i64)| (e.0, e.1 as int))
}

/// `e` placed into `s` after every entry whose key does not sort after
/// `e`'s.
pub open spec fn entry_insert(s: Seq<ZEntryV>, e: ZEntryV) -> Seq<ZEntryV>
    decreases s.len(),
{
    if s.len() == 0 {
        seq![e]
    } else if key_cmp(s[0].0, e.0) == core::cmp::Ordering::Greater {
        seq![e] + s
    } else {
        seq![s[0]] + entry_insert(s.drop_first(), e)
    }
}

/// The first `n` entries of `s`, sorted by key.
pub open spec fn entry_sort(s: Seq<ZEntryV>, n: int) -> Seq<ZEntryV>
    decreases n,
{
    if n <= 0 {
        Seq::empty()
    } else {
        entry_insert(entry_sort(s, n - 1), s[n - 1])
    }
}

/// Every pair of entries is in ascending key order.
pub open spec fn entries_key_sorted(s: Seq<ZEntryV>) -> bool {
    forall|i: int, j: int| 0 <= i < j < s.len() ==> key_le(s[i].0, s[j].0)
}

/// How many entries of `s` carry row `k`.
pub open spec fn key_count(s: Seq<ZEntryV>, k: Seq<ValueV>) -> int
    decreases s.len(),
{
    if s.len() == 0 {
        0
    } else {
        key_count(s.drop_last(), k) + if s.last().0 == k {
            1int
        } else {
            0int
        }
    }
}

proof fn lemma_key_count_concat(a: Seq<ZEntryV>, b: Seq<ZEntryV>, k: Seq<ValueV>)
    ensures
        key_count(a + b, k) == key_count(a, k) + key_count(b, k),
    decreases b.len(),
{
    if b.len() == 0 {
        assert(a + b =~= a);
    } else {
        assert((a + b).drop_last() =~= a + b.drop_last());
        lemma_key_count_concat(a, b.drop_last(), k);
    }
}

proof fn lemma_key_count_single(e: ZEntryV, k: Seq<ValueV>)
    ensures
        key_count(seq![e], k) == if e.0 == k {
            1int
        } else {
            0int
        },
{
    assert(seq![e].drop_last() =~= Seq::<ZEntryV>::empty());
    assert(key_count(Seq::<ZEntryV>::empty(), k) == 0);
    assert(seq![e].last() == e);
}

/// A row carried by no entry counts zero entries.
proof fn lemma_key_count_absent(s: Seq<ZEntryV>, k: Seq<ValueV>)
    requires
        forall|i: int| 0 <= i < s.len() ==> s[i].0 != k,
    ensures
        key_count(s, k) == 0,
    decreases s.len(),
{
    if s.len() > 0 {
        lemma_key_count_absent(s.drop_last(), k);
    }
}

/// An entry's row is counted at least once.
proof fn lemma_key_count_at(s: Seq<ZEntryV>, i: int)
    requires
        0 <= i < s.len(),
    ensures
        key_count(s, s[i].0) >= 1,
    decreases s.len(),
{
    lemma_key_count_nonneg(s.drop_last(), s[i].0);
    if i < s.len() - 1 {
        lemma_key_count_at(s.drop_last(), i);
    }
}

proof fn lemma_key_count_nonneg(s: Seq<ZEntryV>, k: Seq<ValueV>)
    ensures
        key_count(s, k) >= 0,
    decreases s.len(),
{
    if s.len() > 0 {
        lemma_key_count_nonneg(s.drop_last(), k);
    }
}

/// A row carried by two entries is counted at least twice.
proof fn lemma_key_count_two(s: Seq<ZEntryV>, i: int, j: int)
    requires
        0 <= i < j < s.len(),
        s[i].0 == s[j].0,
    ensures
        key_count(s, s[i].0) >= 2,
    decreases s.len(),
{
    if j == s.len() - 1 {
        lemma_key_count_at(s.drop_last(), i);
    } else {
        lemma_key_count_two(s.drop_last(), i, j);
    }
}

/// In a sequence with distinct rows no row is counted twice.
proof fn lemma_key_count_distinct(s: Seq<ZEntryV>, k: Seq<ValueV>)
    requires
        crate::zset::distinct_keys(s),
    ensures
        key_count(s, k) <= 1,
    decreases s.len(),
{
    if s.len() > 0 {
        lemma_key_count_distinct(s.drop_last(), k);
        if s.last().0 == k {
            assert forall|i: int| 0 <= i < s.drop_last().len() implies s.drop_last()[i].0 != k by {
                assert(s[i].0 != s[s.len() - 1].0);
            }
            lemma_key_count_absent(s.drop_last(), k);
        }
    }
}

/// A row counted at least once sits at some entry.
proof fn lemma_key_count_witness(s: Seq<ZEntryV>, k: Seq<ValueV>)
    requires
        key_count(s, k) >= 1,
    ensures
        exists|i: int| 0 <= i < s.len() && (#[trigger] s[i]).0 == k,
{
    if forall|i: int| 0 <= i < s.len() ==> (#[trigger] s[i]).0 != k {
        lemma_key_count_absent(s, k);
    }
}

/// Whatever sits in an inserted entry sequence is the new entry or came
/// from the old one.
proof fn lemma_entry_insert_member(s: Seq<ZEntryV>, e: ZEntryV, i: int)
    requires
        0 <= i < entry_insert(s, e).len(),
    ensures
        entry_insert(s, e)[i] == e || exists|p: int|
            0 <= p < s.len() && (#[trigger] s[p]) == entry_insert(s, e)[i],
    decreases s.len(),
{
    if s.len() == 0 {
    } else if key_cmp(s[0].0, e.0) == core::cmp::Ordering::Greater {
        if i > 0 {
            assert((seq![e] + s)[i] == s[i - 1]);
        }
    } else {
        if i == 0 {
            assert(entry_insert(s, e)[0] == s[0]);
        } else {
            lemma_entry_insert_member(s.drop_first(), e, i - 1);
            let y = entry_insert(s.drop_first(), e)[i - 1];
            assert(entry_insert(s, e)[i] == y);
            if y != e {
                let p = choose|p: int|
                    0 <= p < s.drop_first().len() && (#[trigger] s.drop_first()[p]) == y;
                assert(s[p + 1] == y);
            }
        }
    }
}

/// Inserting into a key-sorted entry sequence keeps it sorted, grows it
/// by one, and adds exactly the new entry's weight and its one count.
pub proof fn lemma_entry_insert_ensures(s: Seq<ZEntryV>, e: ZEntryV)
    requires
        entries_key_sorted(s),
    ensures
        entries_key_sorted(entry_insert(s, e)),
        entry_insert(s, e).len() == s.len() + 1,
        forall|k: Seq<ValueV>|
            #[trigger] weight_of(entry_insert(s, e), k) == weight_of(s, k) + if e.0 == k {
                e.1
            } else {
                0
            },
        forall|k: Seq<ValueV>|
            #[trigger] key_count(entry_insert(s, e), k) == key_count(s, k) + if e.0 == k {
                1int
            } else {
                0int
            },
    decreases s.len(),
{
    if s.len() == 0 {
        assert forall|k: Seq<ValueV>|
            #[trigger] weight_of(entry_insert(s, e), k) == weight_of(s, k) + if e.0 == k {
                e.1
            } else {
                0
            } by {
            crate::zset::lemma_weight_single(e, k);
        }
        assert forall|k: Seq<ValueV>|
            #[trigger] key_count(entry_insert(s, e), k) == key_count(s, k) + if e.0 == k {
                1int
            } else {
                0int
            } by {
            lemma_key_count_single(e, k);
        }
    } else if key_cmp(s[0].0, e.0) == core::cmp::Ordering::Greater {
        let t = seq![e] + s;
        assert forall|i: int, j: int| 0 <= i < j < t.len() implies key_le(t[i].0, t[j].0) by {
            if i == 0 {
                lemma_key_cmp_flip(s[0].0, e.0);
                assert(key_le(e.0, s[0].0));
                if j > 1 {
                    assert(key_le(s[0].0, s[j - 1].0));
                    lemma_key_cmp_trans(e.0, s[0].0, s[j - 1].0);
                }
            } else {
                assert(key_le(s[i - 1].0, s[j - 1].0));
            }
        }
        assert forall|k: Seq<ValueV>|
            #[trigger] weight_of(t, k) == weight_of(s, k) + if e.0 == k {
                e.1
            } else {
                0
            } by {
            crate::zset::lemma_concat(seq![e], s, k);
            crate::zset::lemma_weight_single(e, k);
        }
        assert forall|k: Seq<ValueV>|
            #[trigger] key_count(t, k) == key_count(s, k) + if e.0 == k {
                1int
            } else {
                0int
            } by {
            lemma_key_count_concat(seq![e], s, k);
            lemma_key_count_single(e, k);
        }
    } else {
        let rest = entry_insert(s.drop_first(), e);
        assert(entries_key_sorted(s.drop_first())) by {
            assert forall|i: int, j: int|
                0 <= i < j < s.drop_first().len() implies key_le(
                s.drop_first()[i].0,
                s.drop_first()[j].0,
            ) by {
                assert(s.drop_first()[i] == s[i + 1]);
                assert(s.drop_first()[j] == s[j + 1]);
            }
        }
        lemma_entry_insert_ensures(s.drop_first(), e);
        let t = seq![s[0]] + rest;
        assert(key_le(s[0].0, e.0));
        assert forall|i: int, j: int| 0 <= i < j < t.len() implies key_le(t[i].0, t[j].0) by {
            if i == 0 {
                lemma_entry_insert_member(s.drop_first(), e, j - 1);
                let y = rest[j - 1];
                if y == e {
                    assert(key_le(s[0].0, y.0));
                } else {
                    let p = choose|p: int|
                        0 <= p < s.drop_first().len() && (#[trigger] s.drop_first()[p]) == y;
                    assert(s[p + 1] == y);
                    assert(key_le(s[0].0, s[p + 1].0));
                }
            } else {
                assert(key_le(rest[i - 1].0, rest[j - 1].0));
            }
        }
        assert(s =~= seq![s[0]] + s.drop_first());
        assert forall|k: Seq<ValueV>|
            #[trigger] weight_of(t, k) == weight_of(s, k) + if e.0 == k {
                e.1
            } else {
                0
            } by {
            crate::zset::lemma_concat(seq![s[0]], rest, k);
            crate::zset::lemma_concat(seq![s[0]], s.drop_first(), k);
        }
        assert forall|k: Seq<ValueV>|
            #[trigger] key_count(t, k) == key_count(s, k) + if e.0 == k {
                1int
            } else {
                0int
            } by {
            lemma_key_count_concat(seq![s[0]], rest, k);
            lemma_key_count_concat(seq![s[0]], s.drop_first(), k);
        }
    }
}

/// The key-sorted form of the first `n` entries: sorted, `n` long, and
/// carrying the same net weights and entry counts.
pub proof fn lemma_entry_sort_ensures(s: Seq<ZEntryV>, n: int)
    requires
        0 <= n <= s.len(),
    ensures
        entries_key_sorted(entry_sort(s, n)),
        entry_sort(s, n).len() == n,
        forall|k: Seq<ValueV>|
            #[trigger] weight_of(entry_sort(s, n), k) == weight_of(s.take(n), k),
        forall|k: Seq<ValueV>|
            #[trigger] key_count(entry_sort(s, n), k) == key_count(s.take(n), k),
    decreases n,
{
    if n <= 0 {
        assert(s.take(0) =~= Seq::<ZEntryV>::empty());
        assert(entry_sort(s, 0) =~= Seq::<ZEntryV>::empty());
    } else {
        lemma_entry_sort_ensures(s, n - 1);
        lemma_entry_insert_ensures(entry_sort(s, n - 1), s[n - 1]);
        assert(s.take(n).drop_last() =~= s.take(n - 1));
        assert(s.take(n).last() == s[n - 1]);
    }
}

/// Every entry of the sorted form came from the prefix it sorts.
pub proof fn lemma_entry_sort_member(s: Seq<ZEntryV>, n: int, i: int)
    requires
        0 <= n <= s.len(),
        0 <= i < entry_sort(s, n).len(),
    ensures
        exists|p: int| 0 <= p < n && (#[trigger] s[p]) == entry_sort(s, n)[i],
    decreases n,
{
    lemma_entry_sort_ensures(s, n);
    lemma_entry_insert_member(entry_sort(s, n - 1), s[n - 1], i);
    let y = entry_sort(s, n)[i];
    if y == s[n - 1] {
        assert((s[n - 1]) == y);
    } else {
        let q = choose|q: int|
            0 <= q < entry_sort(s, n - 1).len() && (#[trigger] entry_sort(s, n - 1)[q]) == y;
        lemma_entry_sort_member(s, n - 1, q);
        let p = choose|p: int| 0 <= p < n - 1 && (#[trigger] s[p]) == entry_sort(s, n - 1)[q];
        assert((s[p]) == y);
    }
}

/// Where the scan found the first entry whose key sorts after `e`'s,
/// the spec insertion lands exactly there.
proof fn lemma_entry_insert_at(s: Seq<ZEntryV>, e: ZEntryV, p: int)
    requires
        0 <= p <= s.len(),
        forall|q: int|
            0 <= q < p ==> !(key_cmp((#[trigger] s[q]).0, e.0) == core::cmp::Ordering::Greater),
        p < s.len() ==> key_cmp(s[p].0, e.0) == core::cmp::Ordering::Greater,
    ensures
        entry_insert(s, e) == s.insert(p, e),
    decreases s.len(),
{
    if s.len() == 0 {
        assert(entry_insert(s, e) =~= s.insert(0, e));
    } else if key_cmp(s[0].0, e.0) == core::cmp::Ordering::Greater {
        assert(p == 0);
        assert(entry_insert(s, e) =~= s.insert(0, e));
    } else {
        assert(p >= 1);
        assert forall|q: int|
            0 <= q < p - 1 implies !(key_cmp((#[trigger] s.drop_first()[q]).0, e.0)
            == core::cmp::Ordering::Greater) by {
            assert(s.drop_first()[q] == s[q + 1]);
        }
        assert(p - 1 < s.drop_first().len() ==> key_cmp(s.drop_first()[p - 1].0, e.0)
            == core::cmp::Ordering::Greater);
        lemma_entry_insert_at(s.drop_first(), e, p - 1);
        assert(entry_insert(s, e) =~= s.insert(p, e));
    }
}

/// `a`'s key sorts strictly after `b`'s.
fn entry_key_greater(a: &Row, b: &Row) -> (r: bool)
    ensures
        r == (key_cmp(a@, b@) == core::cmp::Ordering::Greater),
{
    matches!(key_compare(a, b), core::cmp::Ordering::Greater)
}

/// The entries of a Z-set in ascending key order; equal keys keep
/// every entry.
fn sorted_entries(set: &ZSet) -> (r: Vec<(Row, i64)>)
    requires
        set.wf(),
    ensures
        owned_zentries(r.deep_view()) == entry_sort(set@, set@.len() as int),
{
    let mut out: Vec<(Row, i64)> = Vec::new();
    let n = set.len();
    proof {
        assert(owned_zentries(out.deep_view()) =~= entry_sort(set@, 0));
    }
    for i in 0..n
        invariant
            n == set@.len(),
            set.wf(),
            owned_zentries(out.deep_view()) == entry_sort(set@, i as int),
    {
        let e = set.entry(i);
        let row = e.0.clone();
        let w: i64 = e.1;
        let ghost ev: ZEntryV = (row@, w as int);
        let ghost pre = owned_zentries(out.deep_view());
        proof {
            assert(ev == set@[i as int]);
        }
        let m = out.len();
        let mut p: usize = 0;
        while p < m && !entry_key_greater(&out[p].0, &row)
            invariant
                m == out@.len(),
                p <= m,
                owned_zentries(out.deep_view()) == pre,
                row@ == ev.0,
                forall|q: int|
                    0 <= q < p ==> !(key_cmp((#[trigger] pre[q]).0, ev.0)
                        == core::cmp::Ordering::Greater),
            decreases m - p,
        {
            proof {
                assert(out@[p as int].0@ == pre[p as int].0);
            }
            p = p + 1;
        }
        proof {
            if p < m {
                assert(out@[p as int].0@ == pre[p as int].0);
            }
        }
        out.insert(p, (row, w));
        proof {
            lemma_entry_insert_at(pre, ev, p as int);
            assert(owned_zentries(out.deep_view()) =~= pre.insert(p as int, ev));
        }
    }
    out
}

/// Each rendered cell as a one-column row of its own.
pub open spec fn singleton_rows(cols: Seq<Seq<char>>, m: int) -> Seq<Seq<Seq<char>>>
    decreases m,
{
    if m <= 0 {
        Seq::empty()
    } else {
        singleton_rows(cols, m - 1).push(seq![cols[m - 1]])
    }
}

/// The rendered table that pushing the first `n` rows produces: whole
/// rows, or one row per cell under `VALUE` ordering.
pub open spec fn pushed_rows(rows: Seq<Seq<ValueV>>, order: SortOrder, n: int) -> Seq<
    Seq<Seq<char>>,
>
    decreases n,
{
    if n <= 0 {
        Seq::empty()
    } else {
        pushed_rows(rows, order, n - 1) + (if order is VALUE {
            singleton_rows(slt_row_chars(rows[n - 1]), slt_row_chars(rows[n - 1]).len() as int)
        } else {
            seq![slt_row_chars(rows[n - 1])]
        })
    }
}

/// Rendered rows being collected for ordering and output.
pub struct DataRows<'a> {
    pub rows: Vec<Vec<String>>,
    pub order: &'a SortOrder,
    /// The output format's column-type string; carried along with the
    /// collection, while each cell renders by the value it holds.
    pub format: &'a String,
}

impl<'a> DataRows<'a> {
    pub fn new(format: &'a String, order: &'a SortOrder) -> (r: Self)
        ensures
            r.rows@.len() == 0,
            r.order == order,
            r.format == format,
    {
        DataRows { rows: Vec::new(), order, format }
    }

    /// `capacity` is advisory; the collection grows on demand.
    pub fn with_capacity(format: &'a String, order: &'a SortOrder, capacity: usize) -> (r: Self)
        ensures
            r.rows@.len() == 0,
            r.order == order,
            r.format == format,
    {
        let _ = capacity;
        DataRows { rows: Vec::new(), order, format }
    }

    /// Render one row and collect it: as one table row, or as one row
    /// per cell under `VALUE` ordering.
    pub fn push(&mut self, sql_row: Row)
        ensures
            final (self).order == old(self).order,
            final (self).format == old(self).format,
            final (self).rows.deep_view() == old(self).rows.deep_view() + (if *old(self).order
                is VALUE {
                singleton_rows(
                    slt_row_chars(sql_row@),
                    slt_row_chars(sql_row@).len() as int,
                )
            } else {
                seq![slt_row_chars(sql_row@)]
            }),
    {
        let row_vec = render_row(&sql_row);
        if matches!(*self.order, SortOrder::ROW) || matches!(*self.order, SortOrder::NONE) {
            let ghost pre = self.rows.deep_view();
            self.rows.push(row_vec);
            proof {
                assert(self.rows.deep_view() =~= pre + seq![slt_row_chars(sql_row@)]);
            }
        } else {
            let m = row_vec.len();
            let ghost cols = row_vec.deep_view();
            let ghost pre = self.rows.deep_view();
            for c in 0..m
                invariant
                    m == row_vec@.len(),
                    row_vec.deep_view() == cols,
                    cols == slt_row_chars(sql_row@),
                    self.order == old(self).order,
                    self.format == old(self).format,
                    self.rows.deep_view() == pre + singleton_rows(cols, c as int),
            {
                let ghost mid = self.rows.deep_view();
                let mut one: Vec<String> = Vec::new();
                one.push(row_vec[c].clone());
                proof {
                    assert(one.deep_view() =~= seq![cols[c as int]]);
                }
                self.rows.push(one);
                proof {
                    assert(self.rows.deep_view() =~= mid.push(seq![cols[c as int]]));
                    assert(self.rows.deep_view() =~= pre + singleton_rows(cols, c + 1));
                }
            }
            proof {
                assert(singleton_rows(cols, m as int).len() == m) by {
                    lemma_singleton_rows_len(cols, m as int);
                }
            }
        }
    }

    /// The collected table, sorted unless no order was asked for.
    pub fn get(self) -> (r: Vec<Vec<String>>)
        ensures
            *self.order is NONE ==> r.deep_view() == self.rows.deep_view(),
            !(*self.order is NONE) ==> r.deep_view() == insertion_sort(
                self.rows.deep_view(),
                self.rows.deep_view().len() as int,
            ),
    {
        if matches!(*self.order, SortOrder::NONE) {
            self.rows
        } else {
            sort_rows(&self.rows)
        }
    }
}

proof fn lemma_singleton_rows_len(cols: Seq<Seq<char>>, m: int)
    ensures
        singleton_rows(cols, m).len() == if m <= 0 {
            0
        } else {
            m
        },
    decreases m,
{
    if m > 0 {
        lemma_singleton_rows_len(cols, m - 1);
    }
}

/// `w` copies of the row `k`.
pub open spec fn repeat_row(k: Seq<ValueV>, w: int) -> Seq<Seq<ValueV>>
    decreases w,
{
    if w <= 0 {
        Seq::empty()
    } else {
        repeat_row(k, w - 1).push(k)
    }
}

/// The first `n` entries expanded by weight: an entry of weight `w`
/// yields `w` copies of its row.
pub open spec fn expanded_rows(s: Seq<ZEntryV>, n: int) -> Seq<Seq<ValueV>>
    decreases n,
{
    if n <= 0 {
        Seq::empty()
    } else {
        expanded_rows(s, n - 1) + repeat_row(s[n - 1].0, s[n - 1].1)
    }
}

/// How many rows of `rows` equal `k`.
pub open spec fn row_count(rows: Seq<Seq<ValueV>>, k: Seq<ValueV>) -> int
    decreases rows.len(),
{
    if rows.len() == 0 {
        0
    } else {
        row_count(rows.drop_last(), k) + if rows.last() == k {
            1int
        } else {
            0int
        }
    }
}

proof fn lemma_row_count_concat(a: Seq<Seq<ValueV>>, b: Seq<Seq<ValueV>>, k: Seq<ValueV>)
    ensures
        row_count(a + b, k) == row_count(a, k) + row_count(b, k),
    decreases b.len(),
{
    if b.len() == 0 {
        assert(a + b =~= a);
    } else {
        assert((a + b).drop_last() =~= a + b.drop_last());
        lemma_row_count_concat(a, b.drop_last(), k);
    }
}

proof fn lemma_repeat_row_elem(k: Seq<ValueV>, w: int, i: int)
    requires
        0 <= i < repeat_row(k, w).len(),
    ensures
        repeat_row(k, w)[i] == k,
    decreases w,
{
    if i < repeat_row(k, w - 1).len() {
        lemma_repeat_row_elem(k, w - 1, i);
    }
}

proof fn lemma_repeat_row_count(k: Seq<ValueV>, w: int, k2: Seq<ValueV>)
    requires
        w >= 0,
    ensures
        row_count(repeat_row(k, w), k2) == if k2 == k {
            w
        } else {
            0
        },
    decreases w,
{
    if w > 0 {
        lemma_repeat_row_count(k, w - 1, k2);
        assert(repeat_row(k, w).drop_last() =~= repeat_row(k, w - 1));
        assert(repeat_row(k, w).last() == k);
    }
}

/// Every expanded row is the row of one of the expanded entries.
proof fn lemma_expanded_member(s: Seq<ZEntryV>, n: int, i: int)
    requires
        0 <= i < expanded_rows(s, n).len(),
    ensures
        exists|b: int| 0 <= b < n && expanded_rows(s, n)[i] == (#[trigger] s[b]).0,
    decreases n,
{
    let prefix = expanded_rows(s, n - 1);
    if i < prefix.len() {
        lemma_expanded_member(s, n - 1, i);
        let b = choose|b: int| 0 <= b < n - 1 && prefix[i] == (#[trigger] s[b]).0;
        assert(expanded_rows(s, n)[i] == (s[b]).0);
    } else {
        lemma_repeat_row_elem(s[n - 1].0, s[n - 1].1, i - prefix.len());
        assert(expanded_rows(s, n)[i] == (s[n - 1]).0);
    }
}

/// Expanding key-sorted entries yields key-sorted rows.
pub proof fn lemma_expanded_sorted(s: Seq<ZEntryV>, n: int)
    requires
        entries_key_sorted(s),
        0 <= n <= s.len(),
    ensures
        forall|i: int, j: int|
            0 <= i < j < expanded_rows(s, n).len() ==> key_le(
                expanded_rows(s, n)[i],
                expanded_rows(s, n)[j],
            ),
    decreases n,
{
    if n > 0 {
        lemma_expanded_sorted(s, n - 1);
        let prefix = expanded_rows(s, n - 1);
        let whole = expanded_rows(s, n);
        assert forall|i: int, j: int|
            0 <= i < j < whole.len() implies key_le(whole[i], whole[j]) by {
            if j < prefix.len() {
                assert(whole[i] == prefix[i] && whole[j] == prefix[j]);
            } else {
                lemma_repeat_row_elem(s[n - 1].0, s[n - 1].1, j - prefix.len());
                assert(whole[j] == s[n - 1].0);
                if i < prefix.len() {
                    lemma_expanded_member(s, n - 1, i);
                    let b = choose|b: int| 0 <= b < n - 1 && prefix[i] == (#[trigger] s[b]).0;
                    assert(key_le(s[b].0, s[n - 1].0));
                } else {
                    lemma_repeat_row_elem(s[n - 1].0, s[n - 1].1, i - prefix.len());
                    assert(whole[i] == s[n - 1].0);
                    lemma_key_cmp_eq(s[n - 1].0, s[n - 1].0);
                }
            }
        }
    }
}

/// With non-negative weights, expansion turns each row's net weight
/// into exactly that many copies.
pub proof fn lemma_expanded_counts(s: Seq<ZEntryV>, n: int, k: Seq<ValueV>)
    requires
        0 <= n <= s.len(),
        forall|i: int| 0 <= i < s.len() ==> (#[trigger] s[i]).1 >= 0,
    ensures
        row_count(expanded_rows(s, n), k) == weight_of(s.take(n), k),
    decreases n,
{
    if n <= 0 {
        assert(s.take(0) =~= Seq::<ZEntryV>::empty());
    } else {
        lemma_expanded_counts(s, n - 1, k);
        lemma_row_count_concat(
            expanded_rows(s, n - 1),
            repeat_row(s[n - 1].0, s[n - 1].1),
            k,
        );
        lemma_repeat_row_count(s[n - 1].0, s[n - 1].1, k);
        assert(s.take(n).drop_last() =~= s.take(n - 1));
        assert(s.take(n).last() == s[n - 1]);
    }
}

/// Expand a Z-set to one row copy per unit of weight, rows in
/// ascending key order: an entry of weight `w` yields `w` copies of
/// its row, and each distinct row appears exactly its net weight many
/// times, grouped, as a cursor over an ordered set would walk them.
/// Every weight must be non-negative; a negative weight in an output
/// set has no row-count reading.
pub fn zset_to_rows(set: &ZSet) -> (r: Vec<Row>)
    requires
        set.wf(),
        forall|i: int| 0 <= i < set@.len() ==> (#[trigger] set@[i]).1 >= 0,
    ensures
        r.deep_view() == expanded_rows(entry_sort(set@, set@.len() as int), set@.len() as int),
        forall|i: int, j: int|
            0 <= i < j < r@.len() ==> key_le(r.deep_view()[i], r.deep_view()[j]),
        forall|k: Seq<ValueV>| #[trigger] row_count(r.deep_view(), k) == weight_of(set@, k),
{
    let sorted = sorted_entries(set);
    let ghost sv = entry_sort(set@, set@.len() as int);
    proof {
        lemma_entry_sort_ensures(set@, set@.len() as int);
        assert forall|j: int| 0 <= j < sv.len() implies (#[trigger] sv[j]).1 >= 0 by {
            lemma_entry_sort_member(set@, set@.len() as int, j);
        }
        assert(sorted@.len() == sorted.deep_view().len());
        assert(owned_zentries(sorted.deep_view()).len() == sorted.deep_view().len());
    }
    let mut r: Vec<Row> = Vec::new();
    let n = sorted.len();
    proof {
        assert(n as int == sv.len());
        assert(r.deep_view() =~= expanded_rows(sv, 0));
    }
    for i in 0..n
        invariant
            n == sorted@.len(),
            owned_zentries(sorted.deep_view()) == sv,
            sv.len() == n,
            forall|p: int| 0 <= p < sv.len() ==> (#[trigger] sv[p]).1 >= 0,
            r.deep_view() == expanded_rows(sv, i as int),
    {
        let w: i64 = sorted[i].1;
        let ghost key = sv[i as int].0;
        proof {
            assert(sv[i as int] == (
                sorted.deep_view()[i as int].0,
                sorted.deep_view()[i as int].1 as int,
            ));
            assert(sorted.deep_view()[i as int] == sorted@[i as int].deep_view());
        }
        let mut c: i64 = 0;
        while c < w
            invariant
                0 <= c <= w,
                i < n == sorted@.len(),
                owned_zentries(sorted.deep_view()) == sv,
                sv.len() == n,
                key == sv[i as int].0,
                w as int == sv[i as int].1,
                r.deep_view() == expanded_rows(sv, i as int) + repeat_row(key, c as int),
            decreases w - c,
        {
            let ghost pre = r.deep_view();
            let row = sorted[i].0.clone();
            proof {
                assert(sorted.deep_view()[i as int] == sorted@[i as int].deep_view());
                assert(row@ == key);
            }
            r.push(row);
            c = c + 1;
            proof {
                assert(r.deep_view() =~= pre.push(key));
                assert(repeat_row(key, c as int) =~= repeat_row(key, c - 1).push(key));
                assert(r.deep_view() =~= expanded_rows(sv, i as int) + repeat_row(
                    key,
                    c as int,
                ));
            }
        }
        proof {
            assert(expanded_rows(sv, i + 1) == expanded_rows(sv, i as int) + repeat_row(
                key,
                sv[i as int].1,
            ));
        }
    }
    proof {
        assert(r.deep_view() == expanded_rows(sv, sv.len() as int));
        lemma_expanded_sorted(sv, sv.len() as int);
        assert forall|k: Seq<ValueV>|
            #[trigger] row_count(r.deep_view(), k) == weight_of(set@, k) by {
            lemma_expanded_counts(sv, sv.len() as int, k);
            assert(sv.take(sv.len() as int) =~= sv);
            assert(set@.take(set@.len() as int) =~= set@);
        }
    }
    r
}

/// Render a Z-set as a table of strings in the SqlLogicTest output
/// style: expand weights in ascending key order, render every row,
/// then order the table as asked.
pub fn zset_to_strings(set: &ZSet, format: String, order: SortOrder) -> (r: Vec<Vec<String>>)
    requires
        set.wf(),
        forall|i: int| 0 <= i < set@.len() ==> (#[trigger] set@[i]).1 >= 0,
    ensures
        ({
            let expanded = expanded_rows(
                entry_sort(set@, set@.len() as int),
                set@.len() as int,
            );
            let base = pushed_rows(expanded, order, expanded.len() as int);
            if order is NONE {
                r.deep_view() == base
            } else {
                r.deep_view() == insertion_sort(base, base.len() as int)
            }
        }),
{
    let rows = zset_to_rows(set);
    let ghost rowsv = rows.deep_view();
    let mut data_rows = DataRows::with_capacity(&format, &order, rows.len());
    let n = rows.len();
    proof {
        assert(data_rows.rows.deep_view() =~= pushed_rows(rowsv, order, 0));
    }
    for i in 0..n
        invariant
            n == rows@.len(),
            rows.deep_view() == rowsv,
            data_rows.order == &order,
            data_rows.rows.deep_view() == pushed_rows(rowsv, order, i as int),
    {
        let row = rows[i].clone();
        proof {
            assert(row@ == rowsv[i as int]);
        }
        data_rows.push(row);
    }
    data_rows.get()
}

/// What the MD5 digest of a rendered table reads as in lowercase hex.
pub uninterp spec fn md5_hex_of(s: Seq<char>) -> Seq<char>;

/// Relies on `md5::compute`: the digest of the input bytes, a function
/// of the input alone; and on `md5::Digest`'s `LowerHex` rendering, two
/// lowercase hex digits per digest byte, 32 characters in all.
#[verifier::external_body]
fn md5_hex(s: &str) -> (r: String)
    ensures
        r@ == md5_hex_of(s@),
        r@.len() == 32,
{
    format!("{:x}", md5::compute(s.as_bytes()))
}

/// One table row flattened for hashing: each cell followed by a line
/// break.
pub open spec fn row_block(row: Seq<Seq<char>>, m: int) -> Seq<char>
    decreases m,
{
    if m <= 0 {
        Seq::empty()
    } else {
        row_block(row, m - 1) + row[m - 1] + "\n"@
    }
}

/// A whole table flattened for hashing.
pub open spec fn table_block(t: Seq<Seq<Seq<char>>>, n: int) -> Seq<char>
    decreases n,
{
    if n <= 0 {
        Seq::empty()
    } else {
        table_block(t, n - 1) + row_block(t[n - 1], t[n - 1].len() as int)
    }
}

/// Flatten a rendered table for hashing.
fn build_block(table: &Vec<Vec<String>>) -> (r: String)
    ensures
        r@ == table_block(table.deep_view(), table.deep_view().len() as int),
{
    let mut builder = String::new();
    let n = table.len();
    for i in 0..n
        invariant
            n == table@.len(),
            builder@ == table_block(table.deep_view(), i as int),
    {
        let m = table[i].len();
        for j in 0..m
            invariant
                i < n == table@.len(),
                m == table@[i as int]@.len(),
                builder@ == table_block(table.deep_view(), i as int) + row_block(
                    table.deep_view()[i as int],
                    j as int,
                ),
        {
            builder = builder.concat(table[i][j].as_str()).concat("\n");
        }
        proof {
            assert(table.deep_view()[i as int].len() == table@[i as int]@.len());
        }
    }
    builder
}

/// The MD5 checksum of a Z-set rendered and ordered as asked, in the
/// SqlLogicTest output style.
pub fn hash(set: &ZSet, format: String, order: SortOrder) -> (r: String)
    requires
        set.wf(),
        forall|i: int| 0 <= i < set@.len() ==> (#[trigger] set@[i]).1 >= 0,
    ensures
        ({
            let expanded = expanded_rows(
                entry_sort(set@, set@.len() as int),
                set@.len() as int,
            );
            let base = pushed_rows(expanded, order, expanded.len() as int);
            let table = if order is NONE {
                base
            } else {
                insertion_sort(base, base.len() as int)
            };
            r@ == md5_hex_of(table_block(table, table.len() as int))
        }),
        r@.len() == 32,
{
    let table = zset_to_strings(set, format, order);
    let builder = build_block(&table);
    md5_hex(builder.as_str())
}

/// Blow a Z-set up into one Z-set per element: one singleton Z-set for
/// each distinct row with nonzero net weight, carrying that row's net
/// weight, in ascending key order.
pub fn to_elements(set: &ZSet) -> (r: Vec<ZSet>)
    requires
        set.wf(),
    ensures
        forall|i: int|
            0 <= i < r@.len() ==> (#[trigger] r@[i]).wf() && r@[i]@.len() == 1 && r@[i]@[0].1
                == weight_of(set@, r@[i]@[0].0) && r@[i]@[0].1 != 0,
        forall|i: int, j: int|
            0 <= i < j < r@.len() ==> key_le((#[trigger] r@[i])@[0].0, (#[trigger] r@[j])@[0].0)
                && r@[i]@[0].0 != r@[j]@[0].0,
        forall|k: Seq<ValueV>|
            #[trigger] weight_of(set@, k) != 0 ==> exists|i: int|
                0 <= i < r@.len() && (#[trigger] r@[i])@[0].0 == k,
{
    let c = set.consolidate();
    let sorted = sorted_entries(&c);
    let ghost sv = entry_sort(c@, c@.len() as int);
    proof {
        lemma_entry_sort_ensures(c@, c@.len() as int);
        assert forall|j: int|
            0 <= j < sv.len() implies (#[trigger] sv[j]).1 == weight_of(set@, sv[j].0)
            && sv[j].1 != 0 && vstd::math::abs(sv[j].1) <= i64::MAX as int by {
            lemma_entry_sort_member(c@, c@.len() as int, j);
            let p = choose|p: int| 0 <= p < c@.len() && (#[trigger] c@[p]) == sv[j];
            lemma_weight_distinct_at(c@, p);
            lemma_entry_bounded(c@, p);
        }
        assert forall|i: int, j: int| 0 <= i < j < sv.len() implies sv[i].0 != sv[j].0 by {
            if sv[i].0 == sv[j].0 {
                lemma_key_count_two(sv, i, j);
                lemma_key_count_distinct(c@, sv[i].0);
                assert(c@.take(c@.len() as int) =~= c@);
            }
        }
    }
    let mut r: Vec<ZSet> = Vec::new();
    let n = sorted.len();
    proof {
        assert(n as int == sv.len());
    }
    for i in 0..n
        invariant
            n == sorted@.len(),
            owned_zentries(sorted.deep_view()) == sv,
            sv.len() == n,
            forall|p: int|
                0 <= p < sv.len() ==> vstd::math::abs((#[trigger] sv[p]).1) <= i64::MAX as int,
            r@.len() == i,
            forall|p: int| 0 <= p < i ==> (#[trigger] r@[p])@ == seq![sv[p]] && r@[p].wf(),
    {
        proof {
            assert(sv[i as int] == (
                sorted.deep_view()[i as int].0,
                sorted.deep_view()[i as int].1 as int,
            ));
            assert(sorted.deep_view()[i as int] == sorted@[i as int].deep_view());
            lemma_l1_nonneg(Seq::<ZEntryV>::empty());
        }
        let row = sorted[i].0.clone();
        let w: i64 = sorted[i].1;
        let mut z = ZSet::new();
        z.push_weighted(row, w);
        proof {
            assert(z@ =~= seq![sv[i as int]]);
        }
        r.push(z);
    }
    proof {
        assert forall|k: Seq<ValueV>|
            #[trigger] weight_of(set@, k) != 0 implies exists|i: int|
            0 <= i < r@.len() && (#[trigger] r@[i])@[0].0 == k by {
            assert(weight_of(c@, k) != 0);
            assert(crate::zset::contains_key(c@, k)) by {
                if !crate::zset::contains_key(c@, k) {
                    lemma_weight_absent(c@, k);
                }
            }
            let p = choose|p: int| 0 <= p < c@.len() && (#[trigger] c@[p]).0 == k;
            lemma_key_count_at(c@, p);
            assert(c@.take(c@.len() as int) =~= c@);
            assert(key_count(sv, k) >= 1);
            lemma_key_count_witness(sv, k);
            let q = choose|q: int| 0 <= q < sv.len() && (#[trigger] sv[q]).0 == k;
            assert((r@[q])@[0].0 == k);
        }
    }
    r
}

/// Add Z-sets packed in one-element tuples, as circuits computing a
/// single view hand them out.
pub fn add_zset_tuple(left: (ZSet,), right: (ZSet,)) -> (r: (ZSet,))
    requires
        left.0.wf(),
        right.0.wf(),
        l1_norm(left.0@) + l1_norm(right.0@) <= i64::MAX as int,
    ensures
        r.0@ == left.0@ + right.0@,
        r.0.wf(),
{
    let (mut l,) = left;
    l.add(&right.0);
    (l,)
}

/// Z-sets are equal exactly when every row carries the same net
/// weight in both.
pub fn must_equal(left: &ZSet, right: &ZSet) -> (r: bool)
    requires
        left.wf(),
        right.wf(),
        l1_norm(left@) + l1_norm(right@) <= i64::MAX as int,
    ensures
        r == forall|k: Seq<ValueV>| #[trigger] weight_of(left@, k) == weight_of(right@, k),
{
    let mut diff = left.clone();
    let mut neg = right.clone();
    neg.negate();
    proof {
        crate::zset::lemma_negated_weights(right@, neg@);
    }
    diff.add(&neg);
    let c = diff.consolidate();
    let empty = c.is_empty();
    proof {
        if empty {
            assert forall|k: Seq<ValueV>| #[trigger]
                weight_of(left@, k) == weight_of(right@, k) by {
                lemma_weight_absent(c@, k);
                assert(weight_of(diff@, k) == 0);
            }
        } else {
            let k0 = c@[0].0;
            lemma_weight_distinct_at(c@, 0);
            assert(weight_of(c@, k0) == c@[0].1);
            assert(c@[0].1 != 0);
            assert(weight_of(left@, k0) != weight_of(right@, k0));
        }
    }
    empty
}

/// The rendered rows that the first `n` vector keys contribute.
pub open spec fn vec_pushed(s: Seq<(Seq<Seq<ValueV>>, i64)>, order: SortOrder, n: int) -> Seq<
    Seq<Seq<char>>,
>
    decreases n,
{
    if n <= 0 {
        Seq::empty()
    } else {
        vec_pushed(s, order, n - 1) + pushed_rows(s[n - 1].0, order, s[n - 1].0.len() as int)
    }
}

/// Render a Z-set whose keys are whole row vectors, as an order-by
/// result hands them out: every key must carry weight one.
pub fn zset_of_vectors_to_strings(set: &Vec<(Vec<Row>, i64)>, format: String, order: SortOrder) -> (
    r: Vec<Vec<String>>)
    requires
        forall|i: int| 0 <= i < set@.len() ==> (#[trigger] set.deep_view()[i]).1 == 1,
    ensures
        ({
            let base = vec_pushed(set.deep_view(), order, set.deep_view().len() as int);
            if order is NONE {
                r.deep_view() == base
            } else {
                r.deep_view() == insertion_sort(base, base.len() as int)
            }
        }),
{
    let mut data_rows = DataRows::new(&format, &order);
    let n = set.len();
    let ghost sv = set.deep_view();
    proof {
        assert(data_rows.rows.deep_view() =~= vec_pushed(sv, order, 0));
    }
    for i in 0..n
        invariant
            n == set@.len(),
            sv == set.deep_view(),
            data_rows.order == &order,
            data_rows.rows.deep_view() == vec_pushed(sv, order, i as int),
    {
        let m = set[i].0.len();
        proof {
            assert(sv[i as int].0 == (set@[i as int].0).deep_view());
            assert(data_rows.rows.deep_view() == vec_pushed(sv, order, i as int) + pushed_rows(
                sv[i as int].0,
                order,
                0,
            )) by {
                assert(vec_pushed(sv, order, i as int) + pushed_rows(sv[i as int].0, order, 0)
                    =~= vec_pushed(sv, order, i as int));
            }
        }
        for k in 0..m
            invariant
                i < n == set@.len(),
                m == set@[i as int].0@.len(),
                sv == set.deep_view(),
                data_rows.order == &order,
                data_rows.rows.deep_view() == vec_pushed(sv, order, i as int) + pushed_rows(
                    sv[i as int].0,
                    order,
                    k as int,
                ),
        {
            let row = set[i].0[k].clone();
            proof {
                assert(row@ == sv[i as int].0[k as int]);
            }
            data_rows.push(row);
        }
        proof {
            assert(sv[i as int].0.len() == m);
        }
    }
    data_rows.get()
}

/// The flattened blocks that hashing an order-by result reads: each
/// key's rows rendered, ordered as asked, and flattened.
pub open spec fn vec_blocks(s: Seq<(Seq<Seq<ValueV>>, i64)>, order: SortOrder, n: int) -> Seq<
    char,
>
    decreases n,
{
    if n <= 0 {
        Seq::empty()
    } else {
        vec_blocks(s, order, n - 1) + ({
            let base = pushed_rows(s[n - 1].0, order, s[n - 1].0.len() as int);
            let t = if order is NONE {
                base
            } else {
                insertion_sort(base, base.len() as int)
            };
            table_block(t, t.len() as int)
        })
    }
}

/// The MD5 checksum of an order-by result: every key must carry
/// weight one; each key's rows are rendered and ordered on their own.
pub fn hash_vectors(set: &Vec<(Vec<Row>, i64)>, format: String, order: SortOrder) -> (r: String)
    requires
        forall|i: int| 0 <= i < set@.len() ==> (#[trigger] set.deep_view()[i]).1 == 1,
    ensures
        r@ == md5_hex_of(vec_blocks(set.deep_view(), order, set.deep_view().len() as int)),
        r@.len() == 32,
{
    let mut builder = String::new();
    let n = set.len();
    let ghost sv = set.deep_view();
    for i in 0..n
        invariant
            n == set@.len(),
            sv == set.deep_view(),
            builder@ == vec_blocks(sv, order, i as int),
    {
        let m = set[i].0.len();
        let mut data_rows = DataRows::with_capacity(&format, &order, m);
        proof {
            assert(sv[i as int].0 == (set@[i as int].0).deep_view());
            assert(data_rows.rows.deep_view() =~= pushed_rows(sv[i as int].0, order, 0));
        }
        for k in 0..m
            invariant
                i < n == set@.len(),
                m == set@[i as int].0@.len(),
                sv == set.deep_view(),
                data_rows.order == &order,
                data_rows.rows.deep_view() == pushed_rows(sv[i as int].0, order, k as int),
        {
            let row = set[i].0[k].clone();
            proof {
                assert(row@ == sv[i as int].0[k as int]);
            }
            data_rows.push(row);
        }
        proof {
            assert(sv[i as int].0.len() == m);
        }
        let table = data_rows.get();
        let block = build_block(&table);
        builder = builder.concat(block.as_str());
    }
    md5_hex(builder.as_str())
}

/// The weighted count of rows in an order-by result: each key counts
/// its rows times its weight.
pub open spec fn vec_count(s: Seq<(Seq<Seq<ValueV>>, i64)>, n: int) -> int
    decreases n,
{
    if n <= 0 {
        0
    } else {
        vec_count(s, n - 1) + s[n - 1].0.len() * s[n - 1].1
    }
}

/// Count the rows of an order-by result, weighted.  Every partial
/// count must fit the machine word the caller receives.
pub fn weighted_vector_count(set: &Vec<(Vec<Row>, i64)>) -> (r: isize)
    requires
        forall|m: int|
            0 <= m <= set@.len() ==> -(isize::MAX as int) <= #[trigger] vec_count(
                set.deep_view(),
                m,
            ) <= isize::MAX as int,
    ensures
        r as int == vec_count(set.deep_view(), set.deep_view().len() as int),
{
    let mut sum: isize = 0;
    let n = set.len();
    let ghost sv = set.deep_view();
    for i in 0..n
        invariant
            n == set@.len(),
            sv == set.deep_view(),
            sum as int == vec_count(sv, i as int),
            forall|m: int|
                0 <= m <= sv.len() ==> -(isize::MAX as int) <= #[trigger] vec_count(sv, m)
                    <= isize::MAX as int,
    {
        let kl = set[i].0.len();
        let w = set[i].1;
        proof {
            assert(sv[i as int].0.len() == kl as int);
            assert((kl as int) * (w as int) <= 0x7fffffffffffffffffffffffffffffff && -0x7fffffffffffffffffffffffffffffff <= (kl as int) * (w as int)) by (nonlinear_arith)
                requires
                    0 <= kl as int <= 0xffffffffffffffff,
                    -0x8000000000000000 <= w as int <= 0x7fffffffffffffff,
            ;
        }
        let prod: i128 = (kl as i128) * (w as i128);
        proof {
            assert(sum as int + prod as int == vec_count(sv, i + 1));
        }
        let next: i128 = (sum as i128) + prod;
        sum = next as isize;
    }
    sum
}

/// The model entries of a decoded stream collection.
pub open spec fn jit_zentries(s: Seq<(Seq<ValueV>, i32)>) -> Seq<ZEntryV> {
    s.map_values(|e: (Seq<ValueV>, i32)| (e.0, e.1 as int))
}

/// Stream collections are equal exactly when every row carries the
/// same net weight in both.
pub fn must_equal_sc(left: &Vec<(Row, i32)>, right: &Vec<(Row, i32)>) -> (r: bool)
    requires
        l1_norm(jit_zentries(left.deep_view())) + l1_norm(jit_zentries(right.deep_view()))
            <= i64::MAX as int,
    ensures
        r == forall|k: Seq<ValueV>| #[trigger]
            weight_of(jit_zentries(left.deep_view()), k) == weight_of(
                jit_zentries(right.deep_view()),
                k,
            ),
{
    proof {
        lemma_l1_nonneg(jit_zentries(left.deep_view()));
        lemma_l1_nonneg(jit_zentries(right.deep_view()));
    }
    let zl = jitset_to_zset(left);
    let zr = jitset_to_zset(right);
    must_equal(&zl, &zr)
}

/// Collect a decoded stream collection into a Z-set.
fn jitset_to_zset(data: &Vec<(Row, i32)>) -> (r: ZSet)
    requires
        l1_norm(jit_zentries(data.deep_view())) <= i64::MAX as int,
    ensures
        r@ == jit_zentries(data.deep_view()),
        r.wf(),
{
    let mut r = ZSet::new();
    let n = data.len();
    proof {
        assert(r@ =~= jit_zentries(data.deep_view()).take(0));
    }
    for i in 0..n
        invariant
            n == data@.len(),
            l1_norm(jit_zentries(data.deep_view())) <= i64::MAX as int,
            r.wf(),
            r@ == jit_zentries(data.deep_view()).take(i as int),
    {
        proof {
            let s = jit_zentries(data.deep_view());
            lemma_take_succ(s, i as int, Seq::empty());
            lemma_l1_take_le(s, i + 1);
            assert(s[i as int] == (data.deep_view()[i as int].0, data.deep_view()[i as int].1 as int));
        }
        let row = data[i].0.clone();
        let w: i64 = data[i].1 as i64;
        r.push_weighted(row, w);
        proof {
            assert(r@ =~= jit_zentries(data.deep_view()).take(i + 1));
        }
    }
    proof {
        assert(jit_zentries(data.deep_view()).take(n as int) =~= jit_zentries(data.deep_view()));
    }
    r
}

} // verus!
