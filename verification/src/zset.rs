//! Z-sets: weighted multisets of rows.
//!
//! A Z-set maps each row to an integer weight (which may be negative);
//! addition of Z-sets adds weights, and a row whose net weight is zero is
//! absent from the externally visible collection.  The model of a Z-set
//! is the sequence of its (row, weight) entries; the weight of a row is
//! the sum of the weights of all entries carrying it.
//!
//! Every entry sequence carries an l1 mass: the sum of the absolute
//! weights.  Keeping the mass within `i64::MAX` is what makes every
//! weight computation here free of overflow.

use vstd::prelude::*;
use crate::value::{Row, ValueV};

verus! {

/// One model entry: the row's model and its weight.
pub type ZEntryV = (Seq<ValueV>, int);

/// The net weight of row `k` in the entry sequence `s`.
pub open spec fn weight_of(s: Seq<ZEntryV>, k: Seq<ValueV>) -> int
    decreases s.len(),
{
    if s.len() == 0 {
        0
    } else {
        weight_of(s.drop_last(), k) + if s.last().0 == k {
            s.last().1
        } else {
            0
        }
    }
}

/// The l1 mass of an entry sequence: the sum of the absolute weights.
pub open spec fn l1_norm(s: Seq<ZEntryV>) -> int
    decreases s.len(),
{
    if s.len() == 0 {
        0
    } else {
        l1_norm(s.drop_last()) + vstd::math::abs(s.last().1)
    }
}

/// Some entry of `s` carries row `k`.
pub open spec fn contains_key(s: Seq<ZEntryV>, k: Seq<ValueV>) -> bool {
    exists|i: int| 0 <= i < s.len() && s[i].0 == k
}

/// Some entry of `s` before position `n` carries row `k`.
pub open spec fn occurs_before(s: Seq<ZEntryV>, k: Seq<ValueV>, n: int) -> bool {
    exists|i: int| 0 <= i < n && i < s.len() && (#[trigger] s[i]).0 == k
}

pub proof fn lemma_contains_occurs(s: Seq<ZEntryV>, k: Seq<ValueV>)
    ensures
        contains_key(s, k) <==> occurs_before(s, k, s.len() as int),
{
    if contains_key(s, k) {
        let i = choose|i: int| 0 <= i < s.len() && s[i].0 == k;
        assert((s[i]).0 == k);
    }
    if occurs_before(s, k, s.len() as int) {
        let i = choose|i: int| 0 <= i < s.len() as int && i < s.len() && (#[trigger] s[i]).0 == k;
        assert(s[i].0 == k);
    }
}

/// No two entries of `s` carry the same row.
pub open spec fn distinct_keys(s: Seq<ZEntryV>) -> bool {
    forall|i: int, j: int| 0 <= i < j < s.len() ==> s[i].0 != s[j].0
}

/// `s` is in minimal form: distinct rows, no zero weights.
pub open spec fn consolidated(s: Seq<ZEntryV>) -> bool {
    distinct_keys(s) && forall|i: int| 0 <= i < s.len() ==> s[i].1 != 0
}

pub proof fn lemma_l1_nonneg(s: Seq<ZEntryV>)
    ensures
        l1_norm(s) >= 0,
    decreases s.len(),
{
    if s.len() > 0 {
        lemma_l1_nonneg(s.drop_last());
    }
}

/// The net weight of any row is bounded by the mass.
pub proof fn lemma_weight_bounded(s: Seq<ZEntryV>, k: Seq<ValueV>)
    ensures
        -l1_norm(s) <= weight_of(s, k) <= l1_norm(s),
    decreases s.len(),
{
    if s.len() > 0 {
        lemma_weight_bounded(s.drop_last(), k);
    }
}

/// Each single weight is bounded by the mass.
pub proof fn lemma_entry_bounded(s: Seq<ZEntryV>, i: int)
    requires
        0 <= i < s.len(),
    ensures
        vstd::math::abs(s[i].1) <= l1_norm(s),
    decreases s.len(),
{
    lemma_l1_nonneg(s.drop_last());
    if i < s.len() - 1 {
        lemma_entry_bounded(s.drop_last(), i);
    }
}

/// Weights add up over concatenation, and so does the mass.
pub proof fn lemma_concat(a: Seq<ZEntryV>, b: Seq<ZEntryV>, k: Seq<ValueV>)
    ensures
        weight_of(a + b, k) == weight_of(a, k) + weight_of(b, k),
        l1_norm(a + b) == l1_norm(a) + l1_norm(b),
    decreases b.len(),
{
    if b.len() == 0 {
        assert(a + b =~= a);
    } else {
        assert((a + b).drop_last() =~= a + b.drop_last());
        lemma_concat(a, b.drop_last(), k);
    }
}

/// Extending a prefix by one entry adds that entry's contribution.
pub proof fn lemma_take_succ(s: Seq<ZEntryV>, i: int, k: Seq<ValueV>)
    requires
        0 <= i < s.len(),
    ensures
        weight_of(s.take(i + 1), k) == weight_of(s.take(i), k) + if s[i].0 == k {
            s[i].1
        } else {
            0
        },
        l1_norm(s.take(i + 1)) == l1_norm(s.take(i)) + vstd::math::abs(s[i].1),
{
    assert(s.take(i + 1).drop_last() =~= s.take(i));
    assert(s.take(i + 1).last() == s[i]);
}

/// The mass of a prefix is at most the mass of the whole.
pub proof fn lemma_l1_take_le(s: Seq<ZEntryV>, i: int)
    requires
        0 <= i <= s.len(),
    ensures
        l1_norm(s.take(i)) <= l1_norm(s),
{
    assert(s =~= s.take(i) + s.skip(i));
    lemma_concat(s.take(i), s.skip(i), Seq::empty());
    lemma_l1_nonneg(s.skip(i));
}

/// A row carried by no entry has weight zero.
pub proof fn lemma_weight_absent(s: Seq<ZEntryV>, k: Seq<ValueV>)
    requires
        forall|i: int| 0 <= i < s.len() ==> s[i].0 != k,
    ensures
        weight_of(s, k) == 0,
    decreases s.len(),
{
    if s.len() > 0 {
        lemma_weight_absent(s.drop_last(), k);
    }
}

/// In a sequence with distinct rows, the net weight of a present row is
/// the weight of its one entry.
pub proof fn lemma_weight_distinct_at(s: Seq<ZEntryV>, i: int)
    requires
        distinct_keys(s),
        0 <= i < s.len(),
    ensures
        weight_of(s, s[i].0) == s[i].1,
    decreases s.len(),
{
    if i == s.len() - 1 {
        lemma_weight_absent(s.drop_last(), s[i].0);
    } else {
        lemma_weight_distinct_at(s.drop_last(), i);
    }
}

/// In a consolidated sequence, a row with net weight zero is absent.
pub proof fn lemma_consolidated_zero_absent(s: Seq<ZEntryV>, k: Seq<ValueV>)
    requires
        consolidated(s),
        weight_of(s, k) == 0,
    ensures
        !contains_key(s, k),
{
    if contains_key(s, k) {
        let i = choose|i: int| 0 <= i < s.len() && s[i].0 == k;
        lemma_weight_distinct_at(s, i);
    }
}

/// The sum of the absolute net weights that the rows `ks` carry in `s`.
pub open spec fn sum_abs_weights(ks: Seq<Seq<ValueV>>, s: Seq<ZEntryV>) -> int
    decreases ks.len(),
{
    if ks.len() == 0 {
        0
    } else {
        sum_abs_weights(ks.drop_last(), s) + vstd::math::abs(weight_of(s, ks.last()))
    }
}

/// The rows of the entries of `t`, in order.
pub open spec fn keys_of(t: Seq<ZEntryV>) -> Seq<Seq<ValueV>> {
    t.map_values(|e: ZEntryV| e.0)
}

proof fn lemma_sum_abs_empty(ks: Seq<Seq<ValueV>>)
    ensures
        sum_abs_weights(ks, Seq::empty()) == 0,
    decreases ks.len(),
{
    if ks.len() > 0 {
        lemma_sum_abs_empty(ks.drop_last());
    }
}

proof fn lemma_sum_abs_push_unaffected(ks: Seq<Seq<ValueV>>, s: Seq<ZEntryV>, e: ZEntryV)
    requires
        forall|j: int| 0 <= j < ks.len() ==> ks[j] != e.0,
    ensures
        sum_abs_weights(ks, s.push(e)) == sum_abs_weights(ks, s),
    decreases ks.len(),
{
    assert(s.push(e).drop_last() =~= s);
    if ks.len() > 0 {
        lemma_sum_abs_push_unaffected(ks.drop_last(), s, e);
    }
}

proof fn lemma_sum_abs_push(ks: Seq<Seq<ValueV>>, s: Seq<ZEntryV>, e: ZEntryV)
    requires
        forall|i: int, j: int| 0 <= i < j < ks.len() ==> ks[i] != ks[j],
    ensures
        sum_abs_weights(ks, s.push(e)) <= sum_abs_weights(ks, s) + vstd::math::abs(e.1),
    decreases ks.len(),
{
    assert(s.push(e).drop_last() =~= s);
    if ks.len() > 0 {
        if ks.last() == e.0 {
            lemma_sum_abs_push_unaffected(ks.drop_last(), s, e);
        } else {
            lemma_sum_abs_push(ks.drop_last(), s, e);
        }
    }
}

/// The total mass that any set of distinct rows carries in `s` is at
/// most the mass of `s`: consolidation never increases mass.
pub proof fn lemma_sum_abs_le_l1(ks: Seq<Seq<ValueV>>, s: Seq<ZEntryV>)
    requires
        forall|i: int, j: int| 0 <= i < j < ks.len() ==> ks[i] != ks[j],
    ensures
        sum_abs_weights(ks, s) <= l1_norm(s),
    decreases s.len(),
{
    if s.len() == 0 {
        assert(s =~= Seq::<ZEntryV>::empty());
        lemma_sum_abs_empty(ks);
    } else {
        let s0 = s.drop_last();
        let e = s.last();
        lemma_sum_abs_le_l1(ks, s0);
        lemma_sum_abs_push(ks, s0, e);
        assert(s =~= s0.push(e));
        assert(sum_abs_weights(ks, s) == sum_abs_weights(ks, s0.push(e)));
        assert(l1_norm(s) == l1_norm(s0) + vstd::math::abs(e.1));
    }
}

/// When every entry of `t` carries the net weight its row has in `s`,
/// the mass of `t` is the summed mass of its rows in `s`.
proof fn lemma_l1_as_sum_abs(t: Seq<ZEntryV>, s: Seq<ZEntryV>)
    requires
        forall|i: int| 0 <= i < t.len() ==> #[trigger] t[i].1 == weight_of(s, t[i].0),
    ensures
        l1_norm(t) == sum_abs_weights(keys_of(t), s),
    decreases t.len(),
{
    if t.len() > 0 {
        assert(keys_of(t).drop_last() =~= keys_of(t.drop_last()));
        assert(keys_of(t).last() == t.last().0);
        lemma_l1_as_sum_abs(t.drop_last(), s);
    } else {
        assert(keys_of(t).len() == 0);
    }
}

/// A consolidated form of `s` carries at most the mass of `s`.
pub proof fn lemma_consolidated_mass(t: Seq<ZEntryV>, s: Seq<ZEntryV>)
    requires
        distinct_keys(t),
        forall|i: int| 0 <= i < t.len() ==> #[trigger] t[i].1 == weight_of(s, t[i].0),
    ensures
        l1_norm(t) <= l1_norm(s),
{
    lemma_l1_as_sum_abs(t, s);
    assert(forall|i: int, j: int|
        0 <= i < j < keys_of(t).len() ==> keys_of(t)[i] != keys_of(t)[j]);
    lemma_sum_abs_le_l1(keys_of(t), s);
}

/// A Z-set held as a vector of weighted rows, together with its mass.
#[derive(Debug)]
pub struct ZSet {
    entries: Vec<(Row, i64)>,
    mass: i64,
}

impl View for ZSet {
    type V = Seq<ZEntryV>;

    closed spec fn view(&self) -> Seq<ZEntryV> {
        Seq::new(self.entries@.len(), |i: int| (self.entries@[i].0@, self.entries@[i].1 as int))
    }
}

impl Clone for ZSet {
    fn clone(&self) -> (r: Self)
        ensures
            r@ == self@,
            r.mass_spec() == self.mass_spec(),
    {
        let mut entries: Vec<(Row, i64)> = Vec::new();
        let n = self.entries.len();
        for i in 0..n
            invariant
                n == self@.len(),
                entries@.len() == i,
                forall|j: int|
                    0 <= j < i ==> (entries@[j].0@, entries@[j].1 as int) == self@[j],
        {
            let row = self.entries[i].0.clone();
            let w = self.entries[i].1;
            entries.push((row, w));
        }
        let r = ZSet { entries, mass: self.mass };
        proof {
            assert(r@ =~= self@);
        }
        r
    }
}

impl ZSet {
    /// The mass this Z-set says it has.
    pub closed spec fn mass_spec(self) -> int {
        self.mass as int
    }

    /// The held mass agrees with the entries; every operation here is
    /// then free of overflow.
    pub open spec fn wf(self) -> bool {
        self.mass_spec() == l1_norm(self@) && 0 <= self.mass_spec() <= i64::MAX as int
    }

    /// The net weight of row `k` in this Z-set.
    pub open spec fn weight(self, k: Seq<ValueV>) -> int {
        weight_of(self@, k)
    }

    /// Every row's net weight is zero.
    pub open spec fn is_zero_spec(self) -> bool {
        forall|k: Seq<ValueV>| weight_of(self@, k) == 0
    }

    /// The empty Z-set.
    pub fn new() -> (r: Self)
        ensures
            r@ == Seq::<ZEntryV>::empty(),
            r.wf(),
    {
        let r = ZSet { entries: Vec::new(), mass: 0 };
        proof {
            assert(r@ =~= Seq::<ZEntryV>::empty());
        }
        r
    }

    /// The mass held.
    pub fn mass(&self) -> (m: i64)
        ensures
            m as int == self.mass_spec(),
    {
        self.mass
    }

    pub fn is_empty(&self) -> (b: bool)
        ensures
            b == (self@.len() == 0),
    {
        self.entries.len() == 0
    }

    pub fn len(&self) -> (n: usize)
        ensures
            n == self@.len(),
    {
        self.entries.len()
    }

    /// The `i`-th weighted row.
    pub fn entry(&self, i: usize) -> (e: &(Row, i64))
        requires
            i < self@.len(),
        ensures
            e.0@ == self@[i as int].0,
            e.1 as int == self@[i as int].1,
    {
        &self.entries[i]
    }

    /// Append one weighted row.
    pub fn push_weighted(&mut self, row: Row, w: i64)
        requires
            old(self).wf(),
            l1_norm(old(self)@) + vstd::math::abs(w as int) <= i64::MAX as int,
        ensures
            final (self)@ == old(self)@.push((row@, w as int)),
            final (self).wf(),
    {
        let ghost r_view = row@;
        let wa: i64 = if w >= 0 {
            w
        } else {
            -w
        };
        self.entries.push((row, w));
        self.mass = self.mass + wa;
        proof {
            assert(self@ =~= old(self)@.push((r_view, w as int)));
            assert(self@.drop_last() =~= old(self)@);
        }
    }

    /// Add another Z-set into this one; weights of equal rows accumulate.
    pub fn add(&mut self, other: &ZSet)
        requires
            old(self).wf(),
            other.wf(),
            l1_norm(old(self)@) + l1_norm(other@) <= i64::MAX as int,
        ensures
            final (self)@ == old(self)@ + other@,
            final (self).wf(),
            forall|k: Seq<ValueV>|
                #[trigger] weight_of(final (self)@, k) == weight_of(old(self)@, k) + weight_of(
                    other@,
                    k,
                ),
    {
        let n = other.entries.len();
        proof {
            assert(self@ =~= old(self)@ + other@.take(0));
        }
        for i in 0..n
            invariant
                n == other@.len(),
                other.wf(),
                self.mass == old(self).mass,
                self@ == old(self)@ + other@.take(i as int),
                l1_norm(old(self)@) + l1_norm(other@) <= i64::MAX as int,
                old(self).wf(),
        {
            let row = other.entries[i].0.clone();
            let w = other.entries[i].1;
            self.entries.push((row, w));
            proof {
                assert(self@ =~= old(self)@ + other@.take(i + 1)) by {
                    assert(other@.take(i + 1) =~= other@.take(i as int).push(other@[i as int]));
                    assert(self@ =~= (old(self)@ + other@.take(i as int)).push(other@[i as int]));
                }
            }
        }
        self.mass = self.mass + other.mass;
        proof {
            assert(other@.take(n as int) =~= other@);
            lemma_l1_nonneg(old(self)@);
            lemma_l1_nonneg(other@);
            lemma_concat(old(self)@, other@, Seq::empty());
            assert forall|k: Seq<ValueV>|
                #[trigger] weight_of(self@, k) == weight_of(old(self)@, k) + weight_of(
                    other@,
                    k,
                ) by {
                lemma_concat(old(self)@, other@, k);
            }
        }
    }

    /// The net weight of `row`, computed by one pass over the entries.
    pub fn weight_of_row(&self, row: &Row) -> (w: i64)
        requires
            self.wf(),
        ensures
            w as int == self.weight(row@),
    {
        let mut total: i64 = 0;
        let n = self.entries.len();
        for i in 0..n
            invariant
                n == self@.len(),
                self.wf(),
                total as int == weight_of(self@.take(i as int), row@),
        {
            proof {
                lemma_take_succ(self@, i as int, row@);
                lemma_l1_take_le(self@, i + 1);
                lemma_weight_bounded(self@.take(i + 1), row@);
                lemma_l1_nonneg(self@.take(i + 1));
            }
            if self.entries[i].0 == *row {
                total = total + self.entries[i].1;
            }
        }
        proof {
            assert(self@.take(n as int) =~= self@);
        }
        total
    }

    /// Negate every weight; the mass is unchanged.
    pub fn negate(&mut self)
        requires
            old(self).wf(),
        ensures
            final (self)@.len() == old(self)@.len(),
            forall|i: int|
                0 <= i < old(self)@.len() ==> final (self)@[i] == (
                old(self)@[i].0,
                -old(self)@[i].1,
                ),
            final (self).wf(),
            forall|k: Seq<ValueV>| #[trigger]
                weight_of(final (self)@, k) == -weight_of(old(self)@, k),
    {
        let mut out: Vec<(Row, i64)> = Vec::new();
        let n = self.entries.len();
        for i in 0..n
            invariant
                n == self@.len(),
                self.wf(),
                self@ == old(self)@,
                out@.len() == i,
                forall|j: int|
                    0 <= j < i ==> (out@[j].0@, out@[j].1 as int) == (self@[j].0, -self@[j].1),
        {
            proof {
                lemma_entry_bounded(self@, i as int);
            }
            let row = self.entries[i].0.clone();
            let w = self.entries[i].1;
            out.push((row, -w));
        }
        self.entries = out;
        proof {
            lemma_negated_weights(old(self)@, self@);
        }
    }

    /// The minimal form of this Z-set: equal rows merged, zero-weight
    /// rows removed; every row keeps its net weight.
    pub fn consolidate(&self) -> (r: ZSet)
        requires
            self.wf(),
        ensures
            consolidated(r@),
            forall|k: Seq<ValueV>| #[trigger] weight_of(r@, k) == weight_of(self@, k),
            l1_norm(r@) <= l1_norm(self@),
            r.wf(),
    {
        let mut out = ZSet { entries: Vec::new(), mass: 0 };
        let n = self.entries.len();
        proof {
            assert(out@ =~= Seq::<ZEntryV>::empty());
        }
        for i in 0..n
            invariant
                n == self@.len(),
                self.wf(),
                out.mass as int == l1_norm(out@),
                0 <= out.mass as int <= l1_norm(self@),
                distinct_keys(out@),
                forall|p: int|
                    0 <= p < out@.len() ==> (#[trigger] out@[p]).1 == weight_of(self@, out@[p].0)
                        && out@[p].1 != 0 && occurs_before(self@, out@[p].0, i as int),
                forall|k: Seq<ValueV>|
                    occurs_before(self@, k, i as int) && weight_of(self@, k) != 0
                        ==> #[trigger] contains_key(out@, k),
        {
            let ghost key = self@[i as int].0;
            let ghost pre = out@;
            let mut seen = false;
            for j in 0..i
                invariant
                    n == self@.len(),
                    i < n,
                    seen == occurs_before(self@, key, j as int),
                    key == self@[i as int].0,
            {
                if self.entries[j].0 == self.entries[i].0 {
                    seen = true;
                    proof {
                        assert((self@[j as int]).0 == key);
                    }
                } else {
                    proof {
                        assert(seen == occurs_before(self@, key, j + 1)) by {
                            if occurs_before(self@, key, j + 1) {
                                let p = choose|p: int|
                                    0 <= p < j + 1 && p < self@.len() && (#[trigger] self@[p]).0
                                        == key;
                                if p < j {
                                    assert(occurs_before(self@, key, j as int));
                                }
                            }
                        }
                    }
                }
            }
            if !seen {
                let mut total: i64 = 0;
                for m in 0..n
                    invariant
                        n == self@.len(),
                        i < n,
                        self.wf(),
                        key == self@[i as int].0,
                        total as int == weight_of(self@.take(m as int), key),
                {
                    proof {
                        lemma_take_succ(self@, m as int, key);
                        lemma_l1_take_le(self@, m + 1);
                        lemma_weight_bounded(self@.take(m + 1), key);
                    }
                    if self.entries[m].0 == self.entries[i].0 {
                        total = total + self.entries[m].1;
                    }
                }
                proof {
                    assert(self@.take(n as int) =~= self@);
                }
                if total != 0 {
                    proof {
                        lemma_weight_bounded(self@, key);
                    }
                    let ta: i64 = if total >= 0 {
                        total
                    } else {
                        -total
                    };
                    let row = self.entries[i].0.clone();
                    out.entries.push((row, total));
                    proof {
                        assert(out@ =~= pre.push((key, total as int)));
                        lemma_consolidate_step_new(self@, pre, key, total as int, i as int);
                        assert(out@.drop_last() =~= pre);
                        assert(l1_norm(out@) == l1_norm(pre) + vstd::math::abs(total as int));
                        lemma_consolidated_mass(out@, self@);
                    }
                    out.mass = out.mass + ta;
                } else {
                    proof {
                        lemma_consolidate_step_zero(self@, pre, key, i as int);
                    }
                }
            } else {
                proof {
                    lemma_consolidate_step_seen(self@, pre, key, i as int);
                }
            }
        }
        proof {
            assert forall|k: Seq<ValueV>| #[trigger]
                weight_of(out@, k) == weight_of(self@, k) by {
                if contains_key(out@, k) {
                    let p = choose|p: int| 0 <= p < out@.len() && (#[trigger] out@[p]).0 == k;
                    lemma_weight_distinct_at(out@, p);
                } else {
                    lemma_weight_absent(out@, k);
                    if contains_key(self@, k) {
                        lemma_contains_occurs(self@, k);
                        assert(weight_of(self@, k) == 0) by {
                            if weight_of(self@, k) != 0 {
                                assert(contains_key(out@, k));
                            }
                        }
                    } else {
                        lemma_weight_absent(self@, k);
                    }
                }
            }
            lemma_consolidated_mass(out@, self@);
        }
        out
    }
}

proof fn lemma_occurs_mono(s: Seq<ZEntryV>, k: Seq<ValueV>, n1: int, n2: int)
    requires
        occurs_before(s, k, n1),
        n1 <= n2,
    ensures
        occurs_before(s, k, n2),
{
    let i = choose|i: int| 0 <= i < n1 && i < s.len() && (#[trigger] s[i]).0 == k;
    assert((s[i]).0 == k);
}

proof fn lemma_contains_push(pre: Seq<ZEntryV>, e: ZEntryV, k: Seq<ValueV>)
    requires
        contains_key(pre, k),
    ensures
        contains_key(pre.push(e), k),
{
    let i = choose|i: int| 0 <= i < pre.len() && pre[i].0 == k;
    assert(pre.push(e)[i].0 == k);
}

/// The invariants of one consolidation round, carried from position `i`
/// to `i + 1` when the row at `i` is new and its net weight is nonzero,
/// so its entry is appended.
proof fn lemma_consolidate_step_new(
    s: Seq<ZEntryV>,
    pre: Seq<ZEntryV>,
    key: Seq<ValueV>,
    w: int,
    i: int,
)
    requires
        0 <= i < s.len(),
        s[i].0 == key,
        !occurs_before(s, key, i),
        w == weight_of(s, key),
        w != 0,
        distinct_keys(pre),
        forall|p: int|
            0 <= p < pre.len() ==> (#[trigger] pre[p]).1 == weight_of(s, pre[p].0) && pre[p].1 != 0
                && occurs_before(s, pre[p].0, i),
        forall|k: Seq<ValueV>|
            occurs_before(s, k, i) && weight_of(s, k) != 0 ==> #[trigger] contains_key(pre, k),
    ensures
        distinct_keys(pre.push((key, w))),
        forall|p: int|
            0 <= p < pre.push((key, w)).len() ==> (#[trigger] pre.push((key, w))[p]).1 == weight_of(
                s,
                pre.push((key, w))[p].0,
            ) && pre.push((key, w))[p].1 != 0 && occurs_before(
                s,
                pre.push((key, w))[p].0,
                i + 1,
            ),
        forall|k: Seq<ValueV>|
            occurs_before(s, k, i + 1) && weight_of(s, k) != 0 ==> #[trigger] contains_key(
                pre.push((key, w)),
                k,
            ),
{
    let t = pre.push((key, w));
    assert forall|p: int| 0 <= p < pre.len() implies (#[trigger] pre[p]).0 != key by {
        if pre[p].0 == key {
            assert(occurs_before(s, key, i));
        }
    }
    assert forall|p: int, q: int| 0 <= p < q < t.len() implies t[p].0 != t[q].0 by {
        if q < pre.len() {
            assert(t[p] == pre[p] && t[q] == pre[q]);
        } else {
            assert(t[q].0 == key && t[p] == pre[p]);
        }
    }
    assert forall|p: int|
        0 <= p < t.len() implies (#[trigger] t[p]).1 == weight_of(s, t[p].0) && t[p].1 != 0
            && occurs_before(s, t[p].0, i + 1) by {
        if p < pre.len() {
            assert(t[p] == pre[p]);
            lemma_occurs_mono(s, pre[p].0, i, i + 1);
        } else {
            assert(t[p] == (key, w));
            assert((s[i]).0 == key);
        }
    }
    assert forall|k: Seq<ValueV>|
        occurs_before(s, k, i + 1) && weight_of(s, k) != 0 implies #[trigger] contains_key(
        t,
        k,
    ) by {
        let p = choose|p: int| 0 <= p < i + 1 && p < s.len() && (#[trigger] s[p]).0 == k;
        if p < i {
            assert(occurs_before(s, k, i));
            lemma_contains_push(pre, (key, w), k);
        } else {
            assert(k == key);
            assert(t[pre.len() as int].0 == k);
        }
    }
}

/// The same invariants carried to `i + 1` when the row at `i` is new but
/// its net weight is zero, so nothing is appended.
proof fn lemma_consolidate_step_zero(s: Seq<ZEntryV>, pre: Seq<ZEntryV>, key: Seq<ValueV>, i: int)
    requires
        0 <= i < s.len(),
        s[i].0 == key,
        !occurs_before(s, key, i),
        weight_of(s, key) == 0,
        distinct_keys(pre),
        forall|p: int|
            0 <= p < pre.len() ==> (#[trigger] pre[p]).1 == weight_of(s, pre[p].0) && pre[p].1 != 0
                && occurs_before(s, pre[p].0, i),
        forall|k: Seq<ValueV>|
            occurs_before(s, k, i) && weight_of(s, k) != 0 ==> #[trigger] contains_key(pre, k),
    ensures
        forall|p: int|
            0 <= p < pre.len() ==> (#[trigger] pre[p]).1 == weight_of(s, pre[p].0) && pre[p].1 != 0
                && occurs_before(s, pre[p].0, i + 1),
        forall|k: Seq<ValueV>|
            occurs_before(s, k, i + 1) && weight_of(s, k) != 0 ==> #[trigger] contains_key(pre, k),
{
    assert forall|p: int|
        0 <= p < pre.len() implies (#[trigger] pre[p]).1 == weight_of(s, pre[p].0) && pre[p].1 != 0
            && occurs_before(s, pre[p].0, i + 1) by {
        lemma_occurs_mono(s, pre[p].0, i, i + 1);
    }
    assert forall|k: Seq<ValueV>|
        occurs_before(s, k, i + 1) && weight_of(s, k) != 0 implies #[trigger] contains_key(
        pre,
        k,
    ) by {
        let p = choose|p: int| 0 <= p < i + 1 && p < s.len() && (#[trigger] s[p]).0 == k;
        if p < i {
            assert(occurs_before(s, k, i));
        } else {
            assert(k == key);
        }
    }
}

/// The same invariants carried to `i + 1` when the row at `i` occurred
/// earlier, so it was already handled.
proof fn lemma_consolidate_step_seen(s: Seq<ZEntryV>, pre: Seq<ZEntryV>, key: Seq<ValueV>, i: int)
    requires
        0 <= i < s.len(),
        s[i].0 == key,
        occurs_before(s, key, i),
        distinct_keys(pre),
        forall|p: int|
            0 <= p < pre.len() ==> (#[trigger] pre[p]).1 == weight_of(s, pre[p].0) && pre[p].1 != 0
                && occurs_before(s, pre[p].0, i),
        forall|k: Seq<ValueV>|
            occurs_before(s, k, i) && weight_of(s, k) != 0 ==> #[trigger] contains_key(pre, k),
    ensures
        forall|p: int|
            0 <= p < pre.len() ==> (#[trigger] pre[p]).1 == weight_of(s, pre[p].0) && pre[p].1 != 0
                && occurs_before(s, pre[p].0, i + 1),
        forall|k: Seq<ValueV>|
            occurs_before(s, k, i + 1) && weight_of(s, k) != 0 ==> #[trigger] contains_key(pre, k),
{
    assert forall|p: int|
        0 <= p < pre.len() implies (#[trigger] pre[p]).1 == weight_of(s, pre[p].0) && pre[p].1 != 0
            && occurs_before(s, pre[p].0, i + 1) by {
        lemma_occurs_mono(s, pre[p].0, i, i + 1);
    }
    assert forall|k: Seq<ValueV>|
        occurs_before(s, k, i + 1) && weight_of(s, k) != 0 implies #[trigger] contains_key(
        pre,
        k,
    ) by {
        let p = choose|p: int| 0 <= p < i + 1 && p < s.len() && (#[trigger] s[p]).0 == k;
        if p < i {
            assert(occurs_before(s, k, i));
        } else {
            assert(k == key);
            assert(occurs_before(s, k, i));
        }
    }
}

/// Flushing an empty buffer is idempotent: the destination's entries
/// are exactly as they were.
pub proof fn lemma_flush_empty_idempotent(d: Seq<ZEntryV>)
    ensures
        d + Seq::<ZEntryV>::empty() == d,
{
    assert(d + Seq::<ZEntryV>::empty() =~= d);
}

/// The weight contributed by a one-entry sequence.
pub proof fn lemma_weight_single(e: ZEntryV, k: Seq<ValueV>)
    ensures
        weight_of(seq![e], k) == if e.0 == k {
            e.1
        } else {
            0
        },
{
    assert(seq![e].drop_last() =~= Seq::<ZEntryV>::empty());
    assert(weight_of(Seq::<ZEntryV>::empty(), k) == 0);
    assert(seq![e].last() == e);
}

/// Cancellation law: inserting a row (weight `+1`) and then deleting it
/// (weight `-1`) before the next step leaves every net weight exactly as
/// it was.
pub proof fn lemma_insert_delete_cancel(b: Seq<ZEntryV>, r: Seq<ValueV>, k: Seq<ValueV>)
    ensures
        weight_of(b.push((r, 1)).push((r, -1)), k) == weight_of(b, k),
{
    let s1 = b.push((r, 1));
    let s2 = s1.push((r, -1));
    assert(s2.drop_last() =~= s1);
    assert(s1.drop_last() =~= b);
    assert(weight_of(s2, k) == weight_of(s1, k) + if s2.last().0 == k {
        -1int
    } else {
        0int
    });
    assert(weight_of(s1, k) == weight_of(b, k) + if s1.last().0 == k {
        1int
    } else {
        0int
    });
}

/// Cancellation law, seen from the consolidated output: a row inserted
/// once and deleted once before the step is absent from the consolidated
/// result, provided it carried no other weight.
pub proof fn lemma_insert_delete_invisible(b: Seq<ZEntryV>, r: Seq<ValueV>, t: Seq<ZEntryV>)
    requires
        weight_of(b, r) == 0,
        consolidated(t),
        forall|k: Seq<ValueV>| #[trigger]
            weight_of(t, k) == weight_of(b.push((r, 1)).push((r, -1)), k),
    ensures
        !contains_key(t, r),
{
    lemma_insert_delete_cancel(b, r, r);
    lemma_consolidated_zero_absent(t, r);
}

/// Fork commutativity: two forked buffers flushed into the same
/// destination contribute the same net weights in either order.
pub proof fn lemma_fork_flush_commutes(
    d: Seq<ZEntryV>,
    b1: Seq<ZEntryV>,
    b2: Seq<ZEntryV>,
    k: Seq<ValueV>,
)
    ensures
        weight_of(d + b1 + b2, k) == weight_of(d + b2 + b1, k),
{
    lemma_concat(d + b1, b2, k);
    lemma_concat(d, b1, k);
    lemma_concat(d + b2, b1, k);
    lemma_concat(d, b2, k);
}

/// Fork commutativity, counted: two forked buffers inserting one row
/// each amount to one buffer inserting it twice; either way the row's
/// net weight grows by exactly two.
pub proof fn lemma_two_singles_one_double(d: Seq<ZEntryV>, r: Seq<ValueV>, k: Seq<ValueV>)
    ensures
        weight_of(d + seq![(r, 1int)] + seq![(r, 1int)], k) == weight_of(
            d + seq![(r, 1int), (r, 1int)],
            k,
        ),
        weight_of(d + seq![(r, 1int), (r, 1int)], k) == weight_of(d, k) + if k == r {
            2int
        } else {
            0int
        },
{
    lemma_concat(d + seq![(r, 1int)], seq![(r, 1int)], k);
    lemma_concat(d, seq![(r, 1int)], k);
    lemma_concat(d, seq![(r, 1int), (r, 1int)], k);
    lemma_weight_single((r, 1int), k);
    assert(seq![(r, 1int), (r, 1int)].drop_last() =~= seq![(r, 1int)]);
}

/// Pointwise negation flips every net weight and keeps the mass.
pub proof fn lemma_negated_weights(s: Seq<ZEntryV>, t: Seq<ZEntryV>)
    requires
        t.len() == s.len(),
        forall|i: int| 0 <= i < s.len() ==> #[trigger] t[i] == (s[i].0, -s[i].1),
    ensures
        l1_norm(t) == l1_norm(s),
        forall|k: Seq<ValueV>| #[trigger] weight_of(t, k) == -weight_of(s, k),
    decreases s.len(),
{
    if s.len() > 0 {
        lemma_negated_weights(s.drop_last(), t.drop_last());
        assert forall|k: Seq<ValueV>| #[trigger] weight_of(t, k) == -weight_of(s, k) by {
            assert(weight_of(t.drop_last(), k) == -weight_of(s.drop_last(), k));
            assert(t.last() == (s.last().0, -s.last().1));
        }
    }
}

} // verus!
