use vstd::prelude::*;

verus! {

/// The smaller of two optional values; `None` stands for "no value yet".
pub open spec fn opt_min64(a: Option<i64>, b: Option<i64>) -> Option<i64> {
    match (a, b) {
        (Option::None, y) => y,
        (x, Option::None) => x,
        (Option::Some(x), Option::Some(y)) => Some(
            if x <= y {
                x
            } else {
                y
            },
        ),
    }
}

pub open spec fn opt_max64(a: Option<i64>, b: Option<i64>) -> Option<i64> {
    match (a, b) {
        (Option::None, y) => y,
        (x, Option::None) => x,
        (Option::Some(x), Option::Some(y)) => Some(
            if x >= y {
                x
            } else {
                y
            },
        ),
    }
}

/// Checked sum: `None` (overflow seen) is sticky.
pub open spec fn opt_sum64(a: Option<i64>, b: Option<i64>) -> Option<i64> {
    match (a, b) {
        (Option::Some(x), Option::Some(y)) => if i64::MIN <= x + y <= i64::MAX {
            Some((x + y) as i64)
        } else {
            None
        },
        _ => None,
    }
}

pub open spec fn opt_min128(a: Option<i128>, b: Option<i128>) -> Option<i128> {
    match (a, b) {
        (Option::None, y) => y,
        (x, Option::None) => x,
        (Option::Some(x), Option::Some(y)) => Some(
            if x <= y {
                x
            } else {
                y
            },
        ),
    }
}

pub open spec fn opt_max128(a: Option<i128>, b: Option<i128>) -> Option<i128> {
    match (a, b) {
        (Option::None, y) => y,
        (x, Option::None) => x,
        (Option::Some(x), Option::Some(y)) => Some(
            if x >= y {
                x
            } else {
                y
            },
        ),
    }
}

pub open spec fn opt_sum128(a: Option<i128>, b: Option<i128>) -> Option<i128> {
    match (a, b) {
        (Option::Some(x), Option::Some(y)) => if i128::MIN <= x + y <= i128::MAX {
            Some((x + y) as i128)
        } else {
            None
        },
        _ => None,
    }
}

/// The smallest value of a sequence, `None` when it is empty.
pub open spec fn seq_min64(s: Seq<i64>) -> Option<i64>
    decreases s.len(),
{
    if s.len() == 0 {
        None
    } else {
        opt_min64(seq_min64(s.drop_last()), Some(s.last()))
    }
}

pub open spec fn seq_max64(s: Seq<i64>) -> Option<i64>
    decreases s.len(),
{
    if s.len() == 0 {
        None
    } else {
        opt_max64(seq_max64(s.drop_last()), Some(s.last()))
    }
}

/// The mathematical sum of a sequence.
pub open spec fn seq_sum64(s: Seq<i64>) -> int
    decreases s.len(),
{
    if s.len() == 0 {
        0
    } else {
        seq_sum64(s.drop_last()) + s.last()
    }
}

pub open spec fn seq_min128(s: Seq<i128>) -> Option<i128>
    decreases s.len(),
{
    if s.len() == 0 {
        None
    } else {
        opt_min128(seq_min128(s.drop_last()), Some(s.last()))
    }
}

pub open spec fn seq_max128(s: Seq<i128>) -> Option<i128>
    decreases s.len(),
{
    if s.len() == 0 {
        None
    } else {
        opt_max128(seq_max128(s.drop_last()), Some(s.last()))
    }
}

pub open spec fn seq_sum128(s: Seq<i128>) -> int
    decreases s.len(),
{
    if s.len() == 0 {
        0
    } else {
        seq_sum128(s.drop_last()) + s.last()
    }
}

/// How many values of a boolean sequence are true.
pub open spec fn count_true(s: Seq<bool>) -> int
    decreases s.len(),
{
    if s.len() == 0 {
        0
    } else {
        count_true(s.drop_last()) + (if s.last() {
            1int
        } else {
            0int
        })
    }
}

/// The saturating total byte length of a sequence of byte strings.
pub open spec fn sat_len_sum(s: Seq<Seq<u8>>) -> u64
    decreases s.len(),
{
    if s.len() == 0 {
        0
    } else {
        sat_add64(sat_len_sum(s.drop_last()) as nat, s.last().len())
    }
}

/// The lexicographically smallest byte string, `None` when none was seen.
pub open spec fn seq_min_lex(s: Seq<Seq<u8>>) -> Option<Seq<u8>>
    decreases s.len(),
{
    if s.len() == 0 {
        None
    } else {
        match seq_min_lex(s.drop_last()) {
            None => Some(s.last()),
            Some(m) => if lex_less(s.last(), m) {
                Some(s.last())
            } else {
                Some(m)
            },
        }
    }
}

pub open spec fn seq_max_lex(s: Seq<Seq<u8>>) -> Option<Seq<u8>>
    decreases s.len(),
{
    if s.len() == 0 {
        None
    } else {
        match seq_max_lex(s.drop_last()) {
            None => Some(s.last()),
            Some(m) => if lex_less(m, s.last()) {
                Some(s.last())
            } else {
                Some(m)
            },
        }
    }
}

/// The fold of a concatenation splits over the parts.
pub proof fn lemma_seq_sum64_concat(a: Seq<i64>, b: Seq<i64>)
    ensures
        seq_sum64(a + b) == seq_sum64(a) + seq_sum64(b),
    decreases b.len(),
{
    if b.len() == 0 {
        assert(a + b =~= a);
    } else {
        lemma_seq_sum64_concat(a, b.drop_last());
        assert((a + b).drop_last() =~= a + b.drop_last());
        assert((a + b).last() == b.last());
    }
}

pub proof fn lemma_seq_sum128_concat(a: Seq<i128>, b: Seq<i128>)
    ensures
        seq_sum128(a + b) == seq_sum128(a) + seq_sum128(b),
    decreases b.len(),
{
    if b.len() == 0 {
        assert(a + b =~= a);
    } else {
        lemma_seq_sum128_concat(a, b.drop_last());
        assert((a + b).drop_last() =~= a + b.drop_last());
        assert((a + b).last() == b.last());
    }
}

/// Saturating addition is associative, so length totals fold either way.
pub proof fn lemma_sat_add64_assoc(a: u64, b: nat, c: nat)
    ensures
        sat_add64(sat_add64(a as nat, b) as nat, c) == sat_add64(a as nat, (b + c) as nat),
{
}

/// The lexicographic minimum of two optional byte strings.
pub open spec fn opt_lex_min(a: Option<Seq<u8>>, b: Option<Seq<u8>>) -> Option<Seq<u8>> {
    match (a, b) {
        (Option::None, y) => y,
        (x, Option::None) => x,
        (Option::Some(x), Option::Some(y)) => if lex_less(y, x) {
            Some(y)
        } else {
            Some(x)
        },
    }
}

pub open spec fn opt_lex_max(a: Option<Seq<u8>>, b: Option<Seq<u8>>) -> Option<Seq<u8>> {
    match (a, b) {
        (Option::None, y) => y,
        (x, Option::None) => x,
        (Option::Some(x), Option::Some(y)) => if lex_less(x, y) {
            Some(y)
        } else {
            Some(x)
        },
    }
}

/// Lexicographic order is total and transitive enough for the combiner
/// laws: the byte-string minimum associates.
pub proof fn lemma_lex_less_total(a: Seq<u8>, b: Seq<u8>)
    ensures
        lex_less(a, b) ==> !lex_less(b, a),
        !lex_less(a, b) && !lex_less(b, a) ==> a =~= b,
    decreases a.len(),
{
    if a.len() > 0 && b.len() > 0 && a[0] == b[0] {
        lemma_lex_less_total(a.skip(1), b.skip(1));
        if !lex_less(a, b) && !lex_less(b, a) {
            assert(a.skip(1) =~= b.skip(1));
            assert forall|i: int| 0 <= i < a.len() implies a[i] == b[i] by {
                if i > 0 {
                    assert(a.skip(1)[i - 1] == b.skip(1)[i - 1]);
                }
            }
        }
    }
}

pub proof fn lemma_lex_less_trans(a: Seq<u8>, b: Seq<u8>, c: Seq<u8>)
    requires
        lex_less(a, b),
        lex_less(b, c),
    ensures
        lex_less(a, c),
    decreases a.len(),
{
    if a.len() > 0 && b.len() > 0 && c.len() > 0 && a[0] == b[0] && b[0] == c[0] {
        lemma_lex_less_trans(a.skip(1), b.skip(1), c.skip(1));
    }
}

pub proof fn lemma_opt_lex_min_assoc(a: Option<Seq<u8>>, b: Option<Seq<u8>>, c: Option<Seq<u8>>)
    ensures
        opt_lex_min(opt_lex_min(a, b), c) == opt_lex_min(a, opt_lex_min(b, c)),
        opt_lex_max(opt_lex_max(a, b), c) == opt_lex_max(a, opt_lex_max(b, c)),
{
    if a is Some && b is Some && c is Some {
        let (x, y, z) = (a.unwrap(), b.unwrap(), c.unwrap());
        lemma_lex_less_total(x, y);
        lemma_lex_less_total(y, z);
        lemma_lex_less_total(x, z);
        if lex_less(y, x) && lex_less(z, y) {
            lemma_lex_less_trans(z, y, x);
        }
        if lex_less(x, y) && lex_less(y, z) {
            lemma_lex_less_trans(x, y, z);
        }
        if lex_less(y, z) && lex_less(z, x) {
            lemma_lex_less_trans(y, z, x);
        }
        if lex_less(z, x) && lex_less(x, y) {
            lemma_lex_less_trans(z, x, y);
        }
    }
}

/// Lexicographic byte order.
pub open spec fn lex_less(a: Seq<u8>, b: Seq<u8>) -> bool
    decreases a.len(),
{
    if b.len() == 0 {
        false
    } else if a.len() == 0 {
        true
    } else if a[0] < b[0] {
        true
    } else if a[0] > b[0] {
        false
    } else {
        lex_less(a.skip(1), b.skip(1))
    }
}

/// Compare two byte strings lexicographically.
#[verifier::loop_isolation(false)]
pub fn bytes_less(a: &[u8], b: &[u8]) -> (r: bool)
    ensures
        r == lex_less(a@, b@),
{
    proof {
        assert(a@.skip(0) =~= a@);
        assert(b@.skip(0) =~= b@);
    }
    let mut i: usize = 0;
    loop
        invariant
            i <= a@.len() && i <= b@.len(),
            forall|j: int| 0 <= j < i ==> a@[j] == b@[j],
            lex_less(a@, b@) == lex_less(a@.skip(i as int), b@.skip(i as int)),
        decreases a@.len() - i,
    {
        if i == b.len() {
            return false;
        }
        if i == a.len() {
            return true;
        }
        let x = a[i];
        let y = b[i];
        if x < y {
            return true;
        }
        if x > y {
            return false;
        }
        i += 1;
        proof {
            assert(a@.skip(i as int) =~= a@.skip(i - 1).skip(1));
            assert(b@.skip(i as int) =~= b@.skip(i - 1).skip(1));
        }
    }
}

/// Counts shared by every statistics flavor: `num_values` includes nulls,
/// `num_present` does not.
#[derive(Clone, Copy)]
pub struct GenericStatistics {
    pub num_values: u64,
    pub num_present: u64,
}

impl GenericStatistics {
    pub open spec fn wf(&self) -> bool {
        self.num_present <= self.num_values
    }

    pub open spec fn has_null(&self) -> bool {
        self.num_values != self.num_present
    }

    pub fn new() -> (r: GenericStatistics)
        ensures
            r.wf(),
            r.num_values == 0,
            r.num_present == 0,
    {
        GenericStatistics { num_values: 0, num_present: 0 }
    }

    pub fn update(&mut self, present: bool)
        requires
            old(self).wf(),
            old(self).num_values < u64::MAX,
        ensures
            final(self).wf(),
            final(self).num_values == old(self).num_values + 1,
            final(self).num_present == old(self).num_present + (if present {
                1int
            } else {
                0int
            }),
    {
        self.num_values = self.num_values + 1;
        if present {
            self.num_present = self.num_present + 1;
        }
    }

    pub fn merge(&mut self, rhs: &GenericStatistics)
        requires
            old(self).wf(),
            rhs.wf(),
            old(self).num_values + rhs.num_values <= u64::MAX,
        ensures
            final(self).wf(),
            final(self).num_values == old(self).num_values + rhs.num_values,
            final(self).num_present == old(self).num_present + rhs.num_present,
    {
        self.num_values = self.num_values + rhs.num_values;
        self.num_present = self.num_present + rhs.num_present;
    }
}

/// Counts for struct columns.
#[derive(Clone, Copy)]
pub struct StructStatistics {
    pub num_values: u64,
    pub num_present: u64,
}

impl StructStatistics {
    pub open spec fn wf(&self) -> bool {
        self.num_present <= self.num_values
    }

    pub fn new() -> (r: StructStatistics)
        ensures
            r.wf(),
            r.num_values == 0,
            r.num_present == 0,
    {
        StructStatistics { num_values: 0, num_present: 0 }
    }

    pub fn update(&mut self, present: bool)
        requires
            old(self).wf(),
            old(self).num_values < u64::MAX,
        ensures
            final(self).wf(),
            final(self).num_values == old(self).num_values + 1,
            final(self).num_present == old(self).num_present + (if present {
                1int
            } else {
                0int
            }),
    {
        self.num_values = self.num_values + 1;
        if present {
            self.num_present = self.num_present + 1;
        }
    }

    pub fn merge(&mut self, rhs: &StructStatistics)
        requires
            old(self).wf(),
            rhs.wf(),
            old(self).num_values + rhs.num_values <= u64::MAX,
        ensures
            final(self).wf(),
            final(self).num_values == old(self).num_values + rhs.num_values,
            final(self).num_present == old(self).num_present + rhs.num_present,
    {
        self.num_values = self.num_values + rhs.num_values;
        self.num_present = self.num_present + rhs.num_present;
    }
}

/// Counts of true and false values for boolean columns.
#[derive(Clone, Copy)]
pub struct BooleanStatistics {
    pub num_values: u64,
    pub num_true: u64,
    pub num_false: u64,
}

impl BooleanStatistics {
    pub open spec fn wf(&self) -> bool {
        self.num_true + self.num_false <= self.num_values
    }

    pub open spec fn num_present(&self) -> int {
        self.num_true + self.num_false
    }

    pub open spec fn has_null(&self) -> bool {
        self.num_values != self.num_present()
    }

    pub fn new() -> (r: BooleanStatistics)
        ensures
            r.wf(),
            r.num_values == 0,
            r.num_true == 0,
            r.num_false == 0,
    {
        BooleanStatistics { num_values: 0, num_true: 0, num_false: 0 }
    }

    pub fn update(&mut self, x: bool)
        requires
            old(self).wf(),
            old(self).num_values < u64::MAX,
        ensures
            final(self).wf(),
            final(self).num_values == old(self).num_values + 1,
            final(self).num_true == old(self).num_true + (if x {
                1int
            } else {
                0int
            }),
            final(self).num_false == old(self).num_false + (if x {
                0int
            } else {
                1int
            }),
    {
        self.num_values = self.num_values + 1;
        if x {
            self.num_true = self.num_true + 1;
        } else {
            self.num_false = self.num_false + 1;
        }
    }

    pub fn update_null(&mut self)
        requires
            old(self).wf(),
            old(self).num_values < u64::MAX,
        ensures
            final(self).wf(),
            final(self).num_values == old(self).num_values + 1,
            final(self).num_true == old(self).num_true,
            final(self).num_false == old(self).num_false,
    {
        self.num_values = self.num_values + 1;
    }

    pub fn merge(&mut self, rhs: &BooleanStatistics)
        requires
            old(self).wf(),
            rhs.wf(),
            old(self).num_values + rhs.num_values <= u64::MAX,
        ensures
            final(self).wf(),
            final(self).num_values == old(self).num_values + rhs.num_values,
            final(self).num_true == old(self).num_true + rhs.num_true,
            final(self).num_false == old(self).num_false + rhs.num_false,
    {
        self.num_values = self.num_values + rhs.num_values;
        self.num_true = self.num_true + rhs.num_true;
        self.num_false = self.num_false + rhs.num_false;
    }
}

/// Min, max and checked sum for 64-bit integer columns.
#[derive(Clone, Copy)]
pub struct LongStatistics {
    pub num_values: u64,
    pub num_present: u64,
    pub min: Option<i64>,
    pub max: Option<i64>,
    pub sum: Option<i64>,
}

impl LongStatistics {
    pub open spec fn wf(&self) -> bool {
        self.num_present <= self.num_values
    }

    pub open spec fn has_null(&self) -> bool {
        self.num_values != self.num_present
    }

    pub fn new() -> (r: LongStatistics)
        ensures
            r.wf(),
            r.num_values == 0,
            r.num_present == 0,
            r.min is None,
            r.max is None,
            r.sum == Some(0i64),
    {
        LongStatistics { num_values: 0, num_present: 0, min: None, max: None, sum: Some(0) }
    }

    pub fn update(&mut self, x: i64)
        requires
            old(self).wf(),
            old(self).num_values < u64::MAX,
        ensures
            final(self).wf(),
            final(self).num_values == old(self).num_values + 1,
            final(self).num_present == old(self).num_present + 1,
            final(self).min == opt_min64(old(self).min, Some(x)),
            final(self).max == opt_max64(old(self).max, Some(x)),
            final(self).sum == opt_sum64(old(self).sum, Some(x)),
    {
        self.num_values = self.num_values + 1;
        self.num_present = self.num_present + 1;
        self.min = match self.min {
            None => Some(x),
            Some(m) => Some(
                if x < m {
                    x
                } else {
                    m
                },
            ),
        };
        self.max = match self.max {
            None => Some(x),
            Some(m) => Some(
                if x > m {
                    x
                } else {
                    m
                },
            ),
        };
        self.sum = match self.sum {
            None => None,
            Some(s) => s.checked_add(x),
        };
    }

    pub fn update_null(&mut self)
        requires
            old(self).wf(),
            old(self).num_values < u64::MAX,
        ensures
            final(self).wf(),
            final(self).num_values == old(self).num_values + 1,
            final(self).num_present == old(self).num_present,
            final(self).min == old(self).min,
            final(self).max == old(self).max,
            final(self).sum == old(self).sum,
    {
        self.num_values = self.num_values + 1;
    }

    pub fn merge(&mut self, rhs: &LongStatistics)
        requires
            old(self).wf(),
            rhs.wf(),
            old(self).num_values + rhs.num_values <= u64::MAX,
        ensures
            final(self).wf(),
            final(self).num_values == old(self).num_values + rhs.num_values,
            final(self).num_present == old(self).num_present + rhs.num_present,
            final(self).min == opt_min64(old(self).min, rhs.min),
            final(self).max == opt_max64(old(self).max, rhs.max),
            final(self).sum == opt_sum64(old(self).sum, rhs.sum),
    {
        self.num_values = self.num_values + rhs.num_values;
        self.num_present = self.num_present + rhs.num_present;
        self.min = opt_min64_exec(self.min, rhs.min);
        self.max = opt_max64_exec(self.max, rhs.max);
        self.sum = match (self.sum, rhs.sum) {
            (Some(a), Some(b)) => a.checked_add(b),
            _ => None,
        };
    }
}

fn opt_min64_exec(a: Option<i64>, b: Option<i64>) -> (r: Option<i64>)
    ensures
        r == opt_min64(a, b),
{
    match (a, b) {
        (None, y) => y,
        (x, None) => x,
        (Some(x), Some(y)) => Some(
            if x <= y {
                x
            } else {
                y
            },
        ),
    }
}

fn opt_max64_exec(a: Option<i64>, b: Option<i64>) -> (r: Option<i64>)
    ensures
        r == opt_max64(a, b),
{
    match (a, b) {
        (None, y) => y,
        (x, None) => x,
        (Some(x), Some(y)) => Some(
            if x >= y {
                x
            } else {
                y
            },
        ),
    }
}

/// The merge of optional minima is associative and commutative, and so are
/// the other per-field combiners except the checked sum, which fails
/// associativity only where an intermediate sum overflows.
pub proof fn lemma_opt_min64_merge_laws(a: Option<i64>, b: Option<i64>, c: Option<i64>)
    ensures
        opt_min64(opt_min64(a, b), c) == opt_min64(a, opt_min64(b, c)),
        opt_min64(a, b) == opt_min64(b, a),
        opt_max64(opt_max64(a, b), c) == opt_max64(a, opt_max64(b, c)),
        opt_max64(a, b) == opt_max64(b, a),
        opt_sum64(a, b) == opt_sum64(b, a),
{
}

/// The 128-bit combiners enjoy the same laws.
pub proof fn lemma_opt_min128_merge_laws(a: Option<i128>, b: Option<i128>, c: Option<i128>)
    ensures
        opt_min128(opt_min128(a, b), c) == opt_min128(a, opt_min128(b, c)),
        opt_min128(a, b) == opt_min128(b, a),
        opt_max128(opt_max128(a, b), c) == opt_max128(a, opt_max128(b, c)),
        opt_max128(a, b) == opt_max128(b, a),
        opt_sum128(a, b) == opt_sum128(b, a),
{
}

/// The checked sum is associative as long as every intermediate sum stays
/// in range.
pub proof fn lemma_opt_sum64_assoc_in_range(a: i64, b: i64, c: i64)
    requires
        i64::MIN <= a + b <= i64::MAX,
        i64::MIN <= b + c <= i64::MAX,
        i64::MIN <= a + b + c <= i64::MAX,
    ensures
        opt_sum64(opt_sum64(Some(a), Some(b)), Some(c)) == opt_sum64(
            Some(a),
            opt_sum64(Some(b), Some(c)),
        ),
{
}

/// The merge of two integer statistics records, as a value.
pub open spec fn merge_long(a: LongStatistics, b: LongStatistics) -> LongStatistics
    recommends
        a.num_values + b.num_values <= u64::MAX,
        a.num_present + b.num_present <= u64::MAX,
{
    LongStatistics {
        num_values: (a.num_values + b.num_values) as u64,
        num_present: (a.num_present + b.num_present) as u64,
        min: opt_min64(a.min, b.min),
        max: opt_max64(a.max, b.max),
        sum: opt_sum64(a.sum, b.sum),
    }
}

/// Merging statistics is commutative, so row groups may be folded from
/// either side.
pub proof fn lemma_merge_long_commutative(a: LongStatistics, b: LongStatistics)
    ensures
        merge_long(a, b) == merge_long(b, a),
{
}

/// Merging statistics is associative wherever the counts stay in range and
/// no intermediate checked sum overflows, so row-group, stripe and file
/// roll-ups agree however they are grouped.  (An intermediate overflow can
/// break it: summing the largest value, one, and minus one gives `None` when
/// the first two are folded first, but a defined sum the other way.)
pub proof fn lemma_merge_long_associative(a: LongStatistics, b: LongStatistics, c: LongStatistics)
    requires
        a.wf() && b.wf() && c.wf(),
        a.num_values + b.num_values + c.num_values <= u64::MAX,
        (a.sum is Some && b.sum is Some && c.sum is Some) ==> {
            &&& i64::MIN <= a.sum.unwrap() + b.sum.unwrap() <= i64::MAX
            &&& i64::MIN <= b.sum.unwrap() + c.sum.unwrap() <= i64::MAX
            &&& i64::MIN <= a.sum.unwrap() + b.sum.unwrap() + c.sum.unwrap() <= i64::MAX
        },
    ensures
        merge_long(merge_long(a, b), c) == merge_long(a, merge_long(b, c)),
{
}

/// Updating with one value is the same as merging with that value's
/// singleton statistics, so per-value updates and group merges agree.
pub proof fn lemma_update_is_singleton_merge(a: LongStatistics, x: i64)
    requires
        a.wf(),
        a.num_values < u64::MAX,
    ensures
        ({
            let single = LongStatistics {
                num_values: 1,
                num_present: 1,
                min: Some(x),
                max: Some(x),
                sum: Some(x),
            };
            merge_long(a, single) == (LongStatistics {
                num_values: (a.num_values + 1) as u64,
                num_present: (a.num_present + 1) as u64,
                min: opt_min64(a.min, Some(x)),
                max: opt_max64(a.max, Some(x)),
                sum: opt_sum64(a.sum, Some(x)),
            })
        }),
{
}

/// Min, max and checked sum for decimal columns, at the column's scale.
#[derive(Clone, Copy)]
pub struct DecimalStatistics {
    pub scale: u32,
    pub num_values: u64,
    pub num_present: u64,
    pub min: Option<i128>,
    pub max: Option<i128>,
    pub sum: Option<i128>,
}

impl DecimalStatistics {
    pub open spec fn wf(&self) -> bool {
        self.num_present <= self.num_values && self.scale <= 38
    }

    pub open spec fn has_null(&self) -> bool {
        self.num_values != self.num_present
    }

    pub fn new(scale: u32) -> (r: DecimalStatistics)
        requires
            scale <= 38,
        ensures
            r.wf(),
            r.scale == scale,
            r.num_values == 0,
            r.num_present == 0,
            r.min is None,
            r.max is None,
            r.sum == Some(0i128),
    {
        DecimalStatistics {
            scale,
            num_values: 0,
            num_present: 0,
            min: None,
            max: None,
            sum: Some(0),
        }
    }

    pub fn update(&mut self, x: i128)
        requires
            old(self).wf(),
            old(self).num_values < u64::MAX,
        ensures
            final(self).wf(),
            final(self).scale == old(self).scale,
            final(self).num_values == old(self).num_values + 1,
            final(self).num_present == old(self).num_present + 1,
            final(self).min == opt_min128(old(self).min, Some(x)),
            final(self).max == opt_max128(old(self).max, Some(x)),
            final(self).sum == opt_sum128(old(self).sum, Some(x)),
    {
        self.num_values = self.num_values + 1;
        self.num_present = self.num_present + 1;
        self.min = match self.min {
            None => Some(x),
            Some(m) => Some(
                if x < m {
                    x
                } else {
                    m
                },
            ),
        };
        self.max = match self.max {
            None => Some(x),
            Some(m) => Some(
                if x > m {
                    x
                } else {
                    m
                },
            ),
        };
        self.sum = match self.sum {
            None => None,
            Some(s) => s.checked_add(x),
        };
    }

    pub fn update_null(&mut self)
        requires
            old(self).wf(),
            old(self).num_values < u64::MAX,
        ensures
            final(self).wf(),
            final(self).scale == old(self).scale,
            final(self).num_values == old(self).num_values + 1,
            final(self).num_present == old(self).num_present,
            final(self).min == old(self).min,
            final(self).max == old(self).max,
            final(self).sum == old(self).sum,
    {
        self.num_values = self.num_values + 1;
    }

    pub fn merge(&mut self, rhs: &DecimalStatistics)
        requires
            old(self).wf(),
            rhs.wf(),
            old(self).num_values + rhs.num_values <= u64::MAX,
        ensures
            final(self).wf(),
            final(self).scale == old(self).scale,
            final(self).num_values == old(self).num_values + rhs.num_values,
            final(self).num_present == old(self).num_present + rhs.num_present,
            final(self).min == opt_min128(old(self).min, rhs.min),
            final(self).max == opt_max128(old(self).max, rhs.max),
            final(self).sum == opt_sum128(old(self).sum, rhs.sum),
    {
        self.num_values = self.num_values + rhs.num_values;
        self.num_present = self.num_present + rhs.num_present;
        self.min = match (self.min, rhs.min) {
            (None, y) => y,
            (x, None) => x,
            (Some(x), Some(y)) => Some(
                if x <= y {
                    x
                } else {
                    y
                },
            ),
        };
        self.max = match (self.max, rhs.max) {
            (None, y) => y,
            (x, None) => x,
            (Some(x), Some(y)) => Some(
                if x >= y {
                    x
                } else {
                    y
                },
            ),
        };
        self.sum = match (self.sum, rhs.sum) {
            (Some(a), Some(b)) => a.checked_add(b),
            _ => None,
        };
    }
}

/// Min and max in epoch milliseconds for timestamp columns.
#[derive(Clone, Copy)]
pub struct TimestampStatistics {
    pub num_values: u64,
    pub num_present: u64,
    pub min_epoch_millis: Option<i64>,
    pub max_epoch_millis: Option<i64>,
}

impl TimestampStatistics {
    pub open spec fn wf(&self) -> bool {
        self.num_present <= self.num_values
    }

    pub open spec fn has_null(&self) -> bool {
        self.num_values != self.num_present
    }

    pub fn new() -> (r: TimestampStatistics)
        ensures
            r.wf(),
            r.num_values == 0,
            r.num_present == 0,
            r.min_epoch_millis is None,
            r.max_epoch_millis is None,
    {
        TimestampStatistics {
            num_values: 0,
            num_present: 0,
            min_epoch_millis: None,
            max_epoch_millis: None,
        }
    }

    pub fn update(&mut self, x: i64)
        requires
            old(self).wf(),
            old(self).num_values < u64::MAX,
        ensures
            final(self).wf(),
            final(self).num_values == old(self).num_values + 1,
            final(self).num_present == old(self).num_present + 1,
            final(self).min_epoch_millis == opt_min64(old(self).min_epoch_millis, Some(x)),
            final(self).max_epoch_millis == opt_max64(old(self).max_epoch_millis, Some(x)),
    {
        self.num_values = self.num_values + 1;
        self.num_present = self.num_present + 1;
        self.min_epoch_millis = opt_min64_exec(self.min_epoch_millis, Some(x));
        self.max_epoch_millis = opt_max64_exec(self.max_epoch_millis, Some(x));
    }

    pub fn update_null(&mut self)
        requires
            old(self).wf(),
            old(self).num_values < u64::MAX,
        ensures
            final(self).wf(),
            final(self).num_values == old(self).num_values + 1,
            final(self).num_present == old(self).num_present,
            final(self).min_epoch_millis == old(self).min_epoch_millis,
            final(self).max_epoch_millis == old(self).max_epoch_millis,
    {
        self.num_values = self.num_values + 1;
    }

    pub fn merge(&mut self, rhs: &TimestampStatistics)
        requires
            old(self).wf(),
            rhs.wf(),
            old(self).num_values + rhs.num_values <= u64::MAX,
        ensures
            final(self).wf(),
            final(self).num_values == old(self).num_values + rhs.num_values,
            final(self).num_present == old(self).num_present + rhs.num_present,
            final(self).min_epoch_millis == opt_min64(old(self).min_epoch_millis, rhs.min_epoch_millis),
            final(self).max_epoch_millis == opt_max64(old(self).max_epoch_millis, rhs.max_epoch_millis),
    {
        self.num_values = self.num_values + rhs.num_values;
        self.num_present = self.num_present + rhs.num_present;
        self.min_epoch_millis = opt_min64_exec(self.min_epoch_millis, rhs.min_epoch_millis);
        self.max_epoch_millis = opt_max64_exec(self.max_epoch_millis, rhs.max_epoch_millis);
    }
}

/// Total byte length for binary columns.  The length sum saturates at
/// `u64::MAX` instead of overflowing.
#[derive(Clone, Copy)]
pub struct BinaryStatistics {
    pub num_values: u64,
    pub num_present: u64,
    pub sum_lengths: u64,
}

impl BinaryStatistics {
    pub open spec fn wf(&self) -> bool {
        self.num_present <= self.num_values
    }

    pub open spec fn has_null(&self) -> bool {
        self.num_values != self.num_present
    }

    pub fn new() -> (r: BinaryStatistics)
        ensures
            r.wf(),
            r.num_values == 0,
            r.num_present == 0,
            r.sum_lengths == 0,
    {
        BinaryStatistics { num_values: 0, num_present: 0, sum_lengths: 0 }
    }

    pub fn update(&mut self, x: &[u8])
        requires
            old(self).wf(),
            old(self).num_values < u64::MAX,
        ensures
            final(self).wf(),
            final(self).num_values == old(self).num_values + 1,
            final(self).num_present == old(self).num_present + 1,
            final(self).sum_lengths == sat_add64(old(self).sum_lengths as nat, x@.len()),
    {
        self.num_values = self.num_values + 1;
        self.num_present = self.num_present + 1;
        self.sum_lengths = sat_add64_exec(self.sum_lengths, x.len() as u64);
    }

    pub fn update_null(&mut self)
        requires
            old(self).wf(),
            old(self).num_values < u64::MAX,
        ensures
            final(self).wf(),
            final(self).num_values == old(self).num_values + 1,
            final(self).num_present == old(self).num_present,
            final(self).sum_lengths == old(self).sum_lengths,
    {
        self.num_values = self.num_values + 1;
    }

    pub fn merge(&mut self, rhs: &BinaryStatistics)
        requires
            old(self).wf(),
            rhs.wf(),
            old(self).num_values + rhs.num_values <= u64::MAX,
        ensures
            final(self).wf(),
            final(self).num_values == old(self).num_values + rhs.num_values,
            final(self).num_present == old(self).num_present + rhs.num_present,
            final(self).sum_lengths == sat_add64(old(self).sum_lengths as nat, rhs.sum_lengths as nat),
    {
        self.num_values = self.num_values + rhs.num_values;
        self.num_present = self.num_present + rhs.num_present;
        self.sum_lengths = sat_add64_exec(self.sum_lengths, rhs.sum_lengths);
    }
}

/// Saturating 64-bit addition.
pub open spec fn sat_add64(a: nat, b: nat) -> u64 {
    if a + b <= u64::MAX {
        (a + b) as u64
    } else {
        u64::MAX
    }
}

fn sat_add64_exec(a: u64, b: u64) -> (r: u64)
    ensures
        r == sat_add64(a as nat, b as nat),
{
    if a <= u64::MAX - b {
        a + b
    } else {
        u64::MAX
    }
}

/// Lexicographic byte min/max and total byte length for string columns.
/// The minimum and maximum are kept as UTF-8 bytes; the length sum
/// saturates at `u64::MAX`.
pub struct StringStatistics {
    pub num_values: u64,
    pub num_present: u64,
    pub min: Option<Vec<u8>>,
    pub max: Option<Vec<u8>>,
    pub sum_lengths: u64,
}

impl StringStatistics {
    pub open spec fn wf(&self) -> bool {
        self.num_present <= self.num_values
    }

    pub open spec fn has_null(&self) -> bool {
        self.num_values != self.num_present
    }

    pub open spec fn spec_min(&self) -> Option<Seq<u8>> {
        match self.min {
            Some(ref v) => Some(v@),
            None => None,
        }
    }

    pub open spec fn spec_max(&self) -> Option<Seq<u8>> {
        match self.max {
            Some(ref v) => Some(v@),
            None => None,
        }
    }

    pub fn new() -> (r: StringStatistics)
        ensures
            r.wf(),
            r.num_values == 0,
            r.num_present == 0,
            r.min is None,
            r.max is None,
            r.sum_lengths == 0,
    {
        StringStatistics { num_values: 0, num_present: 0, min: None, max: None, sum_lengths: 0 }
    }

    pub fn update(&mut self, x: &[u8])
        requires
            old(self).wf(),
            old(self).num_values < u64::MAX,
        ensures
            final(self).wf(),
            final(self).num_values == old(self).num_values + 1,
            final(self).num_present == old(self).num_present + 1,
            final(self).spec_min() == (match old(self).spec_min() {
                Option::None => Some(x@),
                Option::Some(m) => if lex_less(x@, m) {
                    Some(x@)
                } else {
                    Some(m)
                },
            }),
            final(self).spec_max() == (match old(self).spec_max() {
                Option::None => Some(x@),
                Option::Some(m) => if lex_less(m, x@) {
                    Some(x@)
                } else {
                    Some(m)
                },
            }),
            final(self).sum_lengths == sat_add64(old(self).sum_lengths as nat, x@.len()),
    {
        self.num_values = self.num_values + 1;
        self.num_present = self.num_present + 1;
        let replace_min = match &self.min {
            None => true,
            Some(m) => bytes_less(x, m.as_slice()),
        };
        if replace_min {
            self.min = Some(slice_to_vec_u8(x));
        }
        let replace_max = match &self.max {
            None => true,
            Some(m) => bytes_less(m.as_slice(), x),
        };
        if replace_max {
            self.max = Some(slice_to_vec_u8(x));
        }
        self.sum_lengths = sat_add64_exec(self.sum_lengths, x.len() as u64);
    }

    pub fn update_null(&mut self)
        requires
            old(self).wf(),
            old(self).num_values < u64::MAX,
        ensures
            final(self).wf(),
            final(self).num_values == old(self).num_values + 1,
            final(self).num_present == old(self).num_present,
            final(self).spec_min() == old(self).spec_min(),
            final(self).spec_max() == old(self).spec_max(),
            final(self).sum_lengths == old(self).sum_lengths,
    {
        self.num_values = self.num_values + 1;
    }

    pub fn merge(&mut self, rhs: &StringStatistics)
        requires
            old(self).wf(),
            rhs.wf(),
            old(self).num_values + rhs.num_values <= u64::MAX,
        ensures
            final(self).wf(),
            final(self).num_values == old(self).num_values + rhs.num_values,
            final(self).num_present == old(self).num_present + rhs.num_present,
            final(self).spec_min() == (match (old(self).spec_min(), rhs.spec_min()) {
                (Option::None, y) => y,
                (x, Option::None) => x,
                (Option::Some(a), Option::Some(b)) => if lex_less(b, a) {
                    Some(b)
                } else {
                    Some(a)
                },
            }),
            final(self).spec_max() == (match (old(self).spec_max(), rhs.spec_max()) {
                (Option::None, y) => y,
                (x, Option::None) => x,
                (Option::Some(a), Option::Some(b)) => if lex_less(a, b) {
                    Some(b)
                } else {
                    Some(a)
                },
            }),
            final(self).sum_lengths == sat_add64(old(self).sum_lengths as nat, rhs.sum_lengths as nat),
    {
        self.num_values = self.num_values + rhs.num_values;
        self.num_present = self.num_present + rhs.num_present;
        match &rhs.min {
            None => (),
            Some(y) => {
                let replace = match &self.min {
                    None => true,
                    Some(m) => bytes_less(y.as_slice(), m.as_slice()),
                };
                if replace {
                    self.min = Some(slice_to_vec_u8(y.as_slice()));
                }
            },
        }
        match &rhs.max {
            None => (),
            Some(y) => {
                let replace = match &self.max {
                    None => true,
                    Some(m) => bytes_less(m.as_slice(), y.as_slice()),
                };
                if replace {
                    self.max = Some(slice_to_vec_u8(y.as_slice()));
                }
            },
        }
        self.sum_lengths = sat_add64_exec(self.sum_lengths, rhs.sum_lengths);
    }
}

/// Copy a byte slice into a fresh vector.
pub fn slice_to_vec_u8(s: &[u8]) -> (r: Vec<u8>)
    ensures
        r@ == s@,
{
    let mut r: Vec<u8> = Vec::new();
    let mut i: usize = 0;
    while i < s.len()
        invariant
            i <= s@.len(),
            r@ == s@.take(i as int),
        decreases s@.len() - i,
    {
        r.push(s[i]);
        i += 1;
        proof {
            assert(s@.take(i as int) =~= s@.take(i - 1).push(s@[i - 1]));
        }
    }
    proof {
        assert(s@.take(s@.len() as int) =~= s@);
    }
    r
}

/// One statistics value per column flavor; generic counts cover struct,
/// list, map, union and the floating-point columns.
pub enum Statistics {
    Boolean(BooleanStatistics),
    Long(LongStatistics),
    Decimal(DecimalStatistics),
    Timestamp(TimestampStatistics),
    String(StringStatistics),
    Binary(BinaryStatistics),
    Generic(GenericStatistics),
}

impl Statistics {
    pub open spec fn wf(&self) -> bool {
        match self {
            Statistics::Boolean(x) => x.wf(),
            Statistics::Long(x) => x.wf(),
            Statistics::Decimal(x) => x.wf(),
            Statistics::Timestamp(x) => x.wf(),
            Statistics::String(x) => x.wf(),
            Statistics::Binary(x) => x.wf(),
            Statistics::Generic(x) => x.wf(),
        }
    }

    pub open spec fn spec_num_values(&self) -> u64 {
        match self {
            Statistics::Boolean(x) => x.num_values,
            Statistics::Long(x) => x.num_values,
            Statistics::Decimal(x) => x.num_values,
            Statistics::Timestamp(x) => x.num_values,
            Statistics::String(x) => x.num_values,
            Statistics::Binary(x) => x.num_values,
            Statistics::Generic(x) => x.num_values,
        }
    }

    pub open spec fn spec_num_present(&self) -> int {
        match self {
            Statistics::Boolean(x) => x.num_present(),
            Statistics::Long(x) => x.num_present as int,
            Statistics::Decimal(x) => x.num_present as int,
            Statistics::Timestamp(x) => x.num_present as int,
            Statistics::String(x) => x.num_present as int,
            Statistics::Binary(x) => x.num_present as int,
            Statistics::Generic(x) => x.num_present as int,
        }
    }

    pub open spec fn spec_has_null(&self) -> bool {
        self.spec_num_values() != self.spec_num_present()
    }

    /// Two statistics values are of the same flavor.
    pub open spec fn same_kind(&self, other: &Statistics) -> bool {
        match (self, other) {
            (Statistics::Boolean(_), Statistics::Boolean(_)) => true,
            (Statistics::Long(_), Statistics::Long(_)) => true,
            (Statistics::Decimal(_), Statistics::Decimal(_)) => true,
            (Statistics::Timestamp(_), Statistics::Timestamp(_)) => true,
            (Statistics::String(_), Statistics::String(_)) => true,
            (Statistics::Binary(_), Statistics::Binary(_)) => true,
            (Statistics::Generic(_), Statistics::Generic(_)) => true,
            _ => false,
        }
    }

    pub fn num_values(&self) -> (r: u64)
        ensures
            r == self.spec_num_values(),
    {
        match self {
            Statistics::Boolean(x) => x.num_values,
            Statistics::Long(x) => x.num_values,
            Statistics::Decimal(x) => x.num_values,
            Statistics::Timestamp(x) => x.num_values,
            Statistics::String(x) => x.num_values,
            Statistics::Binary(x) => x.num_values,
            Statistics::Generic(x) => x.num_values,
        }
    }

    pub fn num_present(&self) -> (r: u64)
        requires
            self.wf(),
        ensures
            r == self.spec_num_present(),
    {
        match self {
            Statistics::Boolean(x) => x.num_true + x.num_false,
            Statistics::Long(x) => x.num_present,
            Statistics::Decimal(x) => x.num_present,
            Statistics::Timestamp(x) => x.num_present,
            Statistics::String(x) => x.num_present,
            Statistics::Binary(x) => x.num_present,
            Statistics::Generic(x) => x.num_present,
        }
    }

    pub fn has_null(&self) -> (r: bool)
        requires
            self.wf(),
        ensures
            r == self.spec_has_null(),
    {
        self.num_values() != self.num_present()
    }

    /// Fold `rhs` into `self`; both must be of the same flavor.
    pub fn merge(&mut self, rhs: &Statistics)
        requires
            old(self).wf(),
            rhs.wf(),
            old(self).same_kind(rhs),
            old(self).spec_num_values() + rhs.spec_num_values() <= u64::MAX,
        ensures
            final(self).wf(),
            final(self).same_kind(old(self)),
            final(self).spec_num_values() == old(self).spec_num_values() + rhs.spec_num_values(),
            final(self).spec_num_present() == old(self).spec_num_present() + rhs.spec_num_present(),
    {
        match (self, rhs) {
            (Statistics::Boolean(x), Statistics::Boolean(y)) => x.merge(y),
            (Statistics::Long(x), Statistics::Long(y)) => x.merge(y),
            (Statistics::Decimal(x), Statistics::Decimal(y)) => x.merge(y),
            (Statistics::Timestamp(x), Statistics::Timestamp(y)) => x.merge(y),
            (Statistics::String(x), Statistics::String(y)) => x.merge(y),
            (Statistics::Binary(x), Statistics::Binary(y)) => x.merge(y),
            (Statistics::Generic(x), Statistics::Generic(y)) => x.merge(y),
            _ => {
                proof {
                    assert(false);
                }
            },
        }
    }

    /// The two statistics values agree: same flavor and equal contents,
    /// with strings compared by their byte views.
    pub open spec fn stats_match(a: Statistics, b: Statistics) -> bool {
        match (a, b) {
            (Statistics::Boolean(x), Statistics::Boolean(y)) => x == y,
            (Statistics::Long(x), Statistics::Long(y)) => x == y,
            (Statistics::Decimal(x), Statistics::Decimal(y)) => x == y,
            (Statistics::Timestamp(x), Statistics::Timestamp(y)) => x == y,
            (Statistics::String(x), Statistics::String(y)) => {
                &&& x.num_values == y.num_values
                &&& x.num_present == y.num_present
                &&& x.spec_min() == y.spec_min()
                &&& x.spec_max() == y.spec_max()
                &&& x.sum_lengths == y.sum_lengths
            },
            (Statistics::Binary(x), Statistics::Binary(y)) => x == y,
            (Statistics::Generic(x), Statistics::Generic(y)) => x == y,
            _ => false,
        }
    }

    /// Fold `rhs` into `self` when the flavors match and the counts stay in
    /// range; report whether the merge happened.
    pub fn try_merge(&mut self, rhs: &Statistics) -> (r: bool)
        requires
            old(self).wf(),
            rhs.wf(),
        ensures
            final(self).wf(),
            r == (old(self).same_kind(rhs) && old(self).spec_num_values() + rhs.spec_num_values()
                <= u64::MAX),
            r ==> final(self).spec_num_values() == old(self).spec_num_values()
                + rhs.spec_num_values(),
            !r ==> *final(self) == *old(self),
    {
        let kinds_match = match (&*self, rhs) {
            (Statistics::Boolean(_), Statistics::Boolean(_)) => true,
            (Statistics::Long(_), Statistics::Long(_)) => true,
            (Statistics::Decimal(_), Statistics::Decimal(_)) => true,
            (Statistics::Timestamp(_), Statistics::Timestamp(_)) => true,
            (Statistics::String(_), Statistics::String(_)) => true,
            (Statistics::Binary(_), Statistics::Binary(_)) => true,
            (Statistics::Generic(_), Statistics::Generic(_)) => true,
            _ => false,
        };
        if !kinds_match {
            return false;
        }
        let a = self.num_values();
        let b = rhs.num_values();
        if a > u64::MAX - b {
            return false;
        }
        self.merge(rhs);
        true
    }
}

/// Powers of ten.
pub open spec fn pow10(k: nat) -> nat
    decreases k,
{
    if k == 0 {
        1
    } else {
        10 * pow10((k - 1) as nat)
    }
}

pub proof fn lemma_pow10_38()
    ensures
        pow10(38) == 100000000000000000000000000000000000000,
{
    reveal_with_fuel(pow10, 40);
}

pub proof fn lemma_pow10_mono(a: nat, b: nat)
    requires
        a <= b,
    ensures
        pow10(a) <= pow10(b),
        pow10(a) >= 1,
    decreases b,
{
    if b > 0 {
        if a == b {
            lemma_pow10_mono((b - 1) as nat, (b - 1) as nat);
        } else {
            lemma_pow10_mono(a, (b - 1) as nat);
        }
    }
}

/// The decimal digits of `n`, most significant first, as ASCII.
pub open spec fn dec_digits(n: nat) -> Seq<u8>
    decreases n,
{
    if n < 10 {
        seq![(48 + n) as u8]
    } else {
        dec_digits(n / 10) + seq![(48 + n % 10) as u8]
    }
}

/// A number under `10^k` has at most `k` digits.
pub proof fn lemma_dec_digits_len(n: nat, k: nat)
    requires
        1 <= k,
        n < pow10(k),
    ensures
        1 <= dec_digits(n).len() <= k,
    decreases n,
{
    if n < 10 {
    } else {
        let m = pow10((k - 1) as nat);
        assert(pow10(k) == 10 * m);
        lemma_pow10_mono((k - 1) as nat, (k - 1) as nat);
        vstd::arithmetic::div_mod::lemma_div_is_ordered(n as int, 10 * m - 1, 10);
        vstd::arithmetic::div_mod::lemma_div_multiples_vanish_fancy(m as int - 1, 9, 10);
        assert((10 * m - 1) as int / 10 == m - 1);
        assert(n / 10 < m);
        assert(k >= 2) by {
            if k == 1 {
                assert(pow10(1) == 10);
            }
        }
        lemma_dec_digits_len(n / 10, (k - 1) as nat);
    }
}

/// The decimal rendering of `v` at `scale`: the integer part, then, when
/// the fractional part is not zero, a point and the fraction zero-padded to
/// `scale` digits.  Negative values carry a leading minus.
pub open spec fn dec_format_mag(scale: nat, n: nat) -> Seq<u8> {
    let m = pow10(scale);
    let q = n / m;
    let r = n % m;
    if r == 0 {
        dec_digits(q)
    } else {
        dec_digits(q) + seq![46u8] + Seq::new(
            (scale - dec_digits(r).len()) as nat,
            |i| 48u8,
        ) + dec_digits(r)
    }
}

pub open spec fn dec_format(scale: nat, v: int) -> Seq<u8> {
    if v < 0 {
        seq![45u8] + dec_format_mag(scale, (-v) as nat)
    } else {
        dec_format_mag(scale, v as nat)
    }
}

/// Render the decimal digits of `n`.
pub fn dec_digits_exec(n: u128) -> (r: Vec<u8>)
    ensures
        r@ == dec_digits(n as nat),
    decreases n,
{
    if n < 10 {
        let mut v: Vec<u8> = Vec::new();
        v.push(48 + (n as u8));
        proof {
            assert(v@ =~= dec_digits(n as nat));
        }
        v
    } else {
        let mut v = dec_digits_exec(n / 10);
        v.push(48 + ((n % 10) as u8));
        proof {
            assert(v@ =~= dec_digits(n as nat));
        }
        v
    }
}

/// `10^scale` for scales up to 38.
#[verifier::loop_isolation(false)]
pub fn pow10_exec(scale: u32) -> (r: u128)
    requires
        scale <= 38,
    ensures
        r == pow10(scale as nat),
{
    proof {
        lemma_pow10_38();
    }
    let mut r: u128 = 1;
    let mut k: u32 = 0;
    while k < scale
        invariant
            k <= scale <= 38,
            r == pow10(k as nat),
        decreases scale - k,
    {
        proof {
            lemma_pow10_mono(k as nat + 1, 38);
        }
        r = r * 10;
        k = k + 1;
    }
    r
}

impl DecimalStatistics {
    /// Render a value at this column's scale, as ASCII bytes.
    pub fn format(&self, val: i128) -> (r: Vec<u8>)
        requires
            self.scale <= 38,
        ensures
            r@ == dec_format(self.scale as nat, val as int),
    {
        let mut out: Vec<u8> = Vec::new();
        let mag: u128 = if val < 0 {
            out.push(45);
            ((-(val + 1)) as u128) + 1
        } else {
            val as u128
        };
        let m = pow10_exec(self.scale);
        proof {
            lemma_pow10_mono(0, self.scale as nat);
        }
        let q = mag / m;
        let r = mag % m;
        let qd = dec_digits_exec(q);
        append_bytes(&mut out, &qd);
        if r > 0 {
            out.push(46);
            let rd = dec_digits_exec(r);
            proof {
                lemma_pow10_mono(0, self.scale as nat);
                if self.scale == 0 {
                    assert(pow10(0) == 1);
                    assert(r == 0);
                }
                lemma_dec_digits_len(r as nat, self.scale as nat);
            }
            let pad = (self.scale as usize) - rd.len();
            let mut i: usize = 0;
            while i < pad
                invariant
                    i <= pad,
                    out@ == (if val < 0 {
                        seq![45u8]
                    } else {
                        Seq::<u8>::empty()
                    }) + dec_digits(q as nat) + seq![46u8] + Seq::new(i as nat, |j| 48u8),
                decreases pad - i,
            {
                out.push(48);
                i += 1;
                proof {
                    assert(Seq::new(i as nat, |j| 48u8) =~= Seq::new(
                        (i - 1) as nat,
                        |j| 48u8,
                    ).push(48u8));
                    assert(out@ =~= (if val < 0 {
                        seq![45u8]
                    } else {
                        Seq::<u8>::empty()
                    }) + dec_digits(q as nat) + seq![46u8] + Seq::new(i as nat, |j| 48u8));
                }
            }
            append_bytes(&mut out, &rd);
            proof {
                assert(out@ =~= dec_format(self.scale as nat, val as int));
            }
        } else {
            proof {
                assert(out@ =~= dec_format(self.scale as nat, val as int));
            }
        }
        out
    }
}

/// Append all bytes of `src` to `dst`.
pub fn append_bytes(dst: &mut Vec<u8>, src: &Vec<u8>)
    ensures
        final(dst)@ == old(dst)@ + src@,
{
    let mut i: usize = 0;
    while i < src.len()
        invariant
            i <= src@.len(),
            dst@ == old(dst)@ + src@.take(i as int),
        decreases src@.len() - i,
    {
        dst.push(src[i]);
        i += 1;
        proof {
            assert(src@.take(i as int) =~= src@.take(i - 1).push(src@[i - 1]));
            assert(dst@ =~= old(dst)@ + src@.take(i as int));
        }
    }
    proof {
        assert(src@.take(src@.len() as int) =~= src@);
        assert(dst@ =~= old(dst)@ + src@);
    }
}

} // verus!
