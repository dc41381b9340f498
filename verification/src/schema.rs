use vstd::prelude::*;

verus! {

/// A named field of a struct schema.
pub struct Field(pub String, pub Schema);

/// The logical type of a column tree.  Columns are numbered by a pre-order
/// traversal of this tree, starting at 0 for the root.
pub enum Schema {
    Boolean,
    Short,
    Int,
    Long,
    Date,
    Float,
    Double,
    Timestamp,
    Decimal(u32, u32),
    String,
    Binary,
    Char(u32),
    VarChar(u32),
    Struct(Vec<Field>),
    List(Box<Schema>),
    Dict(Box<Schema>, Box<Schema>),
    Union(Vec<Schema>),
}

impl Schema {
    /// Number of columns in the tree rooted here: one for this node plus all
    /// descendants, matching the pre-order column-id numbering.
    pub open spec fn column_count(&self) -> nat
        decreases self,
    {
        match self {
            Schema::Struct(fields) => 1 + Self::field_count_seq(fields@, 0),
            Schema::List(elem) => 1 + elem.column_count(),
            Schema::Dict(k, v) => 1 + k.column_count() + v.column_count(),
            Schema::Union(vs) => 1 + Self::count_seq(vs@, 0),
            _ => 1,
        }
    }

    pub open spec fn field_count_seq(s: Seq<Field>, i: int) -> nat
        decreases s, s.len() - i,
        when 0 <= i <= s.len()
    {
        if i == s.len() {
            0
        } else {
            s[i].1.column_count() + Self::field_count_seq(s, i + 1)
        }
    }

    pub open spec fn count_seq(s: Seq<Schema>, i: int) -> nat
        decreases s, s.len() - i,
        when 0 <= i <= s.len()
    {
        if i == s.len() {
            0
        } else {
            s[i].column_count() + Self::count_seq(s, i + 1)
        }
    }

    /// A schema this writer accepts: decimal precision 1..=38 with scale at
    /// most the precision, and unions of 1..=256 variants.
    pub open spec fn valid(&self) -> bool
        decreases self,
    {
        match self {
            Schema::Decimal(p, s) => 1 <= *p <= 38 && *s <= *p,
            Schema::Struct(fields) => Self::fields_valid(fields@, 0),
            Schema::List(elem) => elem.valid(),
            Schema::Dict(k, v) => k.valid() && v.valid(),
            Schema::Union(vs) => 1 <= vs@.len() <= 256 && Self::all_valid(vs@, 0),
            _ => true,
        }
    }

    pub open spec fn fields_valid(s: Seq<Field>, i: int) -> bool
        decreases s, s.len() - i,
        when 0 <= i <= s.len()
    {
        i == s.len() || (s[i].1.valid() && Self::fields_valid(s, i + 1))
    }

    pub open spec fn all_valid(s: Seq<Schema>, i: int) -> bool
        decreases s, s.len() - i,
        when 0 <= i <= s.len()
    {
        i == s.len() || (s[i].valid() && Self::all_valid(s, i + 1))
    }
}

impl Schema {
    /// Check validity in executable code.
    #[verifier::loop_isolation(false)]
    pub fn is_valid(&self) -> (r: bool)
        ensures
            r == self.valid(),
        decreases self,
    {
        match self {
            Schema::Decimal(p, s) => 1 <= *p && *p <= 38 && *s <= *p,
            Schema::Struct(fields) => {
                let n = fields.len();
                let mut i: usize = 0;
                let mut ok = true;
                while i < n
                    invariant
                        i <= n == fields@.len(),
                        (ok && Schema::fields_valid(fields@, i as int)) == Schema::fields_valid(
                            fields@,
                            0,
                        ),
                    decreases n - i,
                {
                    proof {
                        assert(decreases_to!(*self => (*self)->Struct_0));
                        assert(decreases_to!(*fields => fields@));
                        assert(decreases_to!(fields@ => fields@[i as int]));
                        assert(decreases_to!(fields@[i as int] => fields@[i as int].1));
                    }
                    let v = fields[i].1.is_valid();
                    ok = ok && v;
                    i += 1;
                }
                ok
            },
            Schema::List(elem) => elem.is_valid(),
            Schema::Dict(k, v) => {
                let kv = k.is_valid();
                let vv = v.is_valid();
                kv && vv
            },
            Schema::Union(vs) => {
                let n = vs.len();
                if n < 1 || n > 256 {
                    return false;
                }
                let mut i: usize = 0;
                let mut ok = true;
                while i < n
                    invariant
                        i <= n == vs@.len(),
                        (ok && Schema::all_valid(vs@, i as int)) == Schema::all_valid(vs@, 0),
                    decreases n - i,
                {
                    proof {
                        assert(decreases_to!(*self => (*self)->Union_0));
                        assert(decreases_to!(*vs => vs@));
                        assert(decreases_to!(vs@ => vs@[i as int]));
                    }
                    let v = vs[i].is_valid();
                    ok = ok && v;
                    i += 1;
                }
                ok
            },
            _ => true,
        }
    }

    /// Count the columns, saturating at `u64::MAX`.
    #[verifier::loop_isolation(false)]
    pub fn count_columns(&self) -> (r: u64)
        ensures
            r as nat == self.column_count() || (r == u64::MAX && self.column_count()
                >= u64::MAX),
        decreases self,
    {
        match self {
            Schema::Struct(fields) => {
                let n = fields.len();
                let mut total: u64 = 1;
                let mut i: usize = 0;
                while i < n
                    invariant
                        i <= n == fields@.len(),
                        total as nat == 1 + Schema::field_count_seq(fields@, 0)
                            - Schema::field_count_seq(fields@, i as int) || (total == u64::MAX && 1
                            + Schema::field_count_seq(fields@, 0) - Schema::field_count_seq(
                            fields@,
                            i as int,
                        ) >= u64::MAX),
                    decreases n - i,
                {
                    proof {
                        assert(decreases_to!(*self => (*self)->Struct_0));
                        assert(decreases_to!(*fields => fields@));
                        assert(decreases_to!(fields@ => fields@[i as int]));
                        assert(decreases_to!(fields@[i as int] => fields@[i as int].1));
                        lemma_field_count_le(fields@, i as int);
                    }
                    let c = fields[i].1.count_columns();
                    total = if total > u64::MAX - c {
                        u64::MAX
                    } else {
                        total + c
                    };
                    i += 1;
                }
                total
            },
            Schema::List(elem) => {
                let c = elem.count_columns();
                if c == u64::MAX {
                    u64::MAX
                } else {
                    1 + c
                }
            },
            Schema::Dict(k, v) => {
                let a = k.count_columns();
                let b = v.count_columns();
                if a > u64::MAX - b {
                    u64::MAX
                } else if a + b == u64::MAX {
                    u64::MAX
                } else {
                    1 + a + b
                }
            },
            Schema::Union(vs) => {
                let n = vs.len();
                let mut total: u64 = 1;
                let mut i: usize = 0;
                while i < n
                    invariant
                        i <= n == vs@.len(),
                        total as nat == 1 + Schema::count_seq(vs@, 0) - Schema::count_seq(
                            vs@,
                            i as int,
                        ) || (total == u64::MAX && 1 + Schema::count_seq(vs@, 0)
                            - Schema::count_seq(vs@, i as int) >= u64::MAX),
                    decreases n - i,
                {
                    proof {
                        assert(decreases_to!(*self => (*self)->Union_0));
                        assert(decreases_to!(*vs => vs@));
                        assert(decreases_to!(vs@ => vs@[i as int]));
                        lemma_count_le(vs@, i as int);
                    }
                    let c = vs[i].count_columns();
                    total = if total > u64::MAX - c {
                        u64::MAX
                    } else {
                        total + c
                    };
                    i += 1;
                }
                total
            },
            _ => 1,
        }
    }
}

/// The tail count never exceeds the whole, and unfolds one step.
pub proof fn lemma_field_count_le(s: Seq<Field>, i: int)
    requires
        0 <= i <= s.len(),
    ensures
        Schema::field_count_seq(s, i) <= Schema::field_count_seq(s, 0),
        i < s.len() ==> Schema::field_count_seq(s, i) == s[i].1.column_count()
            + Schema::field_count_seq(s, i + 1),
    decreases i,
{
    if i > 0 {
        lemma_field_count_helper(s, 0, i);
    }
}

proof fn lemma_field_count_helper(s: Seq<Field>, i: int, j: int)
    requires
        0 <= i <= j <= s.len(),
    ensures
        Schema::field_count_seq(s, j) <= Schema::field_count_seq(s, i),
    decreases j - i,
{
    if i < j {
        lemma_field_count_helper(s, i + 1, j);
    }
}

pub proof fn lemma_count_le(s: Seq<Schema>, i: int)
    requires
        0 <= i <= s.len(),
    ensures
        Schema::count_seq(s, i) <= Schema::count_seq(s, 0),
        i < s.len() ==> Schema::count_seq(s, i) == s[i].column_count() + Schema::count_seq(
            s,
            i + 1,
        ),
    decreases i,
{
    if i > 0 {
        lemma_count_helper(s, 0, i);
    }
}

proof fn lemma_count_helper(s: Seq<Schema>, i: int, j: int)
    requires
        0 <= i <= j <= s.len(),
    ensures
        Schema::count_seq(s, j) <= Schema::count_seq(s, i),
    decreases j - i,
{
    if i < j {
        lemma_count_helper(s, i + 1, j);
    }
}
} // verus!
