use vstd::prelude::*;
use crate::schema::Schema;
use crate::writer::Config;
use crate::count_write::{CountWrite, extends};
use crate::statistics::Statistics;
use crate::stripe::StreamInfo;

pub mod boolean;
pub mod long;
pub mod float;
pub mod double;
pub mod timestamp;
pub mod decimal;
pub mod string;
pub mod binary;
pub mod struct_;
pub mod list;
pub mod map;
pub mod union;

verus! {

/// Which rows of a written column are present (non-null).
pub open spec fn presence<T>(s: Seq<Option<T>>) -> Seq<bool> {
    s.map_values(|x: Option<T>| x is Some)
}

/// The non-null values of a written column, in order.
pub open spec fn some_vals<T>(s: Seq<Option<T>>) -> Seq<T>
    decreases s.len(),
{
    if s.len() == 0 {
        Seq::empty()
    } else {
        some_vals(s.drop_last()) + (match s.last() {
            Some(v) => seq![v],
            None => Seq::empty(),
        })
    }
}

/// The non-null values of a concatenation are the parts' in order.
pub proof fn lemma_some_vals_concat<T>(a: Seq<Option<T>>, b: Seq<Option<T>>)
    ensures
        some_vals(a + b) == some_vals(a) + some_vals(b),
    decreases b.len(),
{
    if b.len() == 0 {
        assert(a + b =~= a);
        assert(some_vals(a) + some_vals(b) =~= some_vals(a));
    } else {
        lemma_some_vals_concat(a, b.drop_last());
        assert((a + b).drop_last() =~= a + b.drop_last());
        assert((a + b).last() == b.last());
        match b.last() {
            Some(v) => {
                assert(some_vals(b) == some_vals(b.drop_last()) + seq![v]);
                assert(some_vals(a) + (some_vals(b.drop_last()) + seq![v]) =~= (some_vals(a)
                    + some_vals(b.drop_last())) + seq![v]);
            },
            None => {
                assert(some_vals(b) == some_vals(b.drop_last()));
            },
        }
    }
}

pub proof fn lemma_some_vals_push<T>(s: Seq<Option<T>>, x: Option<T>)
    ensures
        some_vals(s.push(x)) == some_vals(s) + (match x {
            Some(v) => seq![v],
            None => Seq::<T>::empty(),
        }),
{
    assert(s.push(x).drop_last() =~= s);
    assert(s.push(x).last() == x);
}

/// Saturating add for size estimates.
pub fn sat_add_usize(a: usize, b: usize) -> (r: usize)
    ensures
        r == if a + b <= usize::MAX {
            a + b
        } else {
            usize::MAX as int
        },
{
    if a <= usize::MAX - b {
        a + b
    } else {
        usize::MAX
    }
}

/// One column writer per ORC type, each owning its streams and children.
pub enum Data {
    Boolean(crate::data::boolean::BooleanData),
    Long(crate::data::long::LongData),
    Float(crate::data::float::FloatData),
    Double(crate::data::double::DoubleData),
    Timestamp(crate::data::timestamp::TimestampData),
    Decimal(crate::data::decimal::DecimalData),
    String(crate::data::string::StringData),
    Binary(crate::data::binary::BinaryData),
    Struct(crate::data::struct_::StructData),
    List(crate::data::list::ListData),
    Dict(crate::data::map::MapData),
    Union(crate::data::union::UnionData),
}

impl Data {
    /// Nesting depth of the column tree; compound nodes stand one level
    /// above their tallest child.
    pub closed spec fn height(&self) -> nat
        decreases self,
    {
        match self {
            Data::Struct(s) => 1 + Self::hmax(s.children@, 0),
            Data::List(l) => 1 + l.child.height(),
            Data::Dict(m) => 1 + (if m.keys.height() > m.values.height() {
                m.keys.height()
            } else {
                m.values.height()
            }),
            Data::Union(u) => 1 + Self::hmax(u.children@, 0),
            _ => 0,
        }
    }

    pub closed spec fn hmax(s: Seq<Data>, i: int) -> nat
        decreases s, s.len() - i,
        when 0 <= i <= s.len()
    {
        if i == s.len() {
            0
        } else {
            let h = s[i].height();
            let rest = Self::hmax(s, i + 1);
            if h > rest {
                h
            } else {
                rest
            }
        }
    }

    pub proof fn lemma_hmax(s: Seq<Data>, i: int, j: int)
        requires
            0 <= i <= j < s.len(),
        ensures
            s[j].height() <= Self::hmax(s, i),
        decreases j - i,
    {
        if i < j {
            Self::lemma_hmax(s, i + 1, j);
        }
    }

    /// Well-formedness of the whole subtree.
    pub closed spec fn wf(&self) -> bool
        decreases self,
    {
        match self {
            Data::Boolean(c) => c.wf(),
            Data::Long(c) => c.wf(),
            Data::Float(c) => c.wf(),
            Data::Double(c) => c.wf(),
            Data::Timestamp(c) => c.wf(),
            Data::Decimal(c) => c.wf(),
            Data::String(c) => c.wf(),
            Data::Binary(c) => c.wf(),
            Data::Struct(s) => s.own_wf() && Self::all_wf(s.children@, 0),
            Data::List(l) => l.own_wf() && l.child.wf(),
            Data::Dict(m) => m.own_wf() && m.keys.wf() && m.values.wf(),
            Data::Union(u) => {
                &&& u.own_wf()
                &&& Self::all_wf(u.children@, 0)
                &&& u.child_counts@.len() == u.children@.len()
                &&& u.children@.len() <= 256
            },
        }
    }

    pub closed spec fn all_wf(s: Seq<Data>, i: int) -> bool
        decreases s, s.len() - i,
        when 0 <= i <= s.len()
    {
        i == s.len() || (s[i].wf() && Self::all_wf(s, i + 1))
    }

    /// Every element of `s` from `i` on is well-formed.
    pub proof fn lemma_all_wf_index(s: Seq<Data>, i: int, j: int)
        requires
            0 <= i <= j < s.len(),
            Self::all_wf(s, i),
        ensures
            s[j].wf(),
            Self::all_wf(s, j),
        decreases j - i,
    {
        if i < j {
            Self::lemma_all_wf_index(s, i + 1, j);
        }
    }

    /// Replacing one well-formed element keeps the list well-formed.
    pub proof fn lemma_all_wf_update(s: Seq<Data>, i: int, j: int, c: Data)
        requires
            0 <= i <= s.len(),
            0 <= j < s.len(),
            Self::all_wf(s, i),
            c.wf(),
        ensures
            Self::all_wf(s.update(j, c), i),
        decreases s.len() - i,
    {
        if i < s.len() {
            assert(s.update(j, c)[i] == (if i == j { c } else { s[i] }));
            Self::lemma_all_wf_update(s, i + 1, j, c);
            assert(s.update(j, c).len() == s.len());
        }
    }

    /// The column id of this node.
    pub closed spec fn spec_column_id(&self) -> u32 {
        match self {
            Data::Boolean(c) => c.spec_column_id(),
            Data::Long(c) => c.spec_column_id(),
            Data::Float(c) => c.spec_column_id(),
            Data::Double(c) => c.spec_column_id(),
            Data::Timestamp(c) => c.spec_column_id(),
            Data::Decimal(c) => c.spec_column_id(),
            Data::String(c) => c.spec_column_id(),
            Data::Binary(c) => c.spec_column_id(),
            Data::Struct(s) => s.spec_column_id(),
            Data::List(l) => l.spec_column_id(),
            Data::Dict(m) => m.spec_column_id(),
            Data::Union(u) => u.spec_column_id(),
        }
    }

    /// Rows (values or nulls) this node received in the current stripe.
    pub closed spec fn spec_rows(&self) -> nat {
        match self {
            Data::Boolean(c) => c.written().len(),
            Data::Long(c) => c.written().len(),
            Data::Float(c) => c.written().len(),
            Data::Double(c) => c.written().len(),
            Data::Timestamp(c) => c.written().len(),
            Data::Decimal(c) => c.written().len(),
            Data::String(c) => c.written().len(),
            Data::Binary(c) => c.written().len(),
            Data::Struct(s) => s.written().len(),
            Data::List(l) => l.written().len(),
            Data::Dict(m) => m.written().len(),
            Data::Union(u) => u.written().len(),
        }
    }

    /// Number of columns in this subtree (pre-order count).
    pub closed spec fn spec_column_count(&self) -> nat
        decreases self,
    {
        match self {
            Data::Struct(s) => 1 + Self::count_seq(s.children@, 0),
            Data::List(l) => 1 + l.child.spec_column_count(),
            Data::Dict(m) => 1 + m.keys.spec_column_count() + m.values.spec_column_count(),
            Data::Union(u) => 1 + Self::count_seq(u.children@, 0),
            _ => 1,
        }
    }

    pub closed spec fn count_seq(s: Seq<Data>, i: int) -> nat
        decreases s, s.len() - i,
        when 0 <= i <= s.len()
    {
        if i == s.len() {
            0
        } else {
            s[i].spec_column_count() + Self::count_seq(s, i + 1)
        }
    }
}

impl Data {
    /// The node's constructor corresponds to the schema's.
    pub open spec fn variant_matches(d: Data, schema: Schema) -> bool {
        match schema {
            Schema::Boolean => d is Boolean,
            Schema::Short => d is Long,
            Schema::Int => d is Long,
            Schema::Long => d is Long,
            Schema::Date => d is Long,
            Schema::Float => d is Float,
            Schema::Double => d is Double,
            Schema::Timestamp => d is Timestamp,
            Schema::Decimal(_, _) => d is Decimal,
            Schema::String => d is String,
            Schema::Char(_) => d is String,
            Schema::VarChar(_) => d is String,
            Schema::Binary => d is Binary,
            Schema::Struct(_) => d is Struct,
            Schema::List(_) => d is List,
            Schema::Dict(_, _) => d is Dict,
            Schema::Union(_) => d is Union,
        }
    }

    pub proof fn lemma_hmax_equal(a: Seq<Data>, b: Seq<Data>, i: int)
        requires
            a.len() == b.len(),
            0 <= i <= a.len(),
            forall|j: int| 0 <= j < a.len() ==> (#[trigger] b[j]).height() == a[j].height(),
        ensures
            Self::hmax(a, i) == Self::hmax(b, i),
        decreases a.len() - i,
    {
        if i < a.len() {
            Self::lemma_hmax_equal(a, b, i + 1);
        }
    }

    pub proof fn lemma_all_wf_pointwise(s: Seq<Data>, i: int)
        requires
            0 <= i <= s.len(),
            forall|j: int| i <= j < s.len() ==> (#[trigger] s[j]).wf(),
        ensures
            Self::all_wf(s, i),
        decreases s.len() - i,
    {
        if i < s.len() {
            Self::lemma_all_wf_pointwise(s, i + 1);
        }
    }

    pub proof fn lemma_all_reset_push(s: Seq<Data>, c: Data, i: int)
        requires
            0 <= i <= s.len(),
            Self::all_reset(s, i),
            c.tree_reset(),
        ensures
            Self::all_reset(s.push(c), i),
        decreases s.len() - i,
    {
        if i < s.len() {
            assert(s.push(c)[i] == s[i]);
            Self::lemma_all_reset_push(s, c, i + 1);
            assert(Self::all_reset(s.push(c), i) == (s.push(c)[i].tree_reset()
                && Self::all_reset(s.push(c), i + 1)));
        } else {
            assert(s.push(c)[i] == c);
            assert(Self::all_reset(s.push(c), i + 1));
            assert(Self::all_reset(s.push(c), i) == (s.push(c)[i].tree_reset()
                && Self::all_reset(s.push(c), i + 1)));
        }
    }

    pub proof fn lemma_all_wf_push(s: Seq<Data>, c: Data, i: int)
        requires
            0 <= i <= s.len(),
            Self::all_wf(s, i),
            c.wf(),
        ensures
            Self::all_wf(s.push(c), i),
        decreases s.len() - i,
    {
        if i < s.len() {
            assert(s.push(c)[i] == s[i]);
            assert(s[i].wf());
            Self::lemma_all_wf_push(s, c, i + 1);
            assert(Self::all_wf(s.push(c), i) == (s.push(c)[i].wf() && Self::all_wf(
                s.push(c),
                i + 1,
            )));
        } else {
            assert(s.push(c)[i] == c);
            assert(Self::all_wf(s.push(c), i + 1));
            assert(Self::all_wf(s.push(c), i) == (s.push(c)[i].wf() && Self::all_wf(
                s.push(c),
                i + 1,
            )));
        }
    }

    pub proof fn lemma_count_seq_push(s: Seq<Data>, c: Data, i: int)
        requires
            0 <= i <= s.len(),
        ensures
            Self::count_seq(s.push(c), i) == Self::count_seq(s, i) + c.spec_column_count(),
        decreases s.len() - i,
    {
        if i < s.len() {
            assert(s.push(c)[i] == s[i]);
            Self::lemma_count_seq_push(s, c, i + 1);
            assert(Self::count_seq(s.push(c), i) == s.push(c)[i].spec_column_count()
                + Self::count_seq(s.push(c), i + 1));
        } else {
            assert(s.push(c)[i] == c);
            assert(Self::count_seq(s.push(c), i + 1) == 0);
            assert(Self::count_seq(s.push(c), i) == s.push(c)[i].spec_column_count()
                + Self::count_seq(s.push(c), i + 1));
            assert(Self::count_seq(s, i) == 0);
        }
    }

    /// Build the column tree for `schema`, assigning pre-order column ids
    /// starting at `*column_id`.
    #[verifier::loop_isolation(false)]
    pub fn new(schema: &Schema, config: &Config, column_id: &mut u32) -> (r: Data)
        requires
            schema.valid(),
            config.wf(),
            *old(column_id) + schema.column_count() <= u32::MAX,
        ensures
            r.wf(),
            r.tree_reset(),
            Self::variant_matches(r, *schema),
            r.spec_column_id() == *old(column_id),
            *final(column_id) == *old(column_id) + schema.column_count(),
            r.spec_column_count() == schema.column_count(),
        decreases *schema,
    {
        match schema {
            Schema::Boolean => Data::Boolean(crate::data::boolean::BooleanData::new(config, column_id)),
            Schema::Short | Schema::Int | Schema::Long | Schema::Date => Data::Long(
                crate::data::long::LongData::new(config, column_id),
            ),
            Schema::Float => Data::Float(crate::data::float::FloatData::new(config, column_id)),
            Schema::Double => Data::Double(crate::data::double::DoubleData::new(config, column_id)),
            Schema::Timestamp => Data::Timestamp(
                crate::data::timestamp::TimestampData::new(config, column_id),
            ),
            Schema::Decimal(p, s) => Data::Decimal(
                crate::data::decimal::DecimalData::new(*p, *s, config, column_id),
            ),
            Schema::String | Schema::Char(_) | Schema::VarChar(_) => Data::String(
                crate::data::string::StringData::new(config, column_id),
            ),
            Schema::Binary => Data::Binary(crate::data::binary::BinaryData::new(config, column_id)),
            Schema::Struct(fields) => {
                let ghost cid0 = *column_id;
                let mut node = crate::data::struct_::StructData::new_node(config, column_id);
                let n = fields.len();
                let mut i: usize = 0;
                while i < n
                    invariant
                        i <= n == fields@.len(),
                        node.own_wf(),
                        node.written() == Seq::<bool>::empty(),
                        node.spec_column_id() == cid0,
                        node.spec_stride() == config.row_index_stride,
                        config.wf(),
                        Schema::fields_valid(fields@, i as int),
                        node.spec_children().len() == i,
                        Self::all_wf(node.spec_children(), 0),
                        Self::all_reset(node.spec_children(), 0),
                        Self::count_seq(node.spec_children(), 0) + Schema::field_count_seq(
                            fields@,
                            i as int,
                        ) == Schema::field_count_seq(fields@, 0),
                        *column_id == cid0 + 1 + Self::count_seq(node.spec_children(), 0),
                        *column_id + Schema::field_count_seq(fields@, i as int) <= u32::MAX,
                    decreases n - i,
                {
                    proof {
                        assert(decreases_to!(*schema => (*schema)->Struct_0));
                        assert(decreases_to!(*fields => fields@));
                        assert(decreases_to!(fields@ => fields@[i as int]));
                        assert(decreases_to!(fields@[i as int] => fields@[i as int].1));
                    }
                    let child = Data::new(&fields[i].1, config, column_id);
                    proof {
                        Self::lemma_all_wf_push(node.spec_children(), child, 0);
                        Self::lemma_all_reset_push(node.spec_children(), child, 0);
                        Self::lemma_count_seq_push(node.spec_children(), child, 0);
                    }
                    node.push_child(child);
                    i += 1;
                }
                proof {
                    assert(Schema::field_count_seq(fields@, n as int) == 0);
                }
                Data::Struct(node)
            },
            Schema::List(elem) => {
                let ghost cid0 = *column_id;
                let mut cid_box = *column_id;
                proof {
                    assert(decreases_to!(*schema => (*schema)->List_0));
                }
                let cid_self = *column_id;
                *column_id = *column_id + 1;
                let mut cid2 = *column_id;
                let child = Data::new(elem, config, &mut cid2);
                *column_id = cid2;
                let mut cid_node = cid_self;
                let node = crate::data::list::ListData::new_node(config, &mut cid_node, child);
                Data::List(node)
            },
            Schema::Dict(ks, vs) => {
                let cid_self = *column_id;
                *column_id = *column_id + 1;
                proof {
                    assert(decreases_to!(*schema => (*schema)->Dict_0));
                    assert(decreases_to!(*schema => (*schema)->Dict_1));
                }
                let mut cid2 = *column_id;
                let keys = Data::new(ks, config, &mut cid2);
                let values = Data::new(vs, config, &mut cid2);
                *column_id = cid2;
                let mut cid_node = cid_self;
                let node = crate::data::map::MapData::new_node(config, &mut cid_node, keys, values);
                Data::Dict(node)
            },
            Schema::Union(variants) => {
                let ghost cid0 = *column_id;
                let mut node = crate::data::union::UnionData::new_node(config, column_id);
                let n = variants.len();
                let mut i: usize = 0;
                while i < n
                    invariant
                        i <= n == variants@.len(),
                        n <= 256,
                        node.own_wf(),
                        node.written() == Seq::<Option<u8>>::empty(),
                        node.spec_column_id() == cid0,
                        node.spec_stride() == config.row_index_stride,
                        config.wf(),
                        Schema::all_valid(variants@, i as int),
                        node.spec_children().len() == i,
                        node.spec_child_counts().len() == i,
                        Self::all_wf(node.spec_children(), 0),
                        Self::all_reset(node.spec_children(), 0),
                        Self::count_seq(node.spec_children(), 0) + Schema::count_seq(
                            variants@,
                            i as int,
                        ) == Schema::count_seq(variants@, 0),
                        *column_id == cid0 + 1 + Self::count_seq(node.spec_children(), 0),
                        *column_id + Schema::count_seq(variants@, i as int) <= u32::MAX,
                    decreases n - i,
                {
                    proof {
                        assert(decreases_to!(*schema => (*schema)->Union_0));
                        assert(decreases_to!(*variants => variants@));
                        assert(decreases_to!(variants@ => variants@[i as int]));
                    }
                    let child = Data::new(&variants[i], config, column_id);
                    proof {
                        Self::lemma_all_wf_push(node.spec_children(), child, 0);
                        Self::lemma_all_reset_push(node.spec_children(), child, 0);
                        Self::lemma_count_seq_push(node.spec_children(), child, 0);
                    }
                    node.push_child(child);
                    i += 1;
                }
                proof {
                    assert(Schema::count_seq(variants@, n as int) == 0);
                }
                Data::Union(node)
            },
        }
    }
}

impl Data {
    /// The per-column stripe statistics of this subtree, in pre-order.
    pub closed spec fn tree_stats(&self) -> Seq<Statistics>
        decreases self,
    {
        match self {
            Data::Boolean(c) => seq![Statistics::Boolean(c.spec_stripe_stats())],
            Data::Long(c) => seq![Statistics::Long(c.spec_stripe_stats())],
            Data::Float(c) => seq![Statistics::Generic(c.spec_stripe_stats())],
            Data::Double(c) => seq![Statistics::Generic(c.spec_stripe_stats())],
            Data::Timestamp(c) => seq![Statistics::Timestamp(c.spec_stripe_stats())],
            Data::Decimal(c) => seq![Statistics::Decimal(c.spec_stripe_stats())],
            Data::String(c) => seq![Statistics::String(c.spec_stripe_stats())],
            Data::Binary(c) => seq![Statistics::Binary(c.spec_stripe_stats())],
            Data::Struct(s) => seq![Statistics::Generic(s.spec_stripe_stats())]
                + Self::tree_stats_seq(s.children@, 0),
            Data::List(l) => seq![Statistics::Generic(l.spec_stripe_stats())]
                + l.child.tree_stats(),
            Data::Dict(m) => seq![Statistics::Generic(m.spec_stripe_stats())]
                + m.keys.tree_stats() + m.values.tree_stats(),
            Data::Union(u) => seq![Statistics::Generic(u.spec_stripe_stats())]
                + Self::tree_stats_seq(u.children@, 0),
        }
    }

    pub closed spec fn tree_stats_seq(s: Seq<Data>, i: int) -> Seq<Statistics>
        decreases s, s.len() - i,
        when 0 <= i <= s.len()
    {
        if i == s.len() {
            Seq::empty()
        } else {
            s[i].tree_stats() + Self::tree_stats_seq(s, i + 1)
        }
    }

    /// One statistics entry per column.
    pub proof fn lemma_tree_stats_len(d: Data)
        ensures
            d.tree_stats().len() == d.spec_column_count(),
        decreases d,
    {
        match d {
            Data::Struct(s) => Self::lemma_tree_stats_seq_len(s.children@, 0),
            Data::List(l) => Self::lemma_tree_stats_len(*l.child),
            Data::Dict(m) => {
                Self::lemma_tree_stats_len(*m.keys);
                Self::lemma_tree_stats_len(*m.values);
            },
            Data::Union(u) => Self::lemma_tree_stats_seq_len(u.children@, 0),
            _ => (),
        }
    }

    pub proof fn lemma_tree_stats_seq_len(s: Seq<Data>, i: int)
        requires
            0 <= i <= s.len(),
        ensures
            Self::tree_stats_seq(s, i).len() == Self::count_seq(s, i),
        decreases s, s.len() - i,
    {
        if i < s.len() {
            Self::lemma_tree_stats_len(s[i]);
            Self::lemma_tree_stats_seq_len(s, i + 1);
        }
    }

    /// Every column of the subtree has been reset: no rows remain written.
    pub closed spec fn tree_reset(&self) -> bool
        decreases self,
    {
        match self {
            Data::Boolean(c) => c.written().len() == 0,
            Data::Long(c) => c.written().len() == 0,
            Data::Float(c) => c.written().len() == 0,
            Data::Double(c) => c.written().len() == 0,
            Data::Timestamp(c) => c.written().len() == 0,
            Data::Decimal(c) => c.written().len() == 0,
            Data::String(c) => c.written().len() == 0,
            Data::Binary(c) => c.written().len() == 0,
            Data::Struct(s) => s.written().len() == 0 && Self::all_reset(s.children@, 0),
            Data::List(l) => l.written().len() == 0 && l.child.tree_reset(),
            Data::Dict(m) => m.written().len() == 0 && m.keys.tree_reset()
                && m.values.tree_reset(),
            Data::Union(u) => u.written().len() == 0 && Self::all_reset(u.children@, 0),
        }
    }

    pub closed spec fn all_reset(s: Seq<Data>, i: int) -> bool
        decreases s, s.len() - i,
        when 0 <= i <= s.len()
    {
        i == s.len() || (s[i].tree_reset() && Self::all_reset(s, i + 1))
    }

    pub proof fn lemma_all_reset_pointwise(s: Seq<Data>, i: int)
        requires
            0 <= i <= s.len(),
            forall|j: int| i <= j < s.len() ==> (#[trigger] s[j]).tree_reset(),
        ensures
            Self::all_reset(s, i),
        decreases s.len() - i,
    {
        if i < s.len() {
            Self::lemma_all_reset_pointwise(s, i + 1);
        }
    }

    /// Every column's rolling row group has been folded into its stripe
    /// statistics.
    pub closed spec fn tree_flushed(&self) -> bool
        decreases self,
    {
        match self {
            Data::Boolean(c) => c.group_flushed(),
            Data::Long(c) => c.group_flushed(),
            Data::Float(c) => c.group_flushed(),
            Data::Double(c) => c.group_flushed(),
            Data::Timestamp(c) => c.group_flushed(),
            Data::Decimal(c) => c.group_flushed(),
            Data::String(c) => c.group_flushed(),
            Data::Binary(c) => c.group_flushed(),
            Data::Struct(s) => s.group_flushed() && Self::all_flushed(s.children@, 0),
            Data::List(l) => l.group_flushed() && l.child.tree_flushed(),
            Data::Dict(m) => m.group_flushed() && m.keys.tree_flushed()
                && m.values.tree_flushed(),
            Data::Union(u) => u.group_flushed() && Self::all_flushed(u.children@, 0),
        }
    }

    pub closed spec fn all_flushed(s: Seq<Data>, i: int) -> bool
        decreases s, s.len() - i,
        when 0 <= i <= s.len()
    {
        i == s.len() || (s[i].tree_flushed() && Self::all_flushed(s, i + 1))
    }

    pub proof fn lemma_all_flushed_pointwise(s: Seq<Data>, i: int)
        requires
            0 <= i <= s.len(),
            forall|j: int| i <= j < s.len() ==> (#[trigger] s[j]).tree_flushed(),
        ensures
            Self::all_flushed(s, i),
        decreases s.len() - i,
    {
        if i < s.len() {
            Self::lemma_all_flushed_pointwise(s, i + 1);
        }
    }

    /// The two trees have the same shape and, column for column, the same
    /// written values.
    pub closed spec fn same_written(a: Data, b: Data) -> bool
        decreases a,
    {
        match (a, b) {
            (Data::Boolean(x), Data::Boolean(y)) => x.written() == y.written(),
            (Data::Long(x), Data::Long(y)) => x.written() == y.written(),
            (Data::Float(x), Data::Float(y)) => x.written() == y.written(),
            (Data::Double(x), Data::Double(y)) => x.written() == y.written(),
            (Data::Timestamp(x), Data::Timestamp(y)) => x.written() == y.written(),
            (Data::Decimal(x), Data::Decimal(y)) => x.written() == y.written(),
            (Data::String(x), Data::String(y)) => x.written() == y.written(),
            (Data::Binary(x), Data::Binary(y)) => x.written() == y.written(),
            (Data::Struct(x), Data::Struct(y)) => x.written() == y.written()
                && x.children@.len() == y.children@.len() && Self::all_same_written(
                x.children@,
                y.children@,
                0,
            ),
            (Data::List(x), Data::List(y)) => x.written() == y.written() && Self::same_written(
                *x.child,
                *y.child,
            ),
            (Data::Dict(x), Data::Dict(y)) => x.written() == y.written() && Self::same_written(
                *x.keys,
                *y.keys,
            ) && Self::same_written(*x.values, *y.values),
            (Data::Union(x), Data::Union(y)) => x.written() == y.written()
                && x.children@.len() == y.children@.len() && Self::all_same_written(
                x.children@,
                y.children@,
                0,
            ),
            _ => false,
        }
    }

    pub closed spec fn all_same_written(a: Seq<Data>, b: Seq<Data>, i: int) -> bool
        decreases a, a.len() - i,
        when 0 <= i <= a.len() && a.len() == b.len()
    {
        i == a.len() || (Self::same_written(a[i], b[i]) && Self::all_same_written(a, b, i + 1))
    }

    pub proof fn lemma_same_written_refl(d: Data)
        ensures
            Self::same_written(d, d),
        decreases d,
    {
        match d {
            Data::Struct(x) => Self::lemma_all_same_written_refl(x.children@, 0),
            Data::List(x) => Self::lemma_same_written_refl(*x.child),
            Data::Dict(x) => {
                Self::lemma_same_written_refl(*x.keys);
                Self::lemma_same_written_refl(*x.values);
            },
            Data::Union(x) => Self::lemma_all_same_written_refl(x.children@, 0),
            _ => (),
        }
    }

    pub proof fn lemma_all_same_written_refl(s: Seq<Data>, i: int)
        requires
            0 <= i <= s.len(),
        ensures
            Self::all_same_written(s, s, i),
        decreases s, s.len() - i,
    {
        if i < s.len() {
            Self::lemma_same_written_refl(s[i]);
            Self::lemma_all_same_written_refl(s, i + 1);
        }
    }

    pub proof fn lemma_all_same_written_pointwise(a: Seq<Data>, b: Seq<Data>, i: int)
        requires
            0 <= i <= a.len(),
            a.len() == b.len(),
            forall|j: int| i <= j < a.len() ==> Self::same_written(#[trigger] a[j], b[j]),
        ensures
            Self::all_same_written(a, b, i),
        decreases a.len() - i,
    {
        if i < a.len() {
            Self::lemma_all_same_written_pointwise(a, b, i + 1);
        }
    }

    /// Each node received the value count its parent implies: `expected`
    /// rows here, `num_present` rows for struct children, the announced
    /// totals for list/map children, the per-tag totals for union children.
    pub closed spec fn rows_ok(&self, expected: u64) -> bool
        decreases self,
    {
        match self {
            Data::Boolean(c) => c.written().len() == expected,
            Data::Long(c) => c.written().len() == expected,
            Data::Float(c) => c.written().len() == expected,
            Data::Double(c) => c.written().len() == expected,
            Data::Timestamp(c) => c.written().len() == expected,
            Data::Decimal(c) => c.written().len() == expected,
            Data::String(c) => c.written().len() == expected,
            Data::Binary(c) => c.written().len() == expected,
            Data::Struct(s) => s.written().len() == expected && Self::children_rows_ok(
                s.children@,
                0,
                (s.stripe_stats.num_present + s.row_group_stats.num_present) as u64,
            ),
            Data::List(l) => l.written().len() == expected && l.child.rows_ok(l.num_child_values),
            Data::Dict(m) => m.written().len() == expected && m.keys.rows_ok(m.num_child_values)
                && m.values.rows_ok(m.num_child_values),
            Data::Union(u) => u.written().len() == expected && Self::union_rows_ok(
                u.children@,
                u.child_counts@,
                0,
            ),
        }
    }

    pub closed spec fn children_rows_ok(s: Seq<Data>, i: int, expected: u64) -> bool
        decreases s, s.len() - i,
        when 0 <= i <= s.len()
    {
        i == s.len() || (s[i].rows_ok(expected) && Self::children_rows_ok(s, i + 1, expected))
    }

    pub closed spec fn union_rows_ok(s: Seq<Data>, counts: Seq<u64>, i: int) -> bool
        decreases s, s.len() - i,
        when 0 <= i <= s.len()
    {
        i == s.len() || (0 <= i < counts.len() && s[i].rows_ok(counts[i]) && Self::union_rows_ok(
            s,
            counts,
            i + 1,
        ))
    }

    /// Whether every column of this subtree received exactly the value
    /// count it is owed, starting from `expected` rows at this node.
    #[verifier::loop_isolation(false)]
    pub fn verify_row_count(&self, expected: u64) -> (r: bool)
        requires
            self.wf(),
        ensures
            r == self.rows_ok(expected),
        decreases self.height(),
    {
        match self {
            Data::Boolean(c) => c.verify_row_count(expected),
            Data::Long(c) => c.verify_row_count(expected),
            Data::Float(c) => c.verify_row_count(expected),
            Data::Double(c) => c.verify_row_count(expected),
            Data::Timestamp(c) => c.verify_row_count(expected),
            Data::Decimal(c) => c.verify_row_count(expected),
            Data::String(c) => c.verify_row_count(expected),
            Data::Binary(c) => c.verify_row_count(expected),
            Data::Struct(s) => {
                let mut ok = s.verify_own_row_count(expected);
                let np = s.num_present();
                let n = s.children.len();
                let mut i: usize = 0;
                while i < n
                    invariant
                        i <= n,
                        (ok && Self::children_rows_ok(s.children@, i as int, np)) == (
                        s.written().len() == expected && Self::children_rows_ok(
                            s.children@,
                            0,
                            np,
                        )),
                    decreases n - i,
                {
                    proof {
                        Self::lemma_hmax(s.children@, 0, i as int);
                        Self::lemma_all_wf_index(s.children@, 0, i as int);
                    }
                    let c_ok = s.children[i].verify_row_count(np);
                    ok = ok && c_ok;
                    i += 1;
                }
                ok
            },
            Data::List(l) => {
                let own = l.verify_own_row_count(expected);
                let c_ok = l.child.verify_row_count(l.child_count());
                own && c_ok
            },
            Data::Dict(m) => {
                let own = m.verify_own_row_count(expected);
                let k_ok = m.keys.verify_row_count(m.child_count());
                let v_ok = m.values.verify_row_count(m.child_count());
                own && k_ok && v_ok
            },
            Data::Union(u) => {
                let mut ok = u.verify_own_row_count(expected);
                let n = u.children.len();
                let mut i: usize = 0;
                while i < n
                    invariant
                        i <= n,
                        (ok && Self::union_rows_ok(u.children@, u.child_counts@, i as int)) == (
                        u.written().len() == expected && Self::union_rows_ok(
                            u.children@,
                            u.child_counts@,
                            0,
                        )),
                    decreases n - i,
                {
                    proof {
                        Self::lemma_hmax(u.children@, 0, i as int);
                        Self::lemma_all_wf_index(u.children@, 0, i as int);
                    }
                    let c_ok = u.children[i].verify_row_count(u.child_count(i));
                    ok = ok && c_ok;
                    i += 1;
                }
                ok
            },
        }
    }
}

impl Data {
    /// Write one null row into this column.
    pub fn write_null(&mut self)
        requires
            old(self).wf(),
            old(self).spec_rows() < u64::MAX,
        ensures
            final(self).wf(),
            final(self).spec_rows() == old(self).spec_rows() + 1,
            final(self).height() == old(self).height(),
            final(self).spec_column_id() == old(self).spec_column_id(),
            final(self).spec_column_count() == old(self).spec_column_count(),
    {
        match self {
            Data::Boolean(c) => c.write_null(),
            Data::Long(c) => c.write_null(),
            Data::Float(c) => c.write_null(),
            Data::Double(c) => c.write_null(),
            Data::Timestamp(c) => c.write_null(),
            Data::Decimal(c) => c.write_null(),
            Data::String(c) => c.write_null(),
            Data::Binary(c) => c.write_null(),
            Data::Struct(s) => s.write_null(),
            Data::List(l) => l.write_null(),
            Data::Dict(m) => m.write_null(),
            Data::Union(u) => u.write_null(),
        }
    }

    /// Borrow this column as a boolean column; it must be one.
    pub fn unwrap_boolean(&mut self) -> (r: &mut crate::data::boolean::BooleanData)
        requires
            (*old(self)) is Boolean,
        ensures
            *old(self) == Data::Boolean(*r),
            *final(self) == Data::Boolean(*final(r)),
    {
        match self {
            Data::Boolean(c) => c,
            _ => unreached(),
        }
    }

    /// Borrow this column as an integer column; it must be one.
    pub fn unwrap_long(&mut self) -> (r: &mut crate::data::long::LongData)
        requires
            (*old(self)) is Long,
        ensures
            *old(self) == Data::Long(*r),
            *final(self) == Data::Long(*final(r)),
    {
        match self {
            Data::Long(c) => c,
            _ => unreached(),
        }
    }

    /// Borrow this column as a float column; it must be one.
    pub fn unwrap_float(&mut self) -> (r: &mut crate::data::float::FloatData)
        requires
            (*old(self)) is Float,
        ensures
            *old(self) == Data::Float(*r),
            *final(self) == Data::Float(*final(r)),
    {
        match self {
            Data::Float(c) => c,
            _ => unreached(),
        }
    }

    /// Borrow this column as a double column; it must be one.
    pub fn unwrap_double(&mut self) -> (r: &mut crate::data::double::DoubleData)
        requires
            (*old(self)) is Double,
        ensures
            *old(self) == Data::Double(*r),
            *final(self) == Data::Double(*final(r)),
    {
        match self {
            Data::Double(c) => c,
            _ => unreached(),
        }
    }

    /// Borrow this column as a timestamp column; it must be one.
    pub fn unwrap_timestamp(&mut self) -> (r: &mut crate::data::timestamp::TimestampData)
        requires
            (*old(self)) is Timestamp,
        ensures
            *old(self) == Data::Timestamp(*r),
            *final(self) == Data::Timestamp(*final(r)),
    {
        match self {
            Data::Timestamp(c) => c,
            _ => unreached(),
        }
    }

    /// Borrow this column as a decimal column; it must be one.
    pub fn unwrap_decimal(&mut self) -> (r: &mut crate::data::decimal::DecimalData)
        requires
            (*old(self)) is Decimal,
        ensures
            *old(self) == Data::Decimal(*r),
            *final(self) == Data::Decimal(*final(r)),
    {
        match self {
            Data::Decimal(c) => c,
            _ => unreached(),
        }
    }

    /// Borrow this column as a string column; it must be one.
    pub fn unwrap_string(&mut self) -> (r: &mut crate::data::string::StringData)
        requires
            (*old(self)) is String,
        ensures
            *old(self) == Data::String(*r),
            *final(self) == Data::String(*final(r)),
    {
        match self {
            Data::String(c) => c,
            _ => unreached(),
        }
    }

    /// Borrow this column as a binary column; it must be one.
    pub fn unwrap_binary(&mut self) -> (r: &mut crate::data::binary::BinaryData)
        requires
            (*old(self)) is Binary,
        ensures
            *old(self) == Data::Binary(*r),
            *final(self) == Data::Binary(*final(r)),
    {
        match self {
            Data::Binary(c) => c,
            _ => unreached(),
        }
    }

    /// Borrow this column as a struct column; it must be one.
    pub fn unwrap_struct(&mut self) -> (r: &mut crate::data::struct_::StructData)
        requires
            (*old(self)) is Struct,
        ensures
            *old(self) == Data::Struct(*r),
            *final(self) == Data::Struct(*final(r)),
    {
        match self {
            Data::Struct(c) => c,
            _ => unreached(),
        }
    }

    /// Borrow this column as a list column; it must be one.
    pub fn unwrap_list(&mut self) -> (r: &mut crate::data::list::ListData)
        requires
            (*old(self)) is List,
        ensures
            *old(self) == Data::List(*r),
            *final(self) == Data::List(*final(r)),
    {
        match self {
            Data::List(c) => c,
            _ => unreached(),
        }
    }

    /// Borrow this column as a map column; it must be one.
    pub fn unwrap_map(&mut self) -> (r: &mut crate::data::map::MapData)
        requires
            (*old(self)) is Dict,
        ensures
            *old(self) == Data::Dict(*r),
            *final(self) == Data::Dict(*final(r)),
    {
        match self {
            Data::Dict(c) => c,
            _ => unreached(),
        }
    }

    /// Borrow this column as a union column; it must be one.
    pub fn unwrap_union(&mut self) -> (r: &mut crate::data::union::UnionData)
        requires
            (*old(self)) is Union,
        ensures
            *old(self) == Data::Union(*r),
            *final(self) == Data::Union(*final(r)),
    {
        match self {
            Data::Union(c) => c,
            _ => unreached(),
        }
    }
}

impl Data {
    /// Emit every column's ROW_INDEX stream, this node first, then the
    /// children in pre-order; afterwards every rolling row group has been
    /// folded into its column's stripe statistics.
    #[verifier::loop_isolation(false)]
    #[verifier::rlimit(100)]
    pub fn write_index_streams(&mut self, out: &mut CountWrite, stream_infos: &mut Vec<StreamInfo>)
        requires
            old(self).wf(),
        ensures
            final(self).wf(),
            final(self).tree_flushed(),
            Self::same_written(*old(self), *final(self)),
            final(self).height() == old(self).height(),
            final(self).spec_column_id() == old(self).spec_column_id(),
            final(self).spec_column_count() == old(self).spec_column_count(),
            final(out)@.len() >= old(out)@.len(),
            extends(old(out)@, final(out)@),
        decreases old(self).height(),
    {
        match self {
            Data::Boolean(c) => {
                c.write_index_streams(out, stream_infos);
                proof {
                    assert(Self::same_written(*old(self), *self));
                }
            },
            Data::Long(c) => {
                c.write_index_streams(out, stream_infos);
                proof {
                    assert(Self::same_written(*old(self), *self));
                }
            },
            Data::Float(c) => {
                c.write_index_streams(out, stream_infos);
                proof {
                    assert(Self::same_written(*old(self), *self));
                }
            },
            Data::Double(c) => {
                c.write_index_streams(out, stream_infos);
                proof {
                    assert(Self::same_written(*old(self), *self));
                }
            },
            Data::Timestamp(c) => {
                c.write_index_streams(out, stream_infos);
                proof {
                    assert(Self::same_written(*old(self), *self));
                }
            },
            Data::Decimal(c) => {
                c.write_index_streams(out, stream_infos);
                proof {
                    assert(Self::same_written(*old(self), *self));
                }
            },
            Data::String(c) => {
                c.write_index_streams(out, stream_infos);
                proof {
                    assert(Self::same_written(*old(self), *self));
                }
            },
            Data::Binary(c) => {
                c.write_index_streams(out, stream_infos);
                proof {
                    assert(Self::same_written(*old(self), *self));
                }
            },
            Data::Struct(s) => {
                s.write_own_index(out, stream_infos);
                let n = s.children.len();
                let mut i: usize = 0;
                while i < n
                    invariant
                        i <= n == s.children@.len(),
                        out@.len() >= old(out)@.len(),
                        extends(old(out)@, out@),
                        s.own_wf(),
                        s.group_flushed(),
                        s.written() == old(self)->Struct_0.written(),
                        s.spec_column_id() == old(self)->Struct_0.spec_column_id(),
                        forall|j: int|
                            i <= j < n ==> s.children@[j] == old(self)->Struct_0.children@[j],
                        forall|j: int|
                            0 <= j < i ==> (#[trigger] s.children@[j]).wf()
                                && s.children@[j].tree_flushed()
                                && Self::same_written(
                                    old(self)->Struct_0.children@[j],
                                    s.children@[j],
                                )
                                && s.children@[j].height()
                                == old(self)->Struct_0.children@[j].height()
                                && s.children@[j].spec_column_count()
                                == old(self)->Struct_0.children@[j].spec_column_count(),
                    decreases n - i,
                {
                    proof {
                        Self::lemma_hmax(old(self)->Struct_0.children@, 0, i as int);
                        Self::lemma_all_wf_index(old(self)->Struct_0.children@, 0, i as int);
                    }
                    let child = s.child(i);
                    child.write_index_streams(out, stream_infos);
                    i += 1;
                }
                proof {
                    Self::lemma_all_wf_pointwise(s.children@, 0);
                    Self::lemma_all_flushed_pointwise(s.children@, 0);
                    Self::lemma_all_same_written_pointwise(
                        old(self)->Struct_0.children@,
                        s.children@,
                        0,
                    );
                    assert(Self::same_written(*old(self), *self));
                    Self::lemma_hmax_equal(old(self)->Struct_0.children@, s.children@, 0);
                    lemma_count_seq_equal(old(self)->Struct_0.children@, s.children@, 0);
                }
            },
            Data::List(l) => {
                l.write_own_index(out, stream_infos);
                let child = l.child();
                child.write_index_streams(out, stream_infos);
                proof {
                    assert(Self::same_written(*old(self), *self));
                }
            },
            Data::Dict(m) => {
                m.write_own_index(out, stream_infos);
                let keys = m.keys();
                keys.write_index_streams(out, stream_infos);
                let values = m.values();
                values.write_index_streams(out, stream_infos);
                proof {
                    assert(Self::same_written(*old(self), *self));
                }
            },
            Data::Union(u) => {
                u.write_own_index(out, stream_infos);
                let n = u.children.len();
                let mut i: usize = 0;
                while i < n
                    invariant
                        i <= n == u.children@.len(),
                        out@.len() >= old(out)@.len(),
                        extends(old(out)@, out@),
                        u.own_wf(),
                        u.group_flushed(),
                        u.written() == old(self)->Union_0.written(),
                        u.spec_column_id() == old(self)->Union_0.spec_column_id(),
                        u.child_counts@.len() == n,
                        forall|j: int|
                            i <= j < n ==> u.children@[j] == old(self)->Union_0.children@[j],
                        forall|j: int|
                            0 <= j < i ==> (#[trigger] u.children@[j]).wf()
                                && u.children@[j].tree_flushed()
                                && Self::same_written(
                                    old(self)->Union_0.children@[j],
                                    u.children@[j],
                                )
                                && u.children@[j].height()
                                == old(self)->Union_0.children@[j].height()
                                && u.children@[j].spec_column_count()
                                == old(self)->Union_0.children@[j].spec_column_count(),
                    decreases n - i,
                {
                    proof {
                        Self::lemma_hmax(old(self)->Union_0.children@, 0, i as int);
                        Self::lemma_all_wf_index(old(self)->Union_0.children@, 0, i as int);
                    }
                    let child = u.child(i);
                    child.write_index_streams(out, stream_infos);
                    i += 1;
                }
                proof {
                    Self::lemma_all_wf_pointwise(u.children@, 0);
                    Self::lemma_all_flushed_pointwise(u.children@, 0);
                    Self::lemma_all_same_written_pointwise(
                        old(self)->Union_0.children@,
                        u.children@,
                        0,
                    );
                    assert(Self::same_written(*old(self), *self));
                    Self::lemma_hmax_equal(old(self)->Union_0.children@, u.children@, 0);
                    lemma_count_seq_equal(old(self)->Union_0.children@, u.children@, 0);
                }
            },
        }
    }

    /// Emit every column's data streams, this node first, then the children
    /// in pre-order; afterwards the whole tree is empty again.
    #[verifier::loop_isolation(false)]
    #[verifier::rlimit(100)]
    pub fn write_data_streams(&mut self, out: &mut CountWrite, stream_infos: &mut Vec<StreamInfo>)
        requires
            old(self).wf(),
        ensures
            final(self).wf(),
            final(self).tree_reset(),
            final(self).height() == old(self).height(),
            final(self).spec_column_id() == old(self).spec_column_id(),
            final(self).spec_column_count() == old(self).spec_column_count(),
            final(out)@.len() >= old(out)@.len(),
            extends(old(out)@, final(out)@),
        decreases old(self).height(),
    {
        match self {
            Data::Boolean(c) => {
                let _ = c.write_data_streams(out, stream_infos);
            },
            Data::Long(c) => c.write_data_streams(out, stream_infos),
            Data::Float(c) => {
                let _ = c.write_data_streams(out, stream_infos);
            },
            Data::Double(c) => {
                let _ = c.write_data_streams(out, stream_infos);
            },
            Data::Timestamp(c) => {
                let _ = c.write_data_streams(out, stream_infos);
            },
            Data::Decimal(c) => {
                let _ = c.write_data_streams(out, stream_infos);
            },
            Data::String(c) => {
                let _ = c.write_data_streams(out, stream_infos);
            },
            Data::Binary(c) => {
                let _ = c.write_data_streams(out, stream_infos);
            },
            Data::Struct(s) => {
                s.write_own_data(out, stream_infos);
                let n = s.children.len();
                let mut i: usize = 0;
                while i < n
                    invariant
                        i <= n == s.children@.len(),
                        out@.len() >= old(out)@.len(),
                        extends(old(out)@, out@),
                        s.own_wf(),
                        s.written().len() == 0,
                        s.spec_column_id() == old(self)->Struct_0.spec_column_id(),
                        forall|j: int|
                            i <= j < n ==> s.children@[j] == old(self)->Struct_0.children@[j],
                        forall|j: int|
                            0 <= j < i ==> (#[trigger] s.children@[j]).wf()
                                && s.children@[j].tree_reset()
                                && s.children@[j].height()
                                == old(self)->Struct_0.children@[j].height()
                                && s.children@[j].spec_column_count()
                                == old(self)->Struct_0.children@[j].spec_column_count(),
                    decreases n - i,
                {
                    proof {
                        Self::lemma_hmax(old(self)->Struct_0.children@, 0, i as int);
                        Self::lemma_all_wf_index(old(self)->Struct_0.children@, 0, i as int);
                    }
                    let child = s.child(i);
                    child.write_data_streams(out, stream_infos);
                    i += 1;
                }
                proof {
                    Self::lemma_all_wf_pointwise(s.children@, 0);
                    Self::lemma_all_reset_pointwise(s.children@, 0);
                    Self::lemma_hmax_equal(old(self)->Struct_0.children@, s.children@, 0);
                    lemma_count_seq_equal(old(self)->Struct_0.children@, s.children@, 0);
                }
            },
            Data::List(l) => {
                let _ = l.write_own_data(out, stream_infos);
                let child = l.child();
                child.write_data_streams(out, stream_infos);
            },
            Data::Dict(m) => {
                let _ = m.write_own_data(out, stream_infos);
                let keys = m.keys();
                keys.write_data_streams(out, stream_infos);
                let values = m.values();
                values.write_data_streams(out, stream_infos);
            },
            Data::Union(u) => {
                let _ = u.write_own_data(out, stream_infos);
                let n = u.children.len();
                let mut i: usize = 0;
                while i < n
                    invariant
                        i <= n == u.children@.len(),
                        out@.len() >= old(out)@.len(),
                        extends(old(out)@, out@),
                        u.own_wf(),
                        u.written().len() == 0,
                        u.spec_column_id() == old(self)->Union_0.spec_column_id(),
                        u.child_counts@.len() == n,
                        forall|j: int|
                            i <= j < n ==> u.children@[j] == old(self)->Union_0.children@[j],
                        forall|j: int|
                            0 <= j < i ==> (#[trigger] u.children@[j]).wf()
                                && u.children@[j].tree_reset()
                                && u.children@[j].height()
                                == old(self)->Union_0.children@[j].height()
                                && u.children@[j].spec_column_count()
                                == old(self)->Union_0.children@[j].spec_column_count(),
                    decreases n - i,
                {
                    proof {
                        Self::lemma_hmax(old(self)->Union_0.children@, 0, i as int);
                        Self::lemma_all_wf_index(old(self)->Union_0.children@, 0, i as int);
                    }
                    let child = u.child(i);
                    child.write_data_streams(out, stream_infos);
                    i += 1;
                }
                proof {
                    Self::lemma_all_wf_pointwise(u.children@, 0);
                    Self::lemma_all_reset_pointwise(u.children@, 0);
                    Self::lemma_hmax_equal(old(self)->Union_0.children@, u.children@, 0);
                    lemma_count_seq_equal(old(self)->Union_0.children@, u.children@, 0);
                }
            },
        }
    }

    /// Append every column's stripe statistics in pre-order: exactly this
    /// subtree's `tree_stats`, column by column.
    #[verifier::loop_isolation(false)]
    #[verifier::rlimit(100)]
    pub fn statistics(&self, out: &mut Vec<Statistics>)
        requires
            self.wf(),
        ensures
            final(out)@.len() == old(out)@.len() + self.spec_column_count(),
            forall|i: int| 0 <= i < old(out)@.len() ==> final(out)@[i] == #[trigger] old(out)@[i],
            forall|i: int|
                old(out)@.len() <= i < final(out)@.len() ==> (#[trigger] final(out)@[i]).wf(),
            forall|k: int|
                0 <= k < self.tree_stats().len() ==> Statistics::stats_match(
                    final(out)@[old(out)@.len() + k],
                    #[trigger] self.tree_stats()[k],
                ),
        decreases self.height(),
    {
        proof {
            Self::lemma_tree_stats_len(*self);
        }
        match self {
            Data::Boolean(c) => {
                c.statistics(out);
                proof {
                    assert forall|i: int|
                        0 <= i < old(out)@.len() implies out@[i] == #[trigger] old(out)@[i] by {}
                    assert(self.tree_stats() =~= seq![
                        Statistics::Boolean(c.spec_stripe_stats()),
                    ]);
                    assert(out@[old(out)@.len() as int] == out@.last());
                }
            },
            Data::Long(c) => {
                c.statistics(out);
                proof {
                    assert forall|i: int|
                        0 <= i < old(out)@.len() implies out@[i] == #[trigger] old(out)@[i] by {}
                    assert(self.tree_stats() =~= seq![
                        Statistics::Long(c.spec_stripe_stats()),
                    ]);
                    assert(out@[old(out)@.len() as int] == out@.last());
                }
            },
            Data::Float(c) => {
                c.statistics(out);
                proof {
                    assert forall|i: int|
                        0 <= i < old(out)@.len() implies out@[i] == #[trigger] old(out)@[i] by {}
                    assert(self.tree_stats() =~= seq![
                        Statistics::Generic(c.spec_stripe_stats()),
                    ]);
                    assert(out@[old(out)@.len() as int] == out@.last());
                }
            },
            Data::Double(c) => {
                c.statistics(out);
                proof {
                    assert forall|i: int|
                        0 <= i < old(out)@.len() implies out@[i] == #[trigger] old(out)@[i] by {}
                    assert(self.tree_stats() =~= seq![
                        Statistics::Generic(c.spec_stripe_stats()),
                    ]);
                    assert(out@[old(out)@.len() as int] == out@.last());
                }
            },
            Data::Timestamp(c) => {
                c.statistics(out);
                proof {
                    assert forall|i: int|
                        0 <= i < old(out)@.len() implies out@[i] == #[trigger] old(out)@[i] by {}
                    assert(self.tree_stats() =~= seq![
                        Statistics::Timestamp(c.spec_stripe_stats()),
                    ]);
                    assert(out@[old(out)@.len() as int] == out@.last());
                }
            },
            Data::Decimal(c) => {
                c.statistics(out);
                proof {
                    assert forall|i: int|
                        0 <= i < old(out)@.len() implies out@[i] == #[trigger] old(out)@[i] by {}
                    assert(self.tree_stats() =~= seq![
                        Statistics::Decimal(c.spec_stripe_stats()),
                    ]);
                    assert(out@[old(out)@.len() as int] == out@.last());
                }
            },
            Data::String(c) => {
                c.statistics(out);
                proof {
                    assert forall|i: int|
                        0 <= i < old(out)@.len() implies out@[i] == #[trigger] old(out)@[i] by {}
                    assert(self.tree_stats() =~= seq![
                        Statistics::String(c.spec_stripe_stats()),
                    ]);
                    assert(out@[old(out)@.len() as int] == out@.last());
                }
            },
            Data::Binary(c) => {
                c.statistics(out);
                proof {
                    assert forall|i: int|
                        0 <= i < old(out)@.len() implies out@[i] == #[trigger] old(out)@[i] by {}
                    assert(self.tree_stats() =~= seq![
                        Statistics::Binary(c.spec_stripe_stats()),
                    ]);
                    assert(out@[old(out)@.len() as int] == out@.last());
                }
            },
            Data::Struct(s) => {
                s.statistics_own(out);
                let ghost kids = Self::tree_stats_seq(s.children@, 0);
                let ghost mark = old(out)@.len() + 1;
                let n = s.children.len();
                let mut i: usize = 0;
                while i < n
                    invariant
                        i <= n == s.children@.len(),
                        out@.len() >= mark,
                        out@.len() - mark <= kids.len(),
                        out@.len() == old(out)@.len() + 1 + Self::count_seq(s.children@, 0)
                            - Self::count_seq(s.children@, i as int),
                        forall|j: int|
                            0 <= j < old(out)@.len() ==> out@[j] == #[trigger] old(out)@[j],
                        forall|j: int|
                            old(out)@.len() <= j < out@.len() ==> (#[trigger] out@[j]).wf(),
                        out@[old(out)@.len() as int] == Statistics::Generic(
                            s.spec_stripe_stats(),
                        ),
                        forall|t: int|
                            0 <= t < out@.len() - mark ==> Statistics::stats_match(
                                out@[mark + t],
                                #[trigger] kids[t],
                            ),
                        Self::tree_stats_seq(s.children@, i as int) == kids.skip(
                            out@.len() - mark,
                        ),
                    decreases n - i,
                {
                    proof {
                        Self::lemma_hmax(s.children@, 0, i as int);
                        Self::lemma_all_wf_index(s.children@, 0, i as int);
                        lemma_count_seq_le(s.children@, i as int);
                        Self::lemma_tree_stats_len(s.children@[i as int]);
                        assert(Self::tree_stats_seq(s.children@, i as int)
                            == s.children@[i as int].tree_stats() + Self::tree_stats_seq(
                            s.children@,
                            i + 1,
                        ));
                        lemma_skip_concat_at(
                            kids,
                            out@.len() - mark,
                            s.children@[i as int].tree_stats(),
                            Self::tree_stats_seq(s.children@, i + 1),
                        );
                    }
                    let ghost pre = out@;
                    s.children[i].statistics(out);
                    i += 1;
                    proof {
                        assert forall|j: int|
                            old(out)@.len() <= j < out@.len() implies (#[trigger] out@[j]).wf() by {
                            if j < pre.len() {
                                assert(out@[j] == pre[j]);
                            }
                        }
                        assert forall|t: int|
                            0 <= t < out@.len() - mark implies Statistics::stats_match(
                            out@[mark + t],
                            #[trigger] kids[t],
                        ) by {
                            if mark + t < pre.len() {
                                assert(out@[mark + t] == pre[mark + t]);
                            } else {
                                let u = mark + t - pre.len();
                                assert(Statistics::stats_match(
                                    out@[pre.len() + u],
                                    s.children@[i - 1].tree_stats()[u],
                                ));
                                assert(kids[t] == s.children@[i - 1].tree_stats()[u]);
                            }
                        }
                    }
                }
                proof {
                    assert(Self::tree_stats_seq(s.children@, n as int) =~= Seq::<
                        Statistics,
                    >::empty());
                    assert(kids.skip(out@.len() - mark).len() == kids.len() - (out@.len()
                        - mark));
                    assert(out@.len() - mark == kids.len());
                    assert(self.tree_stats() == seq![
                        Statistics::Generic(s.spec_stripe_stats()),
                    ] + kids);
                    assert forall|k: int|
                        0 <= k < self.tree_stats().len() implies Statistics::stats_match(
                        out@[old(out)@.len() + k],
                        #[trigger] self.tree_stats()[k],
                    ) by {
                        if k == 0 {
                            assert(self.tree_stats()[0] == Statistics::Generic(
                                s.spec_stripe_stats(),
                            ));
                        } else {
                            assert(self.tree_stats()[k] == kids[k - 1]);
                        }
                    }
                }
            },
            Data::List(l) => {
                l.statistics_own(out);
                let ghost pre = out@;
                l.child.statistics(out);
                proof {
                    assert forall|j: int|
                        old(out)@.len() <= j < out@.len() implies (#[trigger] out@[j]).wf() by {
                        if j < pre.len() {
                            assert(out@[j] == pre[j]);
                        }
                    }
                    assert forall|i: int|
                        0 <= i < old(out)@.len() implies out@[i] == #[trigger] old(out)@[i] by {
                        assert(out@[i] == pre[i]);
                    }
                    Self::lemma_tree_stats_len(*l.child);
                    assert(self.tree_stats() == seq![
                        Statistics::Generic(l.spec_stripe_stats()),
                    ] + l.child.tree_stats());
                    assert(out@[old(out)@.len() as int] == pre[old(out)@.len() as int]);
                    assert forall|k: int|
                        0 <= k < self.tree_stats().len() implies Statistics::stats_match(
                        out@[old(out)@.len() + k],
                        #[trigger] self.tree_stats()[k],
                    ) by {
                        if k == 0 {
                            assert(self.tree_stats()[0] == Statistics::Generic(
                                l.spec_stripe_stats(),
                            ));
                        } else {
                            assert(self.tree_stats()[k] == l.child.tree_stats()[k - 1]);
                            assert(Statistics::stats_match(
                                out@[pre.len() + (k - 1)],
                                l.child.tree_stats()[k - 1],
                            ));
                        }
                    }
                }
            },
            Data::Dict(m) => {
                m.statistics_own(out);
                let ghost pre = out@;
                m.keys.statistics(out);
                proof {
                    assert forall|j: int|
                        old(out)@.len() <= j < out@.len() implies (#[trigger] out@[j]).wf() by {
                        if j < pre.len() {
                            assert(out@[j] == pre[j]);
                        }
                    }
                }
                let ghost pre2 = out@;
                m.values.statistics(out);
                proof {
                    assert forall|j: int|
                        old(out)@.len() <= j < out@.len() implies (#[trigger] out@[j]).wf() by {
                        if j < pre2.len() {
                            assert(out@[j] == pre2[j]);
                        }
                    }
                    assert forall|i: int|
                        0 <= i < old(out)@.len() implies out@[i] == #[trigger] old(out)@[i] by {
                        assert(out@[i] == pre2[i]);
                        assert(pre2[i] == pre[i]);
                    }
                    Self::lemma_tree_stats_len(*m.keys);
                    Self::lemma_tree_stats_len(*m.values);
                    assert(self.tree_stats() == seq![
                        Statistics::Generic(m.spec_stripe_stats()),
                    ] + m.keys.tree_stats() + m.values.tree_stats());
                    assert(out@[old(out)@.len() as int] == pre2[old(out)@.len() as int]);
                    assert(pre2[old(out)@.len() as int] == pre[old(out)@.len() as int]);
                    assert forall|k: int|
                        0 <= k < self.tree_stats().len() implies Statistics::stats_match(
                        out@[old(out)@.len() + k],
                        #[trigger] self.tree_stats()[k],
                    ) by {
                        let kn = m.keys.tree_stats().len() as int;
                        if k == 0 {
                            assert(self.tree_stats()[0] == Statistics::Generic(
                                m.spec_stripe_stats(),
                            ));
                        } else if k <= kn {
                            assert(self.tree_stats()[k] == m.keys.tree_stats()[k - 1]);
                            assert(Statistics::stats_match(
                                pre2[pre.len() + (k - 1)],
                                m.keys.tree_stats()[k - 1],
                            ));
                            assert(out@[pre.len() + (k - 1)] == pre2[pre.len() + (k - 1)]);
                        } else {
                            assert(self.tree_stats()[k] == m.values.tree_stats()[k - 1 - kn]);
                            assert(Statistics::stats_match(
                                out@[pre2.len() + (k - 1 - kn)],
                                m.values.tree_stats()[k - 1 - kn],
                            ));
                        }
                    }
                }
            },
            Data::Union(u) => {
                u.statistics_own(out);
                let ghost kids = Self::tree_stats_seq(u.children@, 0);
                let ghost mark = old(out)@.len() + 1;
                let n = u.children.len();
                let mut i: usize = 0;
                while i < n
                    invariant
                        i <= n == u.children@.len(),
                        out@.len() >= mark,
                        out@.len() - mark <= kids.len(),
                        out@.len() == old(out)@.len() + 1 + Self::count_seq(u.children@, 0)
                            - Self::count_seq(u.children@, i as int),
                        forall|j: int|
                            0 <= j < old(out)@.len() ==> out@[j] == #[trigger] old(out)@[j],
                        forall|j: int|
                            old(out)@.len() <= j < out@.len() ==> (#[trigger] out@[j]).wf(),
                        out@[old(out)@.len() as int] == Statistics::Generic(
                            u.spec_stripe_stats(),
                        ),
                        forall|t: int|
                            0 <= t < out@.len() - mark ==> Statistics::stats_match(
                                out@[mark + t],
                                #[trigger] kids[t],
                            ),
                        Self::tree_stats_seq(u.children@, i as int) == kids.skip(
                            out@.len() - mark,
                        ),
                    decreases n - i,
                {
                    proof {
                        Self::lemma_hmax(u.children@, 0, i as int);
                        Self::lemma_all_wf_index(u.children@, 0, i as int);
                        lemma_count_seq_le(u.children@, i as int);
                        Self::lemma_tree_stats_len(u.children@[i as int]);
                        assert(Self::tree_stats_seq(u.children@, i as int)
                            == u.children@[i as int].tree_stats() + Self::tree_stats_seq(
                            u.children@,
                            i + 1,
                        ));
                        lemma_skip_concat_at(
                            kids,
                            out@.len() - mark,
                            u.children@[i as int].tree_stats(),
                            Self::tree_stats_seq(u.children@, i + 1),
                        );
                    }
                    let ghost pre = out@;
                    u.children[i].statistics(out);
                    i += 1;
                    proof {
                        assert forall|j: int|
                            old(out)@.len() <= j < out@.len() implies (#[trigger] out@[j]).wf() by {
                            if j < pre.len() {
                                assert(out@[j] == pre[j]);
                            }
                        }
                        assert forall|t: int|
                            0 <= t < out@.len() - mark implies Statistics::stats_match(
                            out@[mark + t],
                            #[trigger] kids[t],
                        ) by {
                            if mark + t < pre.len() {
                                assert(out@[mark + t] == pre[mark + t]);
                            } else {
                                let x = mark + t - pre.len();
                                assert(Statistics::stats_match(
                                    out@[pre.len() + x],
                                    u.children@[i - 1].tree_stats()[x],
                                ));
                                assert(kids[t] == u.children@[i - 1].tree_stats()[x]);
                            }
                        }
                    }
                }
                proof {
                    assert(Self::tree_stats_seq(u.children@, n as int) =~= Seq::<
                        Statistics,
                    >::empty());
                    assert(kids.skip(out@.len() - mark).len() == kids.len() - (out@.len()
                        - mark));
                    assert(out@.len() - mark == kids.len());
                    assert(self.tree_stats() == seq![
                        Statistics::Generic(u.spec_stripe_stats()),
                    ] + kids);
                    assert forall|k: int|
                        0 <= k < self.tree_stats().len() implies Statistics::stats_match(
                        out@[old(out)@.len() + k],
                        #[trigger] self.tree_stats()[k],
                    ) by {
                        if k == 0 {
                            assert(self.tree_stats()[0] == Statistics::Generic(
                                u.spec_stripe_stats(),
                            ));
                        } else {
                            assert(self.tree_stats()[k] == kids[k - 1]);
                        }
                    }
                }
            },
        }
    }

    /// Bytes buffered by this subtree; used for stripe-size rolling.
    #[verifier::loop_isolation(false)]
    pub fn estimated_size(&self) -> (r: usize)
        requires
            self.wf(),
        decreases self.height(),
    {
        match self {
            Data::Boolean(c) => c.estimated_size(),
            Data::Long(c) => c.estimated_size(),
            Data::Float(c) => c.estimated_size(),
            Data::Double(c) => c.estimated_size(),
            Data::Timestamp(c) => c.estimated_size(),
            Data::Decimal(c) => c.estimated_size(),
            Data::String(c) => c.estimated_size(),
            Data::Binary(c) => c.estimated_size(),
            Data::Struct(s) => {
                let mut total = s.own_estimated_size();
                let n = s.children.len();
                let mut i: usize = 0;
                while i < n
                    invariant
                        i <= n == s.children@.len(),
                    decreases n - i,
                {
                    proof {
                        Self::lemma_hmax(s.children@, 0, i as int);
                        Self::lemma_all_wf_index(s.children@, 0, i as int);
                    }
                    let c = s.children[i].estimated_size();
                    total = sat_add_usize(total, c);
                    i += 1;
                }
                total
            },
            Data::List(l) => {
                let a = l.own_estimated_size();
                let b = l.child.estimated_size();
                sat_add_usize(a, b)
            },
            Data::Dict(m) => {
                let a = m.own_estimated_size();
                let b = m.keys.estimated_size();
                let c = m.values.estimated_size();
                sat_add_usize(sat_add_usize(a, b), c)
            },
            Data::Union(u) => {
                let mut total = u.own_estimated_size();
                let n = u.children.len();
                let mut i: usize = 0;
                while i < n
                    invariant
                        i <= n == u.children@.len(),
                    decreases n - i,
                {
                    proof {
                        Self::lemma_hmax(u.children@, 0, i as int);
                        Self::lemma_all_wf_index(u.children@, 0, i as int);
                    }
                    let c = u.children[i].estimated_size();
                    total = sat_add_usize(total, c);
                    i += 1;
                }
                total
            },
        }
    }
}

/// If `s.skip(k) == a + b`, the take/skip marks advance over `a`.
pub proof fn lemma_skip_concat_at<T>(s: Seq<T>, k: int, a: Seq<T>, b: Seq<T>)
    requires
        0 <= k <= s.len(),
        s.skip(k) == a + b,
    ensures
        s.skip(k + a.len()) =~= b,
        forall|t: int| 0 <= t < a.len() ==> s[k + t] == #[trigger] a[t],
{
    broadcast use vstd::seq_lib::group_seq_properties;

    assert(s.skip(k).len() == a.len() + b.len());
    assert forall|t: int| 0 <= t < b.len() implies s.skip(k + a.len())[t] == b[t] by {
        assert(s.skip(k)[a.len() + t] == (a + b)[a.len() + t]);
    }
    assert forall|t: int| 0 <= t < a.len() implies s[k + t] == #[trigger] a[t] by {
        assert(s.skip(k)[t] == (a + b)[t]);
    }
}

/// Pointwise-equal column counts make equal totals.
pub proof fn lemma_count_seq_equal(a: Seq<Data>, b: Seq<Data>, i: int)
    requires
        a.len() == b.len(),
        0 <= i <= a.len(),
        forall|j: int|
            0 <= j < a.len() ==> (#[trigger] b[j]).spec_column_count() == a[j].spec_column_count(),
    ensures
        Data::count_seq(a, i) == Data::count_seq(b, i),
    decreases a.len() - i,
{
    if i < a.len() {
        lemma_count_seq_equal(a, b, i + 1);
    }
}

/// The tail total never exceeds the whole.
pub proof fn lemma_count_seq_le(s: Seq<Data>, i: int)
    requires
        0 <= i <= s.len(),
    ensures
        Data::count_seq(s, i) <= Data::count_seq(s, 0),
        i < s.len() ==> Data::count_seq(s, i) == s[i].spec_column_count() + Data::count_seq(
            s,
            i + 1,
        ),
    decreases i,
{
    if i > 0 {
        lemma_count_seq_le_helper(s, 0, i);
    }
}

proof fn lemma_count_seq_le_helper(s: Seq<Data>, i: int, j: int)
    requires
        0 <= i <= j <= s.len(),
    ensures
        Data::count_seq(s, j) <= Data::count_seq(s, i),
    decreases j - i,
{
    if i < j {
        lemma_count_seq_le_helper(s, i + 1, j);
    }
}

} // verus!
