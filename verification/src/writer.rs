use vstd::prelude::*;
use crate::compression::{Compression, CompressionKind, CompressionStream, NoCompression, stream_emits};
use crate::count_write::{CountWrite, extends};
use crate::data::Data;
use crate::encoder::varint::{varint_enc, pow128, lemma_varint_enc_len, lemma_pow128_pos};
use crate::proto::{enc_postscript, encode_postscript, encode_statistics, encode_stripe_information, pb_write_varint, pb_write_bytes, pb_write_bytes_vec, pb_write_packed, pb_key, pb_varint_field, pb_len_field, pb_packed_field, varints_cat};
use crate::schema::{Schema, Field};
use crate::statistics::Statistics;
use crate::stripe::{Stripe, StripeInfo};

verus! {

/// The errors this writer reports: every other misuse is excluded by
/// contract.
#[derive(Clone, Copy, PartialEq, Eq, Structural, Debug)]
pub enum OrcError {
    /// A batch was committed whose row count does not match what the
    /// columns received.
    RowCountMismatch,
    /// The total row count left the 64-bit range.
    TooManyRows,
}

/// Writer configuration: row-group width (0 disables row indexes), codec,
/// and the stripe-size flush threshold.
pub struct Config {
    pub row_index_stride: u32,
    pub compression: Compression,
    pub stripe_size: usize,
}

impl Config {
    pub open spec fn wf(&self) -> bool {
        self.compression.wf()
    }

    pub fn new() -> (r: Config)
        ensures
            r.wf(),
            r.row_index_stride == 10000,
            r.stripe_size == 67108864,
    {
        Config {
            row_index_stride: 10000,
            compression: NoCompression::new().build(),
            stripe_size: 67108864,
        }
    }

    pub fn with_row_index_stride(self, row_index_stride: u32) -> (r: Config)
        ensures
            r.row_index_stride == row_index_stride,
            r.compression == self.compression,
            r.stripe_size == self.stripe_size,
            self.wf() ==> r.wf(),
    {
        Config { row_index_stride, compression: self.compression, stripe_size: self.stripe_size }
    }

    pub fn with_compression(self, compression: Compression) -> (r: Config)
        ensures
            r.compression == compression,
            r.row_index_stride == self.row_index_stride,
            r.stripe_size == self.stripe_size,
            compression.wf() ==> r.wf(),
    {
        Config { row_index_stride: self.row_index_stride, compression, stripe_size: self.stripe_size }
    }

    pub fn with_stripe_size(self, stripe_size: usize) -> (r: Config)
        ensures
            r.stripe_size == stripe_size,
            r.compression == self.compression,
            r.row_index_stride == self.row_index_stride,
            self.wf() ==> r.wf(),
    {
        Config { row_index_stride: self.row_index_stride, compression: self.compression, stripe_size }
    }

    pub fn clone(&self) -> (r: Config)
        ensures
            r == *self,
    {
        Config {
            row_index_stride: self.row_index_stride,
            compression: self.compression,
            stripe_size: self.stripe_size,
        }
    }
}

/// The footer's `Type` list: the column ids handed to a struct's fields,
/// starting at `next` and advancing by each field's subtree size.
pub open spec fn subtype_ids_fields(fields: Seq<Field>, i: int, next: nat) -> Seq<u64>
    decreases fields, fields.len() - i,
    when 0 <= i <= fields.len()
{
    if i == fields.len() {
        Seq::empty()
    } else {
        seq![next as u64] + subtype_ids_fields(fields, i + 1, next + fields[i].1.column_count())
    }
}

/// The column ids handed to a union's variants.
pub open spec fn subtype_ids_schemas(vs: Seq<Schema>, i: int, next: nat) -> Seq<u64>
    decreases vs, vs.len() - i,
    when 0 <= i <= vs.len()
{
    if i == vs.len() {
        Seq::empty()
    } else {
        seq![next as u64] + subtype_ids_schemas(vs, i + 1, next + vs[i].column_count())
    }
}

/// The repeated `fieldNames` entries of a struct's `Type` message.
pub open spec fn field_names_enc(fields: Seq<Field>, i: int) -> Seq<u8>
    decreases fields, fields.len() - i,
    when 0 <= i <= fields.len()
{
    if i == fields.len() {
        Seq::empty()
    } else {
        pb_len_field(3, vstd::utf8::encode_utf8(fields[i].0@)) + field_names_enc(fields, i + 1)
    }
}

/// The payload of one column's `Type` message: its kind and, per kind, the
/// subtype ids, field names, maximum length or precision and scale.
pub open spec fn type_payload(schema: Schema, id: nat) -> Seq<u8>
    decreases schema,
{
    match schema {
        Schema::Boolean => pb_varint_field(1, 0),
        Schema::Short => pb_varint_field(1, 2),
        Schema::Int => pb_varint_field(1, 3),
        Schema::Long => pb_varint_field(1, 4),
        Schema::Date => pb_varint_field(1, 15),
        Schema::Float => pb_varint_field(1, 5),
        Schema::Double => pb_varint_field(1, 6),
        Schema::Timestamp => pb_varint_field(1, 9),
        Schema::String => pb_varint_field(1, 7),
        Schema::Binary => pb_varint_field(1, 8),
        Schema::Char(n) => pb_varint_field(1, 17) + pb_varint_field(4, n as nat),
        Schema::VarChar(n) => pb_varint_field(1, 16) + pb_varint_field(4, n as nat),
        Schema::Decimal(p, sc) => pb_varint_field(1, 14) + pb_varint_field(5, p as nat)
            + pb_varint_field(6, sc as nat),
        Schema::Struct(fields) => pb_varint_field(1, 12) + (if fields@.len() > 0 {
            pb_packed_field(2, subtype_ids_fields(fields@, 0, id + 1))
        } else {
            Seq::empty()
        }) + field_names_enc(fields@, 0),
        Schema::List(_) => pb_varint_field(1, 10) + pb_packed_field(2, seq![(id + 1) as u64]),
        Schema::Dict(k, _) => pb_varint_field(1, 11) + pb_packed_field(
            2,
            seq![(id + 1) as u64, (id + 1 + k.column_count()) as u64],
        ),
        Schema::Union(vs) => pb_varint_field(1, 13) + pb_packed_field(
            2,
            subtype_ids_schemas(vs@, 0, id + 1),
        ),
    }
}

/// The pre-order `Type` list of the subtree rooted at `schema`, whose root
/// carries column id `id`.
pub open spec fn enc_types(schema: Schema, id: nat) -> Seq<u8>
    decreases schema,
{
    pb_len_field(4, type_payload(schema, id)) + (match schema {
        Schema::Struct(fields) => enc_types_fields(fields@, 0, id + 1),
        Schema::List(e) => enc_types(*e, id + 1),
        Schema::Dict(k, v) => enc_types(*k, id + 1) + enc_types(*v, id + 1 + k.column_count()),
        Schema::Union(vs) => enc_types_schemas(vs@, 0, id + 1),
        _ => Seq::empty(),
    })
}

pub open spec fn enc_types_fields(fields: Seq<Field>, i: int, next: nat) -> Seq<u8>
    decreases fields, fields.len() - i,
    when 0 <= i <= fields.len()
{
    if i == fields.len() {
        Seq::empty()
    } else {
        enc_types(fields[i].1, next) + enc_types_fields(
            fields,
            i + 1,
            next + fields[i].1.column_count(),
        )
    }
}

pub open spec fn enc_types_schemas(vs: Seq<Schema>, i: int, next: nat) -> Seq<u8>
    decreases vs, vs.len() - i,
    when 0 <= i <= vs.len()
{
    if i == vs.len() {
        Seq::empty()
    } else {
        enc_types(vs[i], next) + enc_types_schemas(vs, i + 1, next + vs[i].column_count())
    }
}

/// Marker for the content region's length in the file-layout statement.
pub open spec fn region_len(n: nat) -> nat {
    n
}

/// The footer's `StripeInformation` entries for the finished stripes.
pub open spec fn enc_stripes(infos: Seq<StripeInfo>) -> Seq<u8>
    decreases infos.len(),
{
    if infos.len() == 0 {
        Seq::empty()
    } else {
        enc_stripes(infos.drop_last()) + crate::proto::enc_stripe_information(
            infos.last().offset as nat,
            infos.last().index_length as nat,
            infos.last().data_length as nat,
            infos.last().footer_length as nat,
            infos.last().num_rows as nat,
        )
    }
}

/// The sum of the row counts of the finished stripes.
pub open spec fn sum_rows(s: Seq<StripeInfo>) -> int
    decreases s.len(),
{
    if s.len() == 0 {
        0
    } else {
        sum_rows(s.drop_last()) + s.last().num_rows
    }
}

/// The total of the recorded index, data and footer lengths.
pub open spec fn sum_lens(s: Seq<StripeInfo>) -> int
    decreases s.len(),
{
    if s.len() == 0 {
        0
    } else {
        sum_lens(s.drop_last()) + s.last().index_length + s.last().data_length
            + s.last().footer_length
    }
}

pub proof fn lemma_sum_rows_nonneg(s: Seq<StripeInfo>)
    ensures
        sum_rows(s) >= 0,
    decreases s.len(),
{
    if s.len() > 0 {
        lemma_sum_rows_nonneg(s.drop_last());
    }
}

/// The `PostScript` message stays under the one-byte length limit.
pub proof fn lemma_postscript_len(
    footer_length: nat,
    kind: CompressionKind,
    block_size: nat,
    metadata_length: nat,
)
    requires
        footer_length < 0x1_0000_0000_0000_0000,
        block_size < 0x1_0000_0000_0000_0000,
        metadata_length < 0x1_0000_0000_0000_0000,
    ensures
        1 <= enc_postscript(footer_length, kind, block_size, metadata_length).len() <= 255,
{
    assert(pow128(3) == 2097152 && pow128(1) == 128 && pow128(2) == 16384) by {
        reveal_with_fuel(pow128, 4);
    }
    assert(pow128(10) > 0x1_0000_0000_0000_0000) by {
        reveal_with_fuel(pow128, 11);
    }
    lemma_varint_enc_len(8, 1);
    lemma_varint_enc_len(16, 1);
    lemma_varint_enc_len(24, 1);
    lemma_varint_enc_len(34, 1);
    lemma_varint_enc_len(40, 1);
    lemma_varint_enc_len(48, 1);
    lemma_varint_enc_len(64002, 3);
    lemma_varint_enc_len(footer_length, 10);
    lemma_varint_enc_len(kind.spec_code() as nat, 1);
    lemma_varint_enc_len(block_size, 10);
    lemma_varint_enc_len(metadata_length, 10);
    lemma_varint_enc_len(6, 1);
    lemma_varint_enc_len(2, 1);
    lemma_varint_enc_len(3, 1);
    assert(varints_cat(seq![0u64, 12u64]) =~= seq![0u8, 12u8]) by {
        let s2 = seq![0u64, 12u64];
        assert(s2.drop_last() =~= seq![0u64]);
        assert(seq![0u64].drop_last() =~= Seq::<u64>::empty());
        assert(varint_enc(0) =~= seq![0u8]);
        assert(varint_enc(12) =~= seq![12u8]);
        assert(varints_cat(Seq::<u64>::empty()) =~= Seq::<u8>::empty());
        assert(varints_cat(seq![0u64]) == varints_cat(Seq::<u64>::empty()) + varint_enc(0));
        assert(varints_cat(seq![0u64]) =~= seq![0u8]);
        assert(varints_cat(s2) == varints_cat(seq![0u64]) + varint_enc(12));
    }
}

/// The top-level ORC writer: the header magic, the rolling stripe, and at
/// the end the metadata, footer, postscript and postscript length byte.
pub struct Writer {
    inner: CountWrite,
    config: Config,
    current_stripe: Stripe,
    stripe_infos: Vec<StripeInfo>,
    schema: Schema,
    ncols: u32,
    total_rows: u64,
}

impl Writer {
    /// The bytes written so far.
    pub closed spec fn spec_bytes(&self) -> Seq<u8> {
        self.inner@
    }

    /// The root of the column tree of the stripe being filled.
    pub closed spec fn spec_data(&self) -> Data {
        self.current_stripe.data
    }

    /// Rows committed over all `write_batch` calls.
    pub closed spec fn spec_total_rows(&self) -> u64 {
        self.total_rows
    }

    /// Rows committed to the stripe being filled.
    pub closed spec fn spec_stripe_rows(&self) -> u64 {
        self.current_stripe.spec_num_rows()
    }

    pub closed spec fn spec_compression_kind(&self) -> CompressionKind {
        self.config.compression.spec_kind()
    }

    /// What the trailing metadata and footer sections rely on; unlike
    /// `wf`, this no longer ties the stripe offset to the sink position.
    pub closed spec fn trail_wf(&self) -> bool {
        &&& self.config.wf()
        &&& self.current_stripe.wf()
        &&& self.ncols as nat == self.current_stripe.spec_column_count()
        &&& self.schema.valid()
        &&& self.schema.column_count() == self.ncols as nat
        &&& forall|i: int|
            0 <= i < self.stripe_infos@.len() ==> {
                &&& (#[trigger] self.stripe_infos@[i]).statistics@.len() == self.ncols
                &&& forall|j: int|
                    0 <= j < self.stripe_infos@[i].statistics@.len() ==> (
                    #[trigger] self.stripe_infos@[i].statistics@[j]).wf()
            }
    }

    pub closed spec fn wf(&self) -> bool {
        &&& self.trail_wf()
        &&& ({
            &&& self.inner@.len() >= 3
            &&& self.inner@.subrange(0, 3) == seq![79u8, 82u8, 67u8]
            &&& self.current_stripe.spec_offset() == self.inner@.len()
            &&& sum_rows(self.stripe_infos@) + self.current_stripe.spec_num_rows()
                == self.total_rows
            &&& 3 + sum_lens(self.stripe_infos@) == self.current_stripe.spec_offset()
        })
    }

    /// Start a file: the three magic bytes go out at once.  Well-formed ORC
    /// demands a struct at the root.
    pub fn new(schema: Schema, config: Config) -> (r: Writer)
        requires
            schema is Struct,
            schema.valid(),
            config.wf(),
            schema.column_count() + 1 <= u32::MAX,
        ensures
            r.wf(),
            r.spec_total_rows() == 0,
            r.spec_stripe_rows() == 0,
            r.spec_num_stripes() == 0,
            r.spec_data() is Struct,
            r.spec_data().tree_reset(),
            r.spec_bytes() == seq![79u8, 82u8, 67u8],
            r.spec_compression_kind() == config.compression.spec_kind(),
    {
        let mut inner = CountWrite::new();
        inner.write_u8(79);
        inner.write_u8(82);
        inner.write_u8(67);
        let current_stripe = Stripe::new(&schema, &config);
        let ncols64 = schema.count_columns();
        let ncols = ncols64 as u32;
        let r = Writer {
            inner,
            config,
            current_stripe,
            stripe_infos: Vec::new(),
            schema,
            ncols,
            total_rows: 0,
        };
        proof {
            assert(r.inner@ =~= seq![79u8, 82u8, 67u8]);
            assert(r.inner@.subrange(0, 3) =~= seq![79u8, 82u8, 67u8]);
        }
        r
    }

    /// Borrow the root column writer; values are pushed through it.
    pub fn data(&mut self) -> (r: &mut Data)
        ensures
            *r == old(self).spec_data(),
            final(self).spec_data() == *final(r),
            final(self).spec_total_rows() == old(self).spec_total_rows(),
            final(self).spec_bytes() == old(self).spec_bytes(),
            old(self).wf() && final(r).wf() && final(r).spec_column_count() == old(
                self,
            ).spec_data().spec_column_count() ==> final(self).wf(),
    {
        &mut self.current_stripe.data
    }

    /// Commit `num_rows` rows: the batch is accepted exactly when the new
    /// total fits and every column received the values those rows imply; a
    /// full stripe is then flushed.  On an error the file bytes are
    /// unusable only once written; nothing has been written yet, but the
    /// mismatched column data remains, so the caller should discard the
    /// writer.
    pub fn write_batch(&mut self, num_rows: u64) -> (r: Result<(), OrcError>)
        requires
            old(self).wf(),
        ensures
            final(self).wf(),
            r is Ok <==> old(self).spec_total_rows() + num_rows <= u64::MAX && old(
                self,
            ).spec_data().rows_ok((old(self).spec_stripe_rows() + num_rows) as u64),
            r is Ok ==> final(self).spec_total_rows() == old(self).spec_total_rows() + num_rows,
            r is Err ==> final(self).spec_total_rows() == old(self).spec_total_rows(),
            final(self).spec_bytes().len() >= old(self).spec_bytes().len(),
            final(self).spec_compression_kind() == old(self).spec_compression_kind(),
    {
        if self.total_rows > u64::MAX - num_rows {
            return Err(OrcError::TooManyRows);
        }
        proof {
            lemma_sum_rows_nonneg(self.stripe_infos@);
        }
        let res = self.current_stripe.write_batch(num_rows);
        match res {
            Err(e) => {
                proof {
                    assert(self.trail_wf());
                    assert(self.current_stripe.spec_offset() == self.inner@.len());
                    assert(sum_rows(self.stripe_infos@) + self.current_stripe.spec_num_rows()
                        == self.total_rows);
                    assert(self.inner@.subrange(0, 3) == seq![79u8, 82u8, 67u8]);
                    assert(self.schema.valid());
                    assert(self.schema.column_count() == self.ncols as nat);
                    assert(self.inner@.len() >= 3);
                    assert(self.wf());
                }
                Err(e)
            },
            Ok(_) => {
                self.total_rows = self.total_rows + num_rows;
                if self.current_stripe.estimated_size() > self.config.stripe_size {
                    let ghost infos0 = self.stripe_infos@;
                    let ghost stripe_rows = self.current_stripe.spec_num_rows();
                    let _snap = self.current_stripe.finish(
                        &mut self.inner,
                        &mut self.stripe_infos,
                        self.ncols,
                    );
                    proof {
                        if stripe_rows > 0 {
                            assert(self.stripe_infos@.drop_last() =~= infos0);
                            assert(sum_rows(self.stripe_infos@) == sum_rows(infos0)
                                + stripe_rows);
                            assert(sum_lens(self.stripe_infos@) == sum_lens(infos0)
                                + self.stripe_infos@.last().index_length
                                + self.stripe_infos@.last().data_length
                                + self.stripe_infos@.last().footer_length);
                            assert forall|i: int|
                                0 <= i < self.stripe_infos@.len() implies ((
                            #[trigger] self.stripe_infos@[i]).statistics@.len() == self.ncols
                                && forall|j: int|
                                0 <= j < self.stripe_infos@[i].statistics@.len() ==> (
                                #[trigger] self.stripe_infos@[i].statistics@[j]).wf()) by {
                                if i < infos0.len() {
                                    assert(self.stripe_infos@[i] == infos0[i]);
                                } else {
                                    assert(self.stripe_infos@[i] == self.stripe_infos@.last());
                                }
                            }
                            assert(self.inner@.subrange(0, 3) =~= old(self).inner@.subrange(0, 3));
                        }
                        assert(self.wf());
                    }
                } else {
                    proof {
                        assert(self.wf());
                    }
                }
                Ok(())
            },
        }
    }

    /// Encode the per-stripe statistics as the `Metadata` message, through a
    /// fresh compression stream.
    fn write_metadata(&mut self)
        requires
            old(self).trail_wf(),
        ensures
            final(self).trail_wf(),
            final(self).spec_total_rows() == old(self).spec_total_rows(),
            final(self).spec_stripe_infos() == old(self).spec_stripe_infos(),
            final(self).spec_row_index_stride() == old(self).spec_row_index_stride(),
            final(self).spec_compression_level() == old(self).spec_compression_level(),
            final(self).spec_schema() == old(self).spec_schema(),
            final(self).spec_bytes().len() >= old(self).spec_bytes().len(),
            extends(old(self).spec_bytes(), final(self).spec_bytes()),
            final(self).spec_compression_kind() == old(self).spec_compression_kind(),
            final(self).spec_block_size_nat() == old(self).spec_block_size_nat(),
    {
        let mut msg: Vec<u8> = Vec::new();
        let mut i: usize = 0;
        while i < self.stripe_infos.len()
            invariant
                self.trail_wf(),
            decreases self.stripe_infos@.len() - i,
        {
            let mut sub: Vec<u8> = Vec::new();
            let info = &self.stripe_infos[i];
            let mut j: usize = 0;
            while j < info.statistics.len()
                invariant
                    self.trail_wf(),
                    0 <= i < self.stripe_infos@.len(),
                    info == &self.stripe_infos[i as int],
                decreases info.statistics@.len() - j,
            {
                let mut stat_payload: Vec<u8> = Vec::new();
                encode_statistics(&info.statistics[j], &mut stat_payload);
                pb_write_bytes_vec(&mut sub, 1, &stat_payload);
                j += 1;
            }
            pb_write_bytes_vec(&mut msg, 1, &sub);
            i += 1;
        }
        let mut cs = CompressionStream::new(&self.config.compression);
        cs.write_bytes(msg.as_slice());
        cs.finish(&mut self.inner);
    }

    /// Encode the file footer, through a fresh compression stream.
    fn write_footer(&mut self, content_length: u64)
        requires
            old(self).trail_wf(),
        ensures
            final(self).trail_wf(),
            final(self).spec_total_rows() == old(self).spec_total_rows(),
            final(self).spec_bytes().len() >= old(self).spec_bytes().len(),
            extends(old(self).spec_bytes(), final(self).spec_bytes()),
            final(self).spec_compression_kind() == old(self).spec_compression_kind(),
            final(self).spec_block_size_nat() == old(self).spec_block_size_nat(),
            final(self).spec_schema() == old(self).spec_schema(),
            exists|stb: Seq<u8>|
                #![trigger stb.len()]
                stream_emits(
                    old(self).spec_bytes(),
                    final(self).spec_bytes(),
                    pb_varint_field(1, 3) + pb_varint_field(2, content_length as nat)
                        + enc_stripes(old(self).spec_stripe_infos()) + enc_types(
                        old(self).spec_schema(),
                        0,
                    ) + pb_varint_field(6, old(self).spec_total_rows() as nat) + stb
                        + pb_varint_field(8, old(self).spec_row_index_stride() as nat),
                    old(self).spec_compression_kind(),
                    old(self).spec_compression_level(),
                    old(self).spec_block_size_nat() as int,
                ),
    {
        let mut msg: Vec<u8> = Vec::new();
        pb_write_varint(&mut msg, 1, 3);
        pb_write_varint(&mut msg, 2, content_length);
        let ghost m_head = msg@;
        let mut i: usize = 0;
        while i < self.stripe_infos.len()
            invariant
                self.trail_wf(),
                i <= self.stripe_infos@.len(),
                msg@ == m_head + enc_stripes(self.stripe_infos@.take(i as int)),
            decreases self.stripe_infos@.len() - i,
        {
            let info = &self.stripe_infos[i];
            encode_stripe_information(
                info.offset,
                info.index_length,
                info.data_length,
                info.footer_length,
                info.num_rows,
                &mut msg,
            );
            i += 1;
            proof {
                assert(self.stripe_infos@.take(i as int).drop_last() =~= self.stripe_infos@.take(
                    i - 1,
                ));
                assert(self.stripe_infos@.take(i as int).last() == self.stripe_infos@[i - 1]);
                assert(msg@ =~= m_head + enc_stripes(self.stripe_infos@.take(i as int)));
            }
        }
        proof {
            assert(self.stripe_infos@.take(self.stripe_infos@.len() as int) =~= self.stripe_infos@);
        }
        let ghost m_stripes = msg@;
        let mut next_id: u64 = 0;
        make_types(&self.schema, &mut next_id, &mut msg);
        let ghost types_blob = enc_types(self.schema, 0);
        pb_write_varint(&mut msg, 6, self.total_rows);
        let ghost m_rows = msg@;
        let mut merged: Vec<Statistics> = Vec::new();
        self.current_stripe.data.statistics(&mut merged);
        let mut j: usize = 0;
        while j < merged.len()
            invariant
                self.trail_wf(),
                forall|k: int| 0 <= k < merged@.len() ==> (#[trigger] merged@[k]).wf(),
                extends(m_rows, msg@),
            decreases merged@.len() - j,
        {
            let mut acc = merged.remove(j);
            let mut i2: usize = 0;
            while i2 < self.stripe_infos.len()
                invariant
                    self.trail_wf(),
                    acc.wf(),
                    j < merged@.len() + 1,
                    forall|k: int| 0 <= k < merged@.len() ==> (#[trigger] merged@[k]).wf(),
                decreases self.stripe_infos@.len() - i2,
            {
                let info = &self.stripe_infos[i2];
                if j < info.statistics.len() {
                    let _ = acc.try_merge(&info.statistics[j]);
                }
                i2 += 1;
            }
            let mut stat_payload: Vec<u8> = Vec::new();
            encode_statistics(&acc, &mut stat_payload);
            let ghost m_pre = msg@;
            pb_write_bytes_vec(&mut msg, 7, &stat_payload);
            merged.insert(j, acc);
            j += 1;
            proof {
                assert forall|k: int| 0 <= k < m_rows.len() implies msg@[k] == #[trigger] m_rows[k] by {
                    assert(msg@[k] == m_pre[k]);
                }
            }
        }
        let ghost stats_blob = msg@.skip(m_rows.len() as int);
        proof {
            assert(msg@ =~= m_rows + stats_blob);
        }
        pb_write_varint(&mut msg, 8, self.config.row_index_stride as u64);
        proof {
            assert(msg@ =~= pb_varint_field(1, 3) + pb_varint_field(2, content_length as nat)
                + enc_stripes(old(self).spec_stripe_infos()) + types_blob + pb_varint_field(
                6,
                old(self).spec_total_rows() as nat,
            ) + stats_blob + pb_varint_field(8, old(self).spec_row_index_stride() as nat));
        }
        let mut cs = CompressionStream::new(&self.config.compression);
        cs.write_bytes(msg.as_slice());
        cs.finish(&mut self.inner);
        proof {
            assert(types_blob.len() >= 0 && stats_blob.len() >= 0);
            assert(stream_emits(
                old(self).spec_bytes(),
                self.inner@,
                msg@,
                old(self).spec_compression_kind(),
                old(self).spec_compression_level(),
                old(self).spec_block_size_nat() as int,
            ));
        }
    }

    /// Flush the stripe being filled, restoring the writer invariant.
    fn close_stripe(&mut self)
        requires
            old(self).wf(),
        ensures
            final(self).wf(),
            final(self).spec_total_rows() == old(self).spec_total_rows(),
            final(self).spec_bytes().len() >= old(self).spec_bytes().len(),
            final(self).spec_compression_kind() == old(self).spec_compression_kind(),
            final(self).spec_block_size_nat() == old(self).spec_block_size_nat(),
            final(self).spec_compression_level() == old(self).spec_compression_level(),
            final(self).spec_schema() == old(self).spec_schema(),
            final(self).spec_row_index_stride() == old(self).spec_row_index_stride(),
            final(self).spec_stripe_rows() == 0,
    {
        let ghost infos0 = self.stripe_infos@;
        let ghost stripe_rows = self.current_stripe.spec_num_rows();
        let _snap = self.current_stripe.finish(&mut self.inner, &mut self.stripe_infos, self.ncols);
        proof {
            if stripe_rows > 0 {
                assert(self.stripe_infos@.drop_last() =~= infos0);
                assert forall|i: int|
                    0 <= i < self.stripe_infos@.len() implies ((
                #[trigger] self.stripe_infos@[i]).statistics@.len() == self.ncols && forall|j: int|
                    0 <= j < self.stripe_infos@[i].statistics@.len() ==> (
                    #[trigger] self.stripe_infos@[i].statistics@[j]).wf()) by {
                    if i < infos0.len() {
                        assert(self.stripe_infos@[i] == infos0[i]);
                    } else {
                        assert(self.stripe_infos@[i] == self.stripe_infos@.last());
                    }
                }
                assert(sum_rows(self.stripe_infos@) == sum_rows(infos0) + stripe_rows);
                assert(sum_lens(self.stripe_infos@) == sum_lens(infos0)
                    + self.stripe_infos@.last().index_length
                    + self.stripe_infos@.last().data_length
                    + self.stripe_infos@.last().footer_length);
            }
            assert(self.inner@.subrange(0, 3) =~= seq![79u8, 82u8, 67u8]);
            assert(self.wf());
        }
    }

    /// Flush the open stripe, then append metadata, footer, postscript and
    /// the postscript length byte, and hand back the finished file.
    #[verifier::rlimit(100)]
    pub fn finish(self) -> (r: Vec<u8>)
        requires
            self.wf(),
        ensures
            r@.len() >= 4,
            r@.subrange(0, 3) == seq![79u8, 82u8, 67u8],
            ({
                let n = r@.len() as int;
                let ps_len = r@[n - 1] as int;
                &&& 1 <= ps_len <= 255
                &&& 4 + ps_len <= n
                &&& exists|mlen: nat, flen: nat, cl: nat|
                    #![trigger enc_postscript(flen, self.spec_compression_kind(), self.spec_block_size_nat(), mlen), region_len(cl)]
                    {
                        &&& r@.subrange(n - 1 - ps_len, n - 1) == enc_postscript(
                            flen,
                            self.spec_compression_kind(),
                            self.spec_block_size_nat(),
                            mlen,
                        )
                        &&& 3 + cl + mlen + flen == n - 1 - ps_len
                        &&& exists|stripes: Seq<StripeInfo>, stb: Seq<u8>|
                            #![trigger enc_stripes(stripes), stb.len()]
                            {
                                &&& stream_emits(
                                    r@.subrange(0, n - 1 - ps_len - flen),
                                    r@.subrange(0, n - 1 - ps_len),
                                    pb_varint_field(1, 3) + pb_varint_field(2, cl) + enc_stripes(
                                        stripes,
                                    ) + enc_types(self.spec_schema(), 0) + pb_varint_field(
                                        6,
                                        self.spec_total_rows() as nat,
                                    ) + stb + pb_varint_field(
                                        8,
                                        self.spec_row_index_stride() as nat,
                                    ),
                                    self.spec_compression_kind(),
                                    self.spec_compression_level(),
                                    self.spec_block_size_nat() as int,
                                )
                                &&& sum_rows(stripes) == self.spec_total_rows()
                                &&& sum_lens(stripes) == cl
                            }
                    }
            }),
    {
        let mut w = self;
        w.close_stripe();
        let ghost stripes_w = w.stripe_infos@;
        let ghost rows_w = w.total_rows;
        let content_length = (w.inner.pos() - 3) as u64;
        let metadata_start = w.inner.pos();
        w.write_metadata();
        let footer_start = w.inner.pos();
        let ghost pre_footer = w.inner@;
        w.write_footer(content_length);
        let ghost post_footer = w.inner@;
        let ps_start = w.inner.pos();
        let metadata_length = (footer_start - metadata_start) as u64;
        let footer_length = (ps_start - footer_start) as u64;
        let mut ps: Vec<u8> = Vec::new();
        encode_postscript(
            footer_length,
            w.config.compression.kind(),
            w.config.compression.block_size() as u64,
            metadata_length,
            &mut ps,
        );
        proof {
            lemma_postscript_len(
                footer_length as nat,
                w.config.compression.spec_kind(),
                w.config.compression.spec_block_size() as nat,
                metadata_length as nat,
            );
        }
        let ghost pre_ps = w.inner@;
        w.inner.write_bytes(ps.as_slice());
        let ps_len = ps.len() as u8;
        w.inner.write_u8(ps_len);
        let r = w.inner.into_inner();
        proof {
            let n = r@.len() as int;
            assert(r@ =~= pre_ps + ps@ + seq![ps_len]);
            assert(r@.subrange(0, 3) =~= pre_ps.subrange(0, 3));
            assert(r@.subrange(n - 1 - ps_len as int, n - 1) =~= ps@);
            let mlen = metadata_length as nat;
            let flen = footer_length as nat;
            let cl = content_length as nat;
            assert(3 + cl == metadata_start);
            assert(3 + cl + mlen + flen == n - 1 - ps_len as int);
            assert(region_len(cl) == cl);
            assert(r@.subrange(n - 1 - ps_len as int, n - 1) == enc_postscript(
                flen,
                self.spec_compression_kind(),
                self.spec_block_size_nat(),
                mlen,
            ) && 3 + cl + mlen + flen == n - 1 - ps_len as int);
            // the footer region: instantiate the emitted-footer witnesses
            let k = self.spec_compression_kind();
            let lvl = self.spec_compression_level();
            let bsz = self.spec_block_size_nat() as int;
            let fmsg_of = |stb: Seq<u8>|
                pb_varint_field(1, 3) + pb_varint_field(2, cl) + enc_stripes(stripes_w)
                    + enc_types(self.spec_schema(), 0) + pb_varint_field(6, rows_w as nat) + stb
                    + pb_varint_field(8, self.spec_row_index_stride() as nat);
            let stb = choose|stb: Seq<u8>|
                #![trigger stb.len()]
                stream_emits(pre_footer, post_footer, fmsg_of(stb), k, lvl, bsz);
            assert(stream_emits(pre_footer, post_footer, fmsg_of(stb), k, lvl, bsz));
            assert(r@.subrange(0, n - 1 - ps_len as int - flen as int) =~= pre_footer);
            assert(r@.subrange(0, n - 1 - ps_len as int) =~= post_footer);
            assert(rows_w == self.spec_total_rows());
            assert(sum_rows(stripes_w) == self.spec_total_rows());
            assert(sum_lens(stripes_w) == cl);
            assert(enc_stripes(stripes_w) == enc_stripes(stripes_w) && stb.len() >= 0);
            assert(stream_emits(
                r@.subrange(0, n - 1 - ps_len as int - flen as int),
                r@.subrange(0, n - 1 - ps_len as int),
                pb_varint_field(1, 3) + pb_varint_field(2, cl) + enc_stripes(stripes_w)
                    + enc_types(self.spec_schema(), 0) + pb_varint_field(
                    6,
                    self.spec_total_rows() as nat,
                ) + stb + pb_varint_field(8, self.spec_row_index_stride() as nat),
                k,
                lvl,
                bsz,
            ));
        }
        r
    }

    /// The configured compression block size.
    pub closed spec fn spec_block_size_nat(&self) -> nat {
        self.config.compression.spec_block_size() as nat
    }

    pub closed spec fn spec_compression_level(&self) -> int {
        self.config.compression.spec_level() as int
    }

    /// What has been recorded about the finished stripes.
    pub closed spec fn spec_stripe_infos(&self) -> Seq<StripeInfo> {
        self.stripe_infos@
    }

    pub closed spec fn spec_row_index_stride(&self) -> u32 {
        self.config.row_index_stride
    }

    pub closed spec fn spec_schema(&self) -> Schema {
        self.schema
    }

    /// How many stripes have been finished so far.
    pub closed spec fn spec_num_stripes(&self) -> nat {
        self.stripe_infos@.len()
    }
}

/// Build the payload of one `Type` message.
#[verifier::loop_isolation(false)]
fn make_type_payload(schema: &Schema, id: u64) -> (t: Vec<u8>)
    requires
        id + schema.column_count() <= u64::MAX,
    ensures
        t@ == type_payload(*schema, id as nat),
{
    let mut t: Vec<u8> = Vec::new();
    match schema {
        Schema::Boolean => pb_write_varint(&mut t, 1, 0),
        Schema::Short => pb_write_varint(&mut t, 1, 2),
        Schema::Int => pb_write_varint(&mut t, 1, 3),
        Schema::Long => pb_write_varint(&mut t, 1, 4),
        Schema::Date => pb_write_varint(&mut t, 1, 15),
        Schema::Float => pb_write_varint(&mut t, 1, 5),
        Schema::Double => pb_write_varint(&mut t, 1, 6),
        Schema::Timestamp => pb_write_varint(&mut t, 1, 9),
        Schema::String => pb_write_varint(&mut t, 1, 7),
        Schema::Binary => pb_write_varint(&mut t, 1, 8),
        Schema::Char(n) => {
            pb_write_varint(&mut t, 1, 17);
            pb_write_varint(&mut t, 4, *n as u64);
        },
        Schema::VarChar(n) => {
            pb_write_varint(&mut t, 1, 16);
            pb_write_varint(&mut t, 4, *n as u64);
        },
        Schema::Decimal(p, sc) => {
            pb_write_varint(&mut t, 1, 14);
            pb_write_varint(&mut t, 5, *p as u64);
            pb_write_varint(&mut t, 6, *sc as u64);
        },
        Schema::Struct(fields) => {
            pb_write_varint(&mut t, 1, 12);
            let mut subtypes: Vec<u64> = Vec::new();
            let mut running: u64 = id + 1;
            let mut i: usize = 0;
            while i < fields.len()
                invariant
                    i <= fields@.len(),
                    subtypes@ == subtype_ids_fields(fields@, 0, id as nat + 1).take(i as int),
                    running as nat == id as nat + 1 + Schema::field_count_seq(fields@, 0)
                        - Schema::field_count_seq(fields@, i as int),
                decreases fields@.len() - i,
            {
                proof {
                    assert(decreases_to!(*schema => (*schema)->Struct_0));
                    assert(decreases_to!(*fields => fields@));
                    assert(decreases_to!(fields@ => fields@[i as int]));
                    assert(decreases_to!(fields@[i as int] => fields@[i as int].1));
                    crate::schema::lemma_field_count_le(fields@, i as int);
                    lemma_subtype_ids_fields_index(fields@, 0, id as nat + 1, i as int);
                }
                subtypes.push(running);
                let c = fields[i].1.count_columns();
                running = running + c;
                i += 1;
                proof {
                    assert(subtypes@ =~= subtype_ids_fields(fields@, 0, id as nat + 1).take(i as int));
                }
            }
            proof {
                lemma_subtype_ids_fields_len(fields@, 0, id as nat + 1);
                assert(subtypes@ =~= subtype_ids_fields(fields@, 0, id as nat + 1));
            }
            if subtypes.len() > 0 {
                pb_write_packed(&mut t, 2, &subtypes);
            }
            let ghost t_mark = t@;
            let ghost names = field_names_enc(fields@, 0);
            let mut i2: usize = 0;
            while i2 < fields.len()
                invariant
                    i2 <= fields@.len(),
                    t_mark.len() <= t@.len(),
                    t@.len() - t_mark.len() <= names.len(),
                    t@ == t_mark + names.take(t@.len() - t_mark.len()),
                    field_names_enc(fields@, i2 as int) == names.skip(t@.len() - t_mark.len()),
                decreases fields@.len() - i2,
            {
                let ghost done = t@.len() - t_mark.len();
                let ghost name = pb_len_field(3, vstd::utf8::encode_utf8(fields@[i2 as int].0@));
                proof {
                    assert(field_names_enc(fields@, i2 as int) == name + field_names_enc(
                        fields@,
                        i2 + 1,
                    ));
                    lemma_skip_concat_general(names, done, name, field_names_enc(
                        fields@,
                        i2 + 1,
                    ));
                }
                pb_write_bytes(&mut t, 3, fields[i2].0.as_str().as_bytes());
                i2 += 1;
                proof {
                    assert(names.skip(done + name.len()).len() == names.len() - done
                        - name.len());
                    assert(t@ =~= t_mark + names.take(t@.len() - t_mark.len()));
                }
            }
            proof {
                assert(field_names_enc(fields@, fields@.len() as int) =~= Seq::<u8>::empty());
                let done_end = t@.len() - t_mark.len();
                assert(names.skip(done_end).len() == names.len() - done_end);
                assert(done_end == names.len());
                assert(names.take(names.len() as int) =~= names);
                assert(t@ =~= type_payload(*schema, id as nat));
            }
        },
        Schema::List(elem) => {
            pb_write_varint(&mut t, 1, 10);
            let mut subtypes: Vec<u64> = Vec::new();
            subtypes.push(id + 1);
            proof {
                assert(subtypes@ =~= seq![(id as nat + 1) as u64]);
            }
            pb_write_packed(&mut t, 2, &subtypes);
        },
        Schema::Dict(k, v) => {
            pb_write_varint(&mut t, 1, 11);
            let mut subtypes: Vec<u64> = Vec::new();
            let kid = id + 1;
            subtypes.push(kid);
            let kc = k.count_columns();
            subtypes.push(kid + kc);
            proof {
                assert(subtypes@ =~= seq![(id as nat + 1) as u64, (id as nat + 1 + k.column_count()) as u64]);
            }
            pb_write_packed(&mut t, 2, &subtypes);
        },
        Schema::Union(variants) => {
            pb_write_varint(&mut t, 1, 13);
            let mut subtypes: Vec<u64> = Vec::new();
            let mut running: u64 = id + 1;
            let mut i: usize = 0;
            while i < variants.len()
                invariant
                    i <= variants@.len(),
                    subtypes@ == subtype_ids_schemas(variants@, 0, id as nat + 1).take(i as int),
                    running as nat == id as nat + 1 + Schema::count_seq(variants@, 0)
                        - Schema::count_seq(variants@, i as int),
                decreases variants@.len() - i,
            {
                proof {
                    assert(decreases_to!(*schema => (*schema)->Union_0));
                    assert(decreases_to!(*variants => variants@));
                    assert(decreases_to!(variants@ => variants@[i as int]));
                    crate::schema::lemma_count_le(variants@, i as int);
                    lemma_subtype_ids_schemas_index(variants@, 0, id as nat + 1, i as int);
                }
                subtypes.push(running);
                let c = variants[i].count_columns();
                running = running + c;
                i += 1;
                proof {
                    assert(subtypes@ =~= subtype_ids_schemas(variants@, 0, id as nat + 1).take(
                        i as int,
                    ));
                }
            }
            proof {
                lemma_subtype_ids_schemas_len(variants@, 0, id as nat + 1);
                assert(subtypes@ =~= subtype_ids_schemas(variants@, 0, id as nat + 1));
            }
            pb_write_packed(&mut t, 2, &subtypes);
        },
    }
    proof {
        assert(t@ =~= type_payload(*schema, id as nat));
    }
    t
}

/// Emit the pre-order `Type` list of the footer: one message per column,
/// with the children's column ids as subtypes.
#[verifier::loop_isolation(false)]
fn make_types(schema: &Schema, next_id: &mut u64, out: &mut Vec<u8>)
    requires
        *old(next_id) + schema.column_count() <= u64::MAX,
    ensures
        final(out)@ == old(out)@ + enc_types(*schema, *old(next_id) as nat),
        extends(old(out)@, final(out)@),
        *final(next_id) == *old(next_id) + schema.column_count(),
    decreases *schema,
{
    let ghost out0 = old(out)@;
    let ghost id0 = *old(next_id) as nat;
    let t = make_type_payload(schema, *next_id);
    proof {
        assert(t@ =~= type_payload(*schema, id0));
    }
    pb_write_bytes_vec(out, 4, &t);
    proof {
        assert forall|i: int| 0 <= i < out0.len() implies out@[i] == #[trigger] out0[i] by {}
        assert(extends(out0, out@));
    }
    *next_id = *next_id + 1;
    match schema {
        Schema::Struct(fields) => {
            let ghost base = out0 + pb_len_field(4, type_payload(*schema, id0));
            let ghost kids = enc_types_fields(fields@, 0, id0 + 1);
            let mut i: usize = 0;
            while i < fields.len()
                invariant
                    i <= fields@.len(),
                    base.len() <= out@.len(),
                    out@.len() - base.len() <= kids.len(),
                    out@ == base + kids.take(out@.len() - base.len()),
                    enc_types_fields(fields@, i as int, *next_id as nat) == kids.skip(
                        out@.len() - base.len(),
                    ),
                    *next_id as nat == id0 + 1 + Schema::field_count_seq(fields@, 0)
                        - Schema::field_count_seq(fields@, i as int),
                decreases fields@.len() - i,
            {
                proof {
                    assert(decreases_to!(*schema => (*schema)->Struct_0));
                    assert(decreases_to!(*fields => fields@));
                    assert(decreases_to!(fields@ => fields@[i as int]));
                    assert(decreases_to!(fields@[i as int] => fields@[i as int].1));
                    crate::schema::lemma_field_count_le(fields@, i as int);
                }
                let ghost done = out@.len() - base.len();
                let ghost id_pre = *next_id as nat;
                proof {
                    assert(enc_types_fields(fields@, i as int, id_pre) == enc_types(
                        fields@[i as int].1,
                        id_pre,
                    ) + enc_types_fields(
                        fields@,
                        i + 1,
                        id_pre + fields@[i as int].1.column_count(),
                    ));
                    lemma_skip_concat_general(
                        kids,
                        done,
                        enc_types(fields@[i as int].1, id_pre),
                        enc_types_fields(
                            fields@,
                            i + 1,
                            id_pre + fields@[i as int].1.column_count(),
                        ),
                    );
                }
                make_types(&fields[i].1, next_id, out);
                i += 1;
                proof {
                    assert(kids.skip(done + enc_types(fields@[i - 1].1, id_pre).len()).len()
                        == kids.len() - done - enc_types(fields@[i - 1].1, id_pre).len());
                    assert(out@ =~= base + kids.take(out@.len() - base.len()));
                }
            }
            proof {
                assert(enc_types_fields(fields@, fields@.len() as int, *next_id as nat)
                    =~= Seq::<u8>::empty());
                let done_end = out@.len() - base.len();
                assert(kids.skip(done_end).len() == kids.len() - done_end);
                assert(done_end == kids.len());
                assert(kids.take(kids.len() as int) =~= kids);
                assert(out@ =~= out0 + enc_types(*schema, id0));
            }
        },
        Schema::List(elem) => {
            make_types(elem, next_id, out);
            proof {
                assert(out@ =~= out0 + enc_types(*schema, id0));
            }
        },
        Schema::Dict(k, v) => {
            make_types(k, next_id, out);
            make_types(v, next_id, out);
            proof {
                assert(out@ =~= out0 + enc_types(*schema, id0));
            }
        },
        Schema::Union(variants) => {
            let ghost base = out0 + pb_len_field(4, type_payload(*schema, id0));
            let ghost kids = enc_types_schemas(variants@, 0, id0 + 1);
            let mut i: usize = 0;
            while i < variants.len()
                invariant
                    i <= variants@.len(),
                    base.len() <= out@.len(),
                    out@.len() - base.len() <= kids.len(),
                    out@ == base + kids.take(out@.len() - base.len()),
                    enc_types_schemas(variants@, i as int, *next_id as nat) == kids.skip(
                        out@.len() - base.len(),
                    ),
                    *next_id as nat == id0 + 1 + Schema::count_seq(variants@, 0)
                        - Schema::count_seq(variants@, i as int),
                decreases variants@.len() - i,
            {
                proof {
                    assert(decreases_to!(*schema => (*schema)->Union_0));
                    assert(decreases_to!(*variants => variants@));
                    assert(decreases_to!(variants@ => variants@[i as int]));
                    crate::schema::lemma_count_le(variants@, i as int);
                }
                let ghost done = out@.len() - base.len();
                let ghost id_pre = *next_id as nat;
                proof {
                    assert(enc_types_schemas(variants@, i as int, id_pre) == enc_types(
                        variants@[i as int],
                        id_pre,
                    ) + enc_types_schemas(
                        variants@,
                        i + 1,
                        id_pre + variants@[i as int].column_count(),
                    ));
                    lemma_skip_concat_general(
                        kids,
                        done,
                        enc_types(variants@[i as int], id_pre),
                        enc_types_schemas(
                            variants@,
                            i + 1,
                            id_pre + variants@[i as int].column_count(),
                        ),
                    );
                }
                make_types(&variants[i], next_id, out);
                i += 1;
                proof {
                    assert(kids.skip(done + enc_types(variants@[i - 1], id_pre).len()).len()
                        == kids.len() - done - enc_types(variants@[i - 1], id_pre).len());
                    assert(out@ =~= base + kids.take(out@.len() - base.len()));
                }
            }
            proof {
                assert(enc_types_schemas(variants@, variants@.len() as int, *next_id as nat)
                    =~= Seq::<u8>::empty());
                let done_end = out@.len() - base.len();
                assert(kids.skip(done_end).len() == kids.len() - done_end);
                assert(done_end == kids.len());
                assert(kids.take(kids.len() as int) =~= kids);
                assert(out@ =~= out0 + enc_types(*schema, id0));
            }
        },
        _ => {
            proof {
                assert(out@ =~= out0 + enc_types(*schema, id0));
            }
        },
    }
}

/// One step of the subtype-id list.
proof fn lemma_subtype_ids_fields_index(fields: Seq<Field>, i: int, next: nat, j: int)
    requires
        0 <= i <= j < fields.len(),
    ensures
        subtype_ids_fields(fields, i, next).take(j - i + 1) =~= subtype_ids_fields(
            fields,
            i,
            next,
        ).take(j - i).push(
            (next + Schema::field_count_seq(fields, i) - Schema::field_count_seq(
                fields,
                j,
            )) as u64,
        ),
    decreases j - i,
{
    lemma_subtype_ids_fields_len(fields, i, next);
    if i < j {
        let tail = subtype_ids_fields(fields, i + 1, next + fields[i].1.column_count());
        lemma_subtype_ids_fields_len(fields, i + 1, next + fields[i].1.column_count());
        lemma_subtype_ids_fields_index(fields, i + 1, next + fields[i].1.column_count(), j);
        assert(subtype_ids_fields(fields, i, next) == seq![next as u64] + tail);
        crate::schema::lemma_field_count_le(fields, i);
        assert(subtype_ids_fields(fields, i, next).take(j - i + 1) =~= seq![next as u64]
            + tail.take(j - i));
        assert(subtype_ids_fields(fields, i, next).take(j - i) =~= seq![next as u64] + tail.take(
            j - i - 1,
        ));
    } else {
        assert(subtype_ids_fields(fields, i, next).take(1) =~= seq![next as u64]);
        assert(subtype_ids_fields(fields, i, next).take(0) =~= Seq::<u64>::empty());
    }
}

proof fn lemma_subtype_ids_fields_len(fields: Seq<Field>, i: int, next: nat)
    requires
        0 <= i <= fields.len(),
    ensures
        subtype_ids_fields(fields, i, next).len() == fields.len() - i,
    decreases fields.len() - i,
{
    if i < fields.len() {
        lemma_subtype_ids_fields_len(fields, i + 1, next + fields[i].1.column_count());
    }
}

proof fn lemma_subtype_ids_schemas_index(vs: Seq<Schema>, i: int, next: nat, j: int)
    requires
        0 <= i <= j < vs.len(),
    ensures
        subtype_ids_schemas(vs, i, next).take(j - i + 1) =~= subtype_ids_schemas(
            vs,
            i,
            next,
        ).take(j - i).push(
            (next + Schema::count_seq(vs, i) - Schema::count_seq(vs, j)) as u64,
        ),
    decreases j - i,
{
    lemma_subtype_ids_schemas_len(vs, i, next);
    if i < j {
        let tail = subtype_ids_schemas(vs, i + 1, next + vs[i].column_count());
        lemma_subtype_ids_schemas_len(vs, i + 1, next + vs[i].column_count());
        lemma_subtype_ids_schemas_index(vs, i + 1, next + vs[i].column_count(), j);
        assert(subtype_ids_schemas(vs, i, next) == seq![next as u64] + tail);
        crate::schema::lemma_count_le(vs, i);
        assert(subtype_ids_schemas(vs, i, next).take(j - i + 1) =~= seq![next as u64] + tail.take(
            j - i,
        ));
        assert(subtype_ids_schemas(vs, i, next).take(j - i) =~= seq![next as u64] + tail.take(
            j - i - 1,
        ));
    } else {
        assert(subtype_ids_schemas(vs, i, next).take(1) =~= seq![next as u64]);
        assert(subtype_ids_schemas(vs, i, next).take(0) =~= Seq::<u64>::empty());
    }
}

proof fn lemma_subtype_ids_schemas_len(vs: Seq<Schema>, i: int, next: nat)
    requires
        0 <= i <= vs.len(),
    ensures
        subtype_ids_schemas(vs, i, next).len() == vs.len() - i,
    decreases vs.len() - i,
{
    if i < vs.len() {
        lemma_subtype_ids_schemas_len(vs, i + 1, next + vs[i].column_count());
    }
}

/// If `s.skip(k) == a + b`, then `s.take(k + |a|) == s.take(k) + a` and
/// `s.skip(k + |a|) == b`.
proof fn lemma_skip_concat_general(s: Seq<u8>, k: int, a: Seq<u8>, b: Seq<u8>)
    requires
        0 <= k <= s.len(),
        s.skip(k) == a + b,
    ensures
        s.take(k + a.len()) =~= s.take(k) + a,
        s.skip(k + a.len()) =~= b,
{
    broadcast use vstd::seq_lib::group_seq_properties;

    assert(s.skip(k).len() == a.len() + b.len());
    assert forall|i: int|
        0 <= i < k + a.len() implies s.take(k + a.len())[i] == (s.take(k) + a)[i] by {
        if i >= k {
            assert(s.skip(k)[i - k] == (a + b)[i - k]);
        }
    }
    assert forall|i: int| 0 <= i < b.len() implies s.skip(k + a.len())[i] == b[i] by {
        assert(s.skip(k)[a.len() + i] == (a + b)[a.len() + i]);
    }
}

/// Saturating 64-bit addition.
fn sat_add_u64(a: u64, b: u64) -> (r: u64)
    ensures
        r == if a + b <= u64::MAX {
            a + b
        } else {
            u64::MAX as int
        },
{
    if a <= u64::MAX - b {
        a + b
    } else {
        u64::MAX
    }
}


} // verus!
