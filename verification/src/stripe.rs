use vstd::prelude::*;
use crate::compression::CompressionStream;
use crate::count_write::{CountWrite, extends};
use crate::data::Data;
use crate::proto::{encode_stream, encode_column_encoding};
use crate::schema::Schema;
use crate::statistics::Statistics;
use crate::writer::{Config, OrcError};

verus! {

/// The stream kinds this writer emits.
#[derive(Clone, Copy, PartialEq, Eq, Structural)]
pub enum StreamKind {
    Present,
    Data,
    Length,
    Secondary,
    RowIndex,
}

impl StreamKind {
    /// The `Stream::Kind` tag of the ORC stripe footer.
    pub open spec fn spec_code(&self) -> u64 {
        match self {
            StreamKind::Present => 0,
            StreamKind::Data => 1,
            StreamKind::Length => 2,
            StreamKind::Secondary => 5,
            StreamKind::RowIndex => 6,
        }
    }

    pub fn code(&self) -> (r: u64)
        ensures
            r == self.spec_code(),
    {
        match self {
            StreamKind::Present => 0,
            StreamKind::Data => 1,
            StreamKind::Length => 2,
            StreamKind::Secondary => 5,
            StreamKind::RowIndex => 6,
        }
    }
}

/// One emitted stream: its kind, its column, and how many bytes it holds.
#[derive(Clone, Copy)]
pub struct StreamInfo {
    pub kind: StreamKind,
    pub column_id: u32,
    pub length: u64,
}

/// The total byte length a list of stream entries accounts for.
pub open spec fn infos_total(s: Seq<StreamInfo>) -> int
    decreases s.len(),
{
    if s.len() == 0 {
        0
    } else {
        infos_total(s.drop_last()) + s.last().length
    }
}

/// Everything remembered about one finished stripe.
pub struct StripeInfo {
    pub offset: u64,
    pub num_rows: u64,
    pub index_length: u64,
    pub data_length: u64,
    pub footer_length: u64,
    pub statistics: Vec<Statistics>,
}

/// The column tree of the stripe being filled, with its row count and the
/// absolute offset at which it will land in the file.
pub struct Stripe {
    pub(crate) data: Data,
    pub(crate) offset: u64,
    pub(crate) num_rows: u64,
    pub(crate) config: Config,
}

impl Stripe {
    pub open(crate) spec fn wf(&self) -> bool {
        &&& self.data.wf()
        &&& self.config.wf()
    }

    pub open(crate) spec fn spec_offset(&self) -> u64 {
        self.offset
    }

    pub open(crate) spec fn spec_num_rows(&self) -> u64 {
        self.num_rows
    }

    pub open(crate) spec fn spec_column_count(&self) -> nat {
        self.data.spec_column_count()
    }

    pub open(crate) spec fn spec_data(&self) -> Data {
        self.data
    }

    pub open(crate) spec fn spec_config(&self) -> Config {
        self.config
    }

    pub fn new(schema: &Schema, config: &Config) -> (r: Stripe)
        requires
            schema.valid(),
            config.wf(),
            schema.column_count() + 1 <= u32::MAX,
        ensures
            r.wf(),
            r.spec_offset() == 3,
            r.spec_num_rows() == 0,
            r.spec_column_count() == schema.column_count(),
            r.spec_data().tree_reset(),
            Data::variant_matches(r.spec_data(), *schema),
    {
        let mut cid: u32 = 0;
        Stripe {
            data: Data::new(schema, config, &mut cid),
            offset: 3,
            num_rows: 0,
            config: config.clone(),
        }
    }

    /// Borrow the root column writer.
    pub fn data_mut(&mut self) -> (r: &mut Data)
        ensures
            *r == old(self).spec_data(),
            final(self).spec_data() == *final(r),
            final(self).spec_offset() == old(self).spec_offset(),
            final(self).spec_num_rows() == old(self).spec_num_rows(),
            final(self).spec_config() == old(self).spec_config(),
    {
        &mut self.data
    }

    /// Commit `num_rows` more rows: every column must have received exactly
    /// the values those rows imply, else the batch is rejected.
    pub fn write_batch(&mut self, num_rows: u64) -> (r: Result<(), OrcError>)
        requires
            old(self).wf(),
        ensures
            final(self).wf(),
            final(self).spec_data() == old(self).spec_data(),
            final(self).spec_config() == old(self).spec_config(),
            final(self).spec_offset() == old(self).spec_offset(),
            final(self).spec_column_count() == old(self).spec_column_count(),
            r is Ok <==> old(self).spec_num_rows() + num_rows <= u64::MAX && old(
                self,
            ).spec_data().rows_ok((old(self).spec_num_rows() + num_rows) as u64),
            r is Ok ==> final(self).spec_num_rows() == old(self).spec_num_rows() + num_rows,
            r is Err ==> final(self).spec_num_rows() == old(self).spec_num_rows(),
    {
        if self.num_rows > u64::MAX - num_rows {
            return Err(OrcError::TooManyRows);
        }
        let total = self.num_rows + num_rows;
        if !self.data.verify_row_count(total) {
            return Err(OrcError::RowCountMismatch);
        }
        self.num_rows = total;
        Ok(())
    }

    /// Bytes the stripe would take if flushed now.
    pub fn estimated_size(&self) -> (r: usize)
        requires
            self.wf(),
    {
        self.data.estimated_size()
    }

    /// Encode the stripe footer: the stream directory and one DIRECT
    /// encoding per column, through a fresh compression stream.
    fn write_footer(&mut self, out: &mut CountWrite, stream_infos: &Vec<StreamInfo>, ncols: u32)
        requires
            old(self).wf(),
        ensures
            final(self).wf(),
            *final(self) == *old(self),
            final(out)@.len() >= old(out)@.len(),
            extends(old(out)@, final(out)@),
    {
        let mut msg: Vec<u8> = Vec::new();
        let mut i: usize = 0;
        while i < stream_infos.len()
            decreases stream_infos@.len() - i,
        {
            let si = &stream_infos[i];
            encode_stream(si.kind.code(), si.column_id, si.length, &mut msg);
            i += 1;
        }
        let mut c: u32 = 0;
        while c < ncols
            decreases ncols - c,
        {
            encode_column_encoding(&mut msg);
            c = c + 1;
        }
        let mut cs = CompressionStream::new(&self.config.compression);
        cs.write_bytes(msg.as_slice());
        cs.finish(out);
    }

    /// Flush the stripe: row-index streams, data streams and the stripe
    /// footer, recording a `StripeInfo`.  A stripe without rows is a no-op.
    /// The ghost result is the column tree as it stood when the statistics
    /// were snapshotted (after the final row groups closed); the recorded
    /// statistics are exactly that tree's per-column stripe statistics.
    pub fn finish(&mut self, out: &mut CountWrite, stripe_infos_out: &mut Vec<StripeInfo>, ncols: u32) -> (snap: Ghost<Data>)
        requires
            old(self).wf(),
            old(self).spec_column_count() <= u32::MAX,
            ncols == old(self).spec_column_count(),
            old(self).spec_offset() == old(out)@.len(),
        ensures
            final(self).wf(),
            final(self).spec_column_count() == old(self).spec_column_count(),
            final(out)@.len() >= old(out)@.len(),
            extends(old(out)@, final(out)@),
            old(self).spec_num_rows() == 0 ==> final(out)@ == old(out)@
                && final(stripe_infos_out)@ == old(stripe_infos_out)@ && *final(self) == *old(
                self,
            ),
            old(self).spec_num_rows() > 0 ==> {
                &&& final(self).spec_num_rows() == 0
                &&& final(self).spec_offset() == final(out)@.len()
                &&& final(stripe_infos_out)@.len() == old(stripe_infos_out)@.len() + 1
                &&& (forall|i: int|
                    0 <= i < old(stripe_infos_out)@.len() ==> final(stripe_infos_out)@[i]
                        == #[trigger] old(stripe_infos_out)@[i])
                &&& ({
                    let info = final(stripe_infos_out)@.last();
                    &&& info.num_rows == old(self).spec_num_rows()
                    &&& info.offset == old(self).spec_offset()
                    &&& info.index_length + info.data_length + info.footer_length
                        == final(out)@.len() - old(out)@.len()
                    &&& info.statistics@.len() == ncols
                    &&& forall|i: int|
                        0 <= i < info.statistics@.len() ==> (#[trigger] info.statistics@[i]).wf()
                    &&& snap@.wf()
                    &&& snap@.tree_flushed()
                    &&& Data::same_written(old(self).spec_data(), snap@)
                    &&& final(self).spec_data().tree_reset()
                    &&& snap@.tree_stats().len() == ncols
                    &&& forall|i: int|
                        0 <= i < info.statistics@.len() ==> Statistics::stats_match(
                            info.statistics@[i],
                            #[trigger] snap@.tree_stats()[i],
                        )
                })
            },
    {
        if self.num_rows == 0 {
            return Ghost(self.data);
        }
        let index_start_pos = out.pos();
        let mut stream_infos: Vec<StreamInfo> = Vec::new();
        self.data.write_index_streams(out, &mut stream_infos);
        let ghost snap0 = self.data;
        let mut statistics: Vec<Statistics> = Vec::new();
        self.data.statistics(&mut statistics);
        proof {
            Data::lemma_tree_stats_len(snap0);
        }
        let data_start_pos = out.pos();
        self.data.write_data_streams(out, &mut stream_infos);
        let footer_start_pos = out.pos();
        self.write_footer(out, &stream_infos, ncols);
        let end_pos = out.pos();
        let index_length = (data_start_pos - index_start_pos) as u64;
        let data_length = (footer_start_pos - data_start_pos) as u64;
        let footer_length = (end_pos - footer_start_pos) as u64;
        stripe_infos_out.push(
            StripeInfo {
                offset: self.offset,
                num_rows: self.num_rows,
                index_length,
                data_length,
                footer_length,
                statistics,
            },
        );
        self.offset = end_pos as u64;
        self.num_rows = 0;
        Ghost(snap0)
    }
}
} // verus!
