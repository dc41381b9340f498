use vstd::prelude::*;
use crate::compression::{CompressionKind, CompressionStream, stream_emits};
use crate::count_write::{CountWrite, extends};
use crate::data::Data;
use crate::data::{presence, some_vals, lemma_some_vals_push, sat_add_usize};
use crate::encoder::boolean_rle::{BooleanRLE, BooleanRLEPosition, bool_rle_decodes};
use crate::encoder::byte_rle::{ByteRLE, ByteRLEPosition, byte_rle_dec};
use crate::proto::{encode_row_index_entry, enc_row_index_entry};
use crate::statistics::{GenericStatistics, Statistics};
use crate::stripe::{StreamInfo, StreamKind};
use crate::writer::Config;

verus! {

/// A seekable position in a union column.
#[derive(Clone, Copy)]
pub struct UnionDataPosition {
    pub present: BooleanRLEPosition,
    pub tags: ByteRLEPosition,
}

impl UnionDataPosition {
    pub open spec fn spec_entries(&self, include_present: bool) -> Seq<u64> {
        (if include_present {
            self.present.spec_entries()
        } else {
            Seq::empty()
        }) + self.tags.spec_entries()
    }

    pub fn record(&self, include_present: bool, out: &mut Vec<u64>)
        ensures
            final(out)@ == old(out)@ + self.spec_entries(include_present),
    {
        if include_present {
            self.present.record(out);
        }
        self.tags.record(out);
        proof {
            assert(out@ =~= old(out)@ + self.spec_entries(include_present));
        }
    }
}

pub struct UnionRowIndexEntry {
    position: UnionDataPosition,
    stats: GenericStatistics,
}

/// The `RowIndex` message payload for the recorded row groups.
pub closed spec fn enc_union_index(entries: Seq<UnionRowIndexEntry>, include_present: bool) -> Seq<u8>
    decreases entries.len(),
{
    if entries.len() == 0 {
        Seq::empty()
    } else {
        enc_union_index(entries.drop_last(), include_present) + enc_row_index_entry(
            entries.last().position.spec_entries(include_present),
            Statistics::Generic(entries.last().stats),
        )
    }
}

/// Column writer for Union values: a PRESENT stream and a byte-RLE DATA
/// stream of variant tags; one child column per variant.
pub struct UnionData {
    pub(crate) column_id: u32,
    pub(crate) children: Vec<Data>,
    pub(crate) present: BooleanRLE,
    pub(crate) tags: ByteRLE,
    pub(crate) stripe_stats: GenericStatistics,
    pub(crate) row_group_stats: GenericStatistics,
    pub(crate) child_counts: Vec<u64>,
    pub(crate) row_group_position: UnionDataPosition,
    pub(crate) row_index_entries: Vec<UnionRowIndexEntry>,
    pub(crate) config: Config,
    pub(crate) written: Ghost<Seq<Option<u8>>>,
}

impl UnionData {
    /// The variant tags (or nulls) written in the current stripe.
    pub open(crate) spec fn written(&self) -> Seq<Option<u8>> {
        self.written@
    }

    pub closed spec fn spec_column_id(&self) -> u32 {
        self.column_id
    }

    pub closed spec fn spec_kind(&self) -> CompressionKind {
        self.present.spec_kind()
    }

    pub closed spec fn spec_level(&self) -> int {
        self.present.spec_level()
    }

    pub closed spec fn spec_block_size(&self) -> int {
        self.present.spec_block_size()
    }

    pub closed spec fn spec_stride(&self) -> u32 {
        self.config.row_index_stride
    }

    pub open(crate) spec fn spec_children(&self) -> Seq<Data> {
        self.children@
    }

    /// How many values each variant child owes.
    pub open(crate) spec fn spec_child_counts(&self) -> Seq<u64> {
        self.child_counts@
    }

    pub closed spec fn spec_stripe_stats(&self) -> GenericStatistics {
        self.stripe_stats
    }

    pub closed spec fn group_flushed(&self) -> bool {
        self.row_group_stats.num_values == 0
    }

    /// The row groups recorded so far.
    pub closed spec fn spec_index_entries(&self) -> Seq<UnionRowIndexEntry> {
        self.row_index_entries@
    }

    pub closed spec fn spec_has_null(&self) -> bool {
        self.stripe_stats.num_values != self.stripe_stats.num_present
            || self.row_group_stats.num_values != self.row_group_stats.num_present
    }

    pub closed spec fn own_wf(&self) -> bool {
        &&& self.config.wf()
        &&& self.present.wf()
        &&& self.present.spec_kind() == self.config.compression.spec_kind()
        &&& self.present.spec_level() == self.config.compression.spec_level() as int
        &&& self.present.spec_block_size() == self.config.compression.spec_block_size() as int
        &&& self.tags.wf()
        &&& self.present.spec_kind() == self.tags.spec_kind()
        &&& self.present.spec_level() == self.tags.spec_level()
        &&& self.present.spec_block_size() == self.tags.spec_block_size()
        &&& self.present.vals() == presence(self.written@)
        &&& self.tags.vals() == some_vals(self.written@)
        &&& self.stripe_stats.wf()
        &&& self.row_group_stats.wf()
        &&& self.stripe_stats.num_values + self.row_group_stats.num_values == self.written@.len()
        &&& self.stripe_stats.num_present + self.row_group_stats.num_present == some_vals(
            self.written@,
        ).len()
        &&& (self.row_group_stats.num_values == 0 ==> self.row_group_stats == (GenericStatistics {
            num_values: 0,
            num_present: 0,
        }))
        &&& self.spec_has_null() == (some_vals(self.written@).len() != self.written@.len())
        &&& self.written@.len() <= u64::MAX
        &&& forall|i: int|
            0 <= i < self.row_index_entries@.len()
                ==> (#[trigger] self.row_index_entries@[i].stats).wf()
    }

    /// Build the node itself; `Data::new` fills in the children.
    pub(crate) fn new_node(config: &Config, column_id: &mut u32) -> (r: UnionData)
        requires
            config.wf(),
            *old(column_id) < u32::MAX,
        ensures
            r.own_wf(),
            r.written() == Seq::<Option<u8>>::empty(),
            r.spec_column_id() == *old(column_id),
            *final(column_id) == *old(column_id) + 1,
            r.spec_stride() == config.row_index_stride,
            r.spec_children() == Seq::<Data>::empty(),
            r.spec_child_counts() == Seq::<u64>::empty(),
    {
        let cid = *column_id;
        *column_id = *column_id + 1;
        let present = BooleanRLE::new(&config.compression);
        let tags = ByteRLE::new(&config.compression);
        let row_group_position = UnionDataPosition {
            present: present.position(),
            tags: tags.position(),
        };
        let r = UnionData {
            column_id: cid,
            children: Vec::new(),
            present,
            tags,
            stripe_stats: GenericStatistics::new(),
            row_group_stats: GenericStatistics::new(),
            child_counts: Vec::new(),
            row_group_position,
            row_index_entries: Vec::new(),
            config: config.clone(),
            written: Ghost(Seq::empty()),
        };
        proof {
            assert(presence(r.written@) =~= Seq::<bool>::empty());
            assert(some_vals(r.written@) =~= Seq::<u8>::empty());
        }
        r
    }

    pub(crate) fn push_child(&mut self, child: Data)
        requires
            old(self).spec_children().len() < 256,
        ensures
            final(self).spec_children() == old(self).spec_children().push(child),
            final(self).spec_child_counts() == old(self).spec_child_counts().push(0u64),
            final(self).own_wf() == old(self).own_wf(),
            final(self).group_flushed() == old(self).group_flushed(),
            final(self).written() == old(self).written(),
            final(self).spec_column_id() == old(self).spec_column_id(),
            final(self).spec_stride() == old(self).spec_stride(),
    {
        self.children.push(child);
        self.child_counts.push(0);
    }

    pub fn column_id(&self) -> (r: u32)
        ensures
            r == self.spec_column_id(),
    {
        self.column_id
    }

    /// How many variant children this union has.
    pub fn num_children(&self) -> (r: usize)
        ensures
            r == self.spec_children().len(),
    {
        self.children.len()
    }

    /// Borrow one variant child mutably.
    pub fn child(&mut self, i: usize) -> (r: &mut Data)
        requires
            i < old(self).spec_children().len(),
        ensures
            *r == old(self).spec_children()[i as int],
            final(self).spec_children() == old(self).spec_children().update(i as int, *final(r)),
            final(self).own_wf() == old(self).own_wf(),
            final(self).group_flushed() == old(self).group_flushed(),
            final(self).written() == old(self).written(),
            final(self).spec_column_id() == old(self).spec_column_id(),
            final(self).spec_child_counts() == old(self).spec_child_counts(),
            final(self).spec_stride() == old(self).spec_stride(),
    {
        &mut self.children[i]
    }

    fn check_row_group(&mut self)
        requires
            old(self).own_wf(),
        ensures
            final(self).own_wf(),
            final(self).spec_kind() == old(self).spec_kind(),
            final(self).spec_level() == old(self).spec_level(),
            final(self).spec_block_size() == old(self).spec_block_size(),
            final(self).written() == old(self).written(),
            final(self).spec_column_id() == old(self).spec_column_id(),
            final(self).spec_children() == old(self).spec_children(),
            final(self).spec_child_counts() == old(self).spec_child_counts(),
            final(self).spec_stride() == old(self).spec_stride(),
    {
        if self.row_group_stats.num_values == self.config.row_index_stride as u64 {
            self.finish_row_group();
        }
    }

    fn finish_row_group(&mut self)
        requires
            old(self).own_wf(),
        ensures
            final(self).own_wf(),
            final(self).spec_kind() == old(self).spec_kind(),
            final(self).spec_level() == old(self).spec_level(),
            final(self).spec_block_size() == old(self).spec_block_size(),
            final(self).written() == old(self).written(),
            final(self).spec_column_id() == old(self).spec_column_id(),
            final(self).spec_children() == old(self).spec_children(),
            final(self).spec_child_counts() == old(self).spec_child_counts(),
            final(self).spec_stride() == old(self).spec_stride(),
            final(self).group_flushed(),
    {
        if self.row_group_stats.num_values > 0 {
            let group = self.row_group_stats;
            self.row_group_stats = GenericStatistics::new();
            self.stripe_stats.merge(&group);
            self.row_index_entries.push(
                UnionRowIndexEntry { position: self.row_group_position, stats: group },
            );
            self.row_group_position = UnionDataPosition {
                present: self.present.position(),
                tags: self.tags.position(),
            };
        }
    }

    /// Record one non-null row carrying variant `tag`; the caller writes
    /// the value into that variant's child.
    pub fn write(&mut self, tag: u8)
        requires
            old(self).own_wf(),
            old(self).written().len() < u64::MAX,
            (tag as int) < old(self).spec_children().len(),
            old(self).spec_child_counts().len() == old(self).spec_children().len(),
            old(self).spec_child_counts()[tag as int] < u64::MAX,
        ensures
            final(self).own_wf(),
            final(self).written() == old(self).written().push(Some(tag)),
            final(self).spec_column_id() == old(self).spec_column_id(),
            final(self).spec_children() == old(self).spec_children(),
            final(self).spec_child_counts() == old(self).spec_child_counts().update(
                tag as int,
                (old(self).spec_child_counts()[tag as int] + 1) as u64,
            ),
            final(self).spec_stride() == old(self).spec_stride(),
    {
        self.present.write(true);
        self.tags.write(tag);
        let c = self.child_counts[tag as usize];
        self.child_counts.set(tag as usize, c + 1);
        self.row_group_stats.update(true);
        proof {
            lemma_some_vals_push(self.written@, Some(tag));
            self.written@ = self.written@.push(Some(tag));
            assert(presence(self.written@) =~= presence(old(self).written@).push(true));
            assert(some_vals(old(self).written@) + seq![tag] =~= some_vals(
                old(self).written@,
            ).push(tag));
        }
        self.check_row_group();
    }

    /// Write one null row.
    pub fn write_null(&mut self)
        requires
            old(self).own_wf(),
            old(self).written().len() < u64::MAX,
        ensures
            final(self).own_wf(),
            final(self).written() == old(self).written().push(None),
            final(self).spec_column_id() == old(self).spec_column_id(),
            final(self).spec_children() == old(self).spec_children(),
            final(self).spec_child_counts() == old(self).spec_child_counts(),
            final(self).spec_stride() == old(self).spec_stride(),
    {
        self.present.write(false);
        self.row_group_stats.update(false);
        proof {
            lemma_some_vals_push(self.written@, None);
            self.written@ = self.written@.push(None);
            assert(presence(self.written@) =~= presence(old(self).written@).push(false));
            assert(some_vals(self.written@) =~= some_vals(old(self).written@));
        }
        self.check_row_group();
    }

    /// Whether this node itself received exactly `expected` values.
    pub fn verify_own_row_count(&self, expected: u64) -> (r: bool)
        requires
            self.own_wf(),
        ensures
            r == (self.written().len() == expected),
    {
        self.stripe_stats.num_values + self.row_group_stats.num_values == expected
    }

    /// How many values variant `i` owes.
    pub fn child_count(&self, i: usize) -> (r: u64)
        requires
            i < self.spec_child_counts().len(),
        ensures
            r == self.spec_child_counts()[i as int],
    {
        self.child_counts[i]
    }

    /// Emit this node's ROW_INDEX stream, unless row indexes are disabled.
    pub(crate) fn write_own_index(&mut self, out: &mut CountWrite, stream_infos: &mut Vec<StreamInfo>)
        requires
            old(self).own_wf(),
        ensures
            final(self).own_wf(),
            final(self).written() == old(self).written(),
            final(self).spec_column_id() == old(self).spec_column_id(),
            final(self).spec_children() == old(self).spec_children(),
            final(self).spec_child_counts() == old(self).spec_child_counts(),
            final(self).spec_stride() == old(self).spec_stride(),
            final(self).group_flushed(),
            final(out)@.len() >= old(out)@.len(),
            extends(old(out)@, final(out)@),
            old(self).spec_stride() > 0 ==> final(stream_infos)@ == old(stream_infos)@.push(
                (StreamInfo {
                    kind: StreamKind::RowIndex,
                    column_id: old(self).spec_column_id(),
                    length: (final(out)@.len() - old(out)@.len()) as u64,
                }),
            ),
            old(self).spec_stride() > 0 ==> stream_emits(
                old(out)@,
                final(out)@,
                enc_union_index(final(self).spec_index_entries(), final(self).spec_has_null()),
                old(self).spec_kind(),
                old(self).spec_level(),
                old(self).spec_block_size(),
            ),
            old(self).spec_stride() == 0 ==> final(stream_infos)@ == old(stream_infos)@
                && final(out)@ == old(out)@,
    {
        self.finish_row_group();
        if self.config.row_index_stride == 0 {
            return ;
        }
        let has_null = self.stripe_stats.num_values != self.stripe_stats.num_present;
        let mut msg: Vec<u8> = Vec::new();
        let mut i: usize = 0;
        while i < self.row_index_entries.len()
            invariant
                self.own_wf(),
                i <= self.row_index_entries@.len(),
                has_null == self.spec_has_null(),
                self.group_flushed(),
                msg@ == enc_union_index(self.row_index_entries@.take(i as int), has_null),
            decreases self.row_index_entries@.len() - i,
        {
            let mut positions: Vec<u64> = Vec::new();
            self.row_index_entries[i].position.record(has_null, &mut positions);
            let stat = Statistics::Generic(self.row_index_entries[i].stats);
            encode_row_index_entry(&positions, &stat, &mut msg);
            i += 1;
            proof {
                assert(self.row_index_entries@.take(i as int).drop_last()
                    =~= self.row_index_entries@.take(i - 1));
                assert(self.row_index_entries@.take(i as int).last()
                    == self.row_index_entries@[i - 1]);
                assert(msg@ =~= enc_union_index(
                    self.row_index_entries@.take(i as int),
                    has_null,
                ));
            }
        }
        proof {
            assert(self.row_index_entries@.take(self.row_index_entries@.len() as int)
                =~= self.row_index_entries@);
        }
        let start = out.pos();
        let mut cs = CompressionStream::new(&self.config.compression);
        cs.write_bytes(msg.as_slice());
        proof {
            assert(cs.content() =~= msg@);
        }
        cs.finish(out);
        let len = (out.pos() - start) as u64;
        stream_infos.push(
            StreamInfo { kind: StreamKind::RowIndex, column_id: self.column_id, length: len },
        );
        proof {
            assert(stream_infos@ =~= old(stream_infos)@.push(
                (StreamInfo {
                    kind: StreamKind::RowIndex,
                    column_id: old(self).spec_column_id(),
                    length: (out@.len() - old(out)@.len()) as u64,
                }),
            ));
        }
    }

    /// Emit this node's PRESENT stream (when a null was seen) and the tag
    /// DATA stream, and reset the node's own per-stripe state.  The DATA
    /// stream carries exactly the non-null tags written.
    pub(crate) fn write_own_data(&mut self, out: &mut CountWrite, stream_infos: &mut Vec<StreamInfo>) -> (mids: Ghost<Seq<u8>>)
        requires
            old(self).own_wf(),
        ensures
            final(self).own_wf(),
            final(self).written() == Seq::<Option<u8>>::empty(),
            final(self).spec_column_id() == old(self).spec_column_id(),
            final(self).spec_children() == old(self).spec_children(),
            final(self).spec_child_counts() == Seq::new(
                old(self).spec_child_counts().len(),
                |i: int| 0u64,
            ),
            final(self).spec_stride() == old(self).spec_stride(),
            final(out)@.len() >= old(out)@.len(),
            extends(old(out)@, final(out)@),
            ({
                let mid = mids@;
                exists|p_enc: Seq<u8>, l_enc: Seq<u8>|
                    #![trigger p_enc.len(), l_enc.len()]
                    {
                        &&& (if old(self).spec_has_null() {
                            &&& bool_rle_decodes(p_enc, presence(old(self).written()))
                            &&& stream_emits(
                                old(out)@,
                                mid,
                                p_enc,
                                old(self).spec_kind(),
                                old(self).spec_level(),
                                old(self).spec_block_size(),
                            )
                        } else {
                            mid == old(out)@
                        })
                        &&& byte_rle_dec(l_enc) == Some(some_vals(old(self).written()))
                        &&& stream_emits(
                            mid,
                            final(out)@,
                            l_enc,
                            old(self).spec_kind(),
                            old(self).spec_level(),
                            old(self).spec_block_size(),
                        )
                        &&& old(out)@.len() <= mid.len() <= final(out)@.len()
                        &&& final(stream_infos)@ == (if old(self).spec_has_null() {
                            old(stream_infos)@.push(
                                (StreamInfo {
                                    kind: StreamKind::Present,
                                    column_id: old(self).spec_column_id(),
                                    length: (mid.len() - old(out)@.len()) as u64,
                                }),
                            )
                        } else {
                            old(stream_infos)@
                        }).push(
                            (StreamInfo {
                                kind: StreamKind::Data,
                                column_id: old(self).spec_column_id(),
                                length: (final(out)@.len() - mid.len()) as u64,
                            }),
                        )
                    }
            }),
    {
        let has_null = {
            let a = self.stripe_stats.num_values != self.stripe_stats.num_present;
            let b = self.row_group_stats.num_values != self.row_group_stats.num_present;
            a || b
        };
        let ghost mid0: Seq<u8> = old(out)@;
        if has_null {
            let start = out.pos();
            self.present.finish(out);
            let plen = (out.pos() - start) as u64;
            stream_infos.push(
                StreamInfo { kind: StreamKind::Present, column_id: self.column_id, length: plen },
            );
            proof {
                mid0 = out@;
            }
        } else {
            let mut scratch = CountWrite::new();
            self.present.finish(&mut scratch);
        }
        let start = out.pos();
        self.tags.finish(out);
        let tlen = (out.pos() - start) as u64;
        stream_infos.push(
            StreamInfo { kind: StreamKind::Data, column_id: self.column_id, length: tlen },
        );
        self.stripe_stats = GenericStatistics::new();
        self.row_group_stats = GenericStatistics::new();
        let n = self.child_counts.len();
        self.child_counts = zero_counts(n);
        self.row_index_entries.clear();
        self.row_group_position = UnionDataPosition {
            present: self.present.position(),
            tags: self.tags.position(),
        };
        proof {
            self.written@ = Seq::empty();
            assert(presence(self.written@) =~= Seq::<bool>::empty());
            assert(some_vals(self.written@) =~= Seq::<u8>::empty());
            let k = old(self).spec_kind();
            let lv = old(self).spec_level();
            let bs = old(self).spec_block_size();
            let pbits = presence(old(self).written());
            let tgs = some_vals(old(self).written());
            let l_enc = choose|l_enc: Seq<u8>|
                byte_rle_dec(l_enc) == Some(tgs) && stream_emits(mid0, out@, l_enc, k, lv, bs);
            assert(byte_rle_dec(l_enc) == Some(tgs) && stream_emits(
                mid0,
                out@,
                l_enc,
                k,
                lv,
                bs,
            ));
            let p_enc: Seq<u8> = if old(self).spec_has_null() {
                choose|p_enc: Seq<u8>|
                    bool_rle_decodes(p_enc, pbits) && stream_emits(
                        old(out)@,
                        mid0,
                        p_enc,
                        k,
                        lv,
                        bs,
                    )
            } else {
                Seq::empty()
            };
            if old(self).spec_has_null() {
                assert(bool_rle_decodes(p_enc, pbits) && stream_emits(
                    old(out)@,
                    mid0,
                    p_enc,
                    k,
                    lv,
                    bs,
                ));
            }
            assert(p_enc.len() >= 0 && l_enc.len() >= 0);
        }
        Ghost(mid0)
    }

    /// Append this node's stripe statistics.
    pub(crate) fn statistics_own(&self, out: &mut Vec<Statistics>)
        requires
            self.own_wf(),
        ensures
            final(out)@ == old(out)@.push(Statistics::Generic(self.spec_stripe_stats())),
            Statistics::Generic(self.spec_stripe_stats()).wf(),
    {
        out.push(Statistics::Generic(self.stripe_stats));
    }

    /// Once every row group is folded in, the stripe statistics count
    /// exactly the values written.
    pub proof fn lemma_stats_reflect_written(&self)
        requires
            self.own_wf(),
            self.group_flushed(),
        ensures
            self.spec_stripe_stats().num_values == self.written().len(),
            self.spec_stripe_stats().num_present == some_vals(self.written()).len(),
    {
    }

    /// Bytes buffered by this node itself.
    pub(crate) fn own_estimated_size(&self) -> (r: usize) {
        sat_add_usize(self.present.estimated_size(), self.tags.estimated_size())
    }
}

/// A vector of `n` zeroed counters.
fn zero_counts(n: usize) -> (r: Vec<u64>)
    ensures
        r@ == Seq::new(n as nat, |i: int| 0u64),
{
    let mut r: Vec<u64> = Vec::new();
    let mut i: usize = 0;
    while i < n
        invariant
            i <= n,
            r@ == Seq::new(i as nat, |j: int| 0u64),
        decreases n - i,
    {
        r.push(0);
        i += 1;
        proof {
            assert(r@ =~= Seq::new(i as nat, |j: int| 0u64));
        }
    }
    r
}

} // verus!
