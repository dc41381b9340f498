use vstd::prelude::*;
use crate::compression::{CompressionKind, CompressionStream, stream_emits};
use crate::count_write::{CountWrite, extends};
use crate::data::{presence, some_vals, lemma_some_vals_push, sat_add_usize};
use crate::encoder::boolean_rle::{BooleanRLE, BooleanRLEPosition, bool_rle_decodes};
use crate::encoder::int_rle_v1::{SignedIntRLEv1, UnsignedIntRLEv1, IntRLEv1Position, int_rle_dec, pats_to_i64};
use crate::proto::{encode_row_index_entry, enc_row_index_entry};
use crate::statistics::{TimestampStatistics, Statistics, opt_min64, opt_max64, seq_min64, seq_max64, lemma_opt_min64_merge_laws};
use crate::stripe::{StreamInfo, StreamKind};
use crate::writer::Config;

verus! {

/// Number of seconds from the UNIX epoch to the ORC timestamp origin
/// (2015-01-01 UTC).
pub const EPOCH_SECONDS: i64 = -1420070400;

/// ORC's packed nanosecond form: strip trailing decimal zeros (at least
/// two) and record how many were stripped, less one, in the low 3 bits.
pub open spec fn packed_nanos(n: u32) -> u64 {
    if n == 0 || n % 100 != 0 {
        ((n as u64) * 8) as u64
    } else {
        let v1 = n / 100;
        let t1 = 1u64;
        let v2 = if v1 % 10000 == 0 {
            v1 / 10000
        } else {
            v1
        };
        let t2: u64 = if v1 % 10000 == 0 {
            (t1 + 4) as u64
        } else {
            t1
        };
        let v3 = if v2 % 100 == 0 {
            v2 / 100
        } else {
            v2
        };
        let t3: u64 = if v2 % 100 == 0 {
            (t2 + 2) as u64
        } else {
            t2
        };
        let v4 = if v3 % 10 == 0 {
            v3 / 10
        } else {
            v3
        };
        let t4: u64 = if v3 % 10 == 0 {
            (t3 + 1) as u64
        } else {
            t3
        };
        ((v4 as u64) * 8 + t4) as u64
    }
}

/// Milliseconds since the UNIX epoch of one timestamp value (whose seconds
/// count from the ORC origin, 2015-01-01).
pub open spec fn ts_epoch_millis(p: (i64, u32)) -> int {
    (p.0 + 1420070400) * 1000 + p.1 / 1000000
}

/// The epoch-millisecond images of a sequence of timestamp values.
pub open spec fn ts_millis_seq(s: Seq<(i64, u32)>) -> Seq<i64> {
    s.map_values(|p: (i64, u32)| ts_epoch_millis(p) as i64)
}

/// The seconds components of a sequence of timestamp values.
pub open spec fn ts_seconds(s: Seq<(i64, u32)>) -> Seq<i64> {
    s.map_values(|p: (i64, u32)| p.0)
}

/// The packed-nanosecond components of a sequence of timestamp values.
pub open spec fn ts_nanos(s: Seq<(i64, u32)>) -> Seq<u64> {
    s.map_values(|p: (i64, u32)| packed_nanos(p.1))
}

/// A seekable position in a timestamp column.
#[derive(Clone, Copy)]
pub struct TimestampDataPosition {
    pub present: BooleanRLEPosition,
    pub seconds: IntRLEv1Position,
    pub nanos: IntRLEv1Position,
}

impl TimestampDataPosition {
    pub open spec fn spec_entries(&self, include_present: bool) -> Seq<u64> {
        (if include_present {
            self.present.spec_entries()
        } else {
            Seq::empty()
        }) + self.seconds.spec_entries() + self.nanos.spec_entries()
    }

    pub fn record(&self, include_present: bool, out: &mut Vec<u64>)
        ensures
            final(out)@ == old(out)@ + self.spec_entries(include_present),
    {
        if include_present {
            self.present.record(out);
        }
        self.seconds.record(out);
        self.nanos.record(out);
        proof {
            assert(out@ =~= old(out)@ + self.spec_entries(include_present));
        }
    }
}

pub struct TimestampRowIndexEntry {
    position: TimestampDataPosition,
    stats: TimestampStatistics,
}

/// The `RowIndex` message payload for the recorded row groups.
pub closed spec fn enc_timestamp_index(entries: Seq<TimestampRowIndexEntry>, include_present: bool) -> Seq<u8>
    decreases entries.len(),
{
    if entries.len() == 0 {
        Seq::empty()
    } else {
        enc_timestamp_index(entries.drop_last(), include_present) + enc_row_index_entry(
            entries.last().position.spec_entries(include_present),
            Statistics::Timestamp(entries.last().stats),
        )
    }
}

/// Column writer for Timestamp values: a PRESENT stream, a signed DATA
/// stream of seconds since 2015-01-01, and an unsigned SECONDARY stream of
/// packed nanoseconds.
pub struct TimestampData {
    column_id: u32,
    present: BooleanRLE,
    seconds: SignedIntRLEv1,
    nanos: UnsignedIntRLEv1,
    stripe_stats: TimestampStatistics,
    row_group_stats: TimestampStatistics,
    row_group_position: TimestampDataPosition,
    row_index_entries: Vec<TimestampRowIndexEntry>,
    config: Config,
    written: Ghost<Seq<Option<(i64, u32)>>>,
}

impl TimestampData {
    /// Every value (or null) written in the current stripe, as (seconds
    /// since 2015-01-01, nanoseconds).
    pub closed spec fn written(&self) -> Seq<Option<(i64, u32)>> {
        self.written@
    }

    pub closed spec fn spec_column_id(&self) -> u32 {
        self.column_id
    }

    pub closed spec fn spec_kind(&self) -> CompressionKind {
        self.seconds.spec_kind()
    }

    pub closed spec fn spec_level(&self) -> int {
        self.seconds.spec_level()
    }

    pub closed spec fn spec_block_size(&self) -> int {
        self.seconds.spec_block_size()
    }

    pub closed spec fn spec_stride(&self) -> u32 {
        self.config.row_index_stride
    }

    pub closed spec fn spec_stripe_stats(&self) -> TimestampStatistics {
        self.stripe_stats
    }

    pub closed spec fn group_flushed(&self) -> bool {
        self.row_group_stats.num_values == 0
    }

    /// The row groups recorded so far.
    pub closed spec fn spec_index_entries(&self) -> Seq<TimestampRowIndexEntry> {
        self.row_index_entries@
    }

    pub closed spec fn spec_has_null(&self) -> bool {
        self.stripe_stats.num_values != self.stripe_stats.num_present
            || self.row_group_stats.num_values != self.row_group_stats.num_present
    }

    pub closed spec fn wf(&self) -> bool {
        &&& self.config.wf()
        &&& self.present.wf()
        &&& self.seconds.wf()
        &&& self.nanos.wf()
        &&& self.present.spec_kind() == self.seconds.spec_kind()
        &&& self.present.spec_level() == self.seconds.spec_level()
        &&& self.present.spec_block_size() == self.seconds.spec_block_size()
        &&& self.seconds.spec_kind() == self.config.compression.spec_kind()
        &&& self.seconds.spec_level() == self.config.compression.spec_level() as int
        &&& self.seconds.spec_block_size() == self.config.compression.spec_block_size() as int
        &&& self.nanos.spec_kind() == self.seconds.spec_kind()
        &&& self.nanos.spec_level() == self.seconds.spec_level()
        &&& self.nanos.spec_block_size() == self.seconds.spec_block_size()
        &&& self.present.vals() == presence(self.written@)
        &&& self.seconds.vals() == ts_seconds(some_vals(self.written@))
        &&& self.nanos.vals() == ts_nanos(some_vals(self.written@))
        &&& self.stripe_stats.wf()
        &&& self.row_group_stats.wf()
        &&& self.stripe_stats.num_values + self.row_group_stats.num_values == self.written@.len()
        &&& self.stripe_stats.num_present + self.row_group_stats.num_present == some_vals(
            self.written@,
        ).len()
        &&& opt_min64(
            self.stripe_stats.min_epoch_millis,
            self.row_group_stats.min_epoch_millis,
        ) == seq_min64(ts_millis_seq(some_vals(self.written@)))
        &&& opt_max64(
            self.stripe_stats.max_epoch_millis,
            self.row_group_stats.max_epoch_millis,
        ) == seq_max64(ts_millis_seq(some_vals(self.written@)))
        &&& (self.row_group_stats.num_values == 0 ==> self.row_group_stats
            == (TimestampStatistics {
            num_values: 0,
            num_present: 0,
            min_epoch_millis: None,
            max_epoch_millis: None,
        }))
        &&& self.spec_has_null() == (some_vals(self.written@).len() != self.written@.len())
        &&& self.written@.len() <= u64::MAX
        &&& forall|i: int|
            0 <= i < self.row_index_entries@.len()
                ==> (#[trigger] self.row_index_entries@[i].stats).wf()
    }

    pub fn new(config: &Config, column_id: &mut u32) -> (r: TimestampData)
        requires
            config.wf(),
            *old(column_id) < u32::MAX,
        ensures
            r.wf(),
            r.written() == Seq::<Option<(i64, u32)>>::empty(),
            r.spec_column_id() == *old(column_id),
            *final(column_id) == *old(column_id) + 1,
            r.spec_stride() == config.row_index_stride,
    {
        let cid = *column_id;
        *column_id = *column_id + 1;
        let present = BooleanRLE::new(&config.compression);
        let seconds = SignedIntRLEv1::new(&config.compression);
        let nanos = UnsignedIntRLEv1::new(&config.compression);
        let row_group_position = TimestampDataPosition {
            present: present.position(),
            seconds: seconds.position(),
            nanos: nanos.position(),
        };
        let r = TimestampData {
            column_id: cid,
            present,
            seconds,
            nanos,
            stripe_stats: TimestampStatistics::new(),
            row_group_stats: TimestampStatistics::new(),
            row_group_position,
            row_index_entries: Vec::new(),
            config: config.clone(),
            written: Ghost(Seq::empty()),
        };
        proof {
            assert(presence(r.written@) =~= Seq::<bool>::empty());
            assert(some_vals(r.written@) =~= Seq::<(i64, u32)>::empty());
            assert(ts_seconds(some_vals(r.written@)) =~= Seq::<i64>::empty());
            assert(ts_nanos(some_vals(r.written@)) =~= Seq::<u64>::empty());
            assert(ts_millis_seq(some_vals(r.written@)) =~= Seq::<i64>::empty());
        }
        r
    }

    pub fn column_id(&self) -> (r: u32)
        ensures
            r == self.spec_column_id(),
    {
        self.column_id
    }

    fn check_row_group(&mut self)
        requires
            old(self).wf(),
        ensures
            final(self).wf(),
            final(self).written() == old(self).written(),
            final(self).spec_column_id() == old(self).spec_column_id(),
            final(self).spec_kind() == old(self).spec_kind(),
            final(self).spec_level() == old(self).spec_level(),
            final(self).spec_block_size() == old(self).spec_block_size(),
            final(self).spec_stride() == old(self).spec_stride(),
    {
        if self.row_group_stats.num_values == self.config.row_index_stride as u64 {
            self.finish_row_group();
        }
    }

    fn finish_row_group(&mut self)
        requires
            old(self).wf(),
        ensures
            final(self).wf(),
            final(self).written() == old(self).written(),
            final(self).spec_column_id() == old(self).spec_column_id(),
            final(self).spec_kind() == old(self).spec_kind(),
            final(self).spec_level() == old(self).spec_level(),
            final(self).spec_block_size() == old(self).spec_block_size(),
            final(self).spec_stride() == old(self).spec_stride(),
            final(self).group_flushed(),
    {
        if self.row_group_stats.num_values > 0 {
            let group = self.row_group_stats;
            self.row_group_stats = TimestampStatistics::new();
            self.stripe_stats.merge(&group);
            self.row_index_entries.push(
                TimestampRowIndexEntry { position: self.row_group_position, stats: group },
            );
            self.row_group_position = TimestampDataPosition {
                present: self.present.position(),
                seconds: self.seconds.position(),
                nanos: self.nanos.position(),
            };
        }
    }

    /// Write one timestamp given as seconds since 2015-01-01 and
    /// nanoseconds within the second.
    pub fn write_nanos(&mut self, sec: i64, nanos: u32)
        requires
            old(self).wf(),
            old(self).written().len() < u64::MAX,
            nanos < 1_000_000_000,
            i64::MIN <= sec + 1420070400 <= i64::MAX,
            i64::MIN <= (sec + 1420070400) * 1000,
            (sec + 1420070400) * 1000 + 999 <= i64::MAX,
        ensures
            final(self).wf(),
            final(self).written() == old(self).written().push(Some((sec, nanos))),
            final(self).spec_column_id() == old(self).spec_column_id(),
            final(self).spec_kind() == old(self).spec_kind(),
            final(self).spec_level() == old(self).spec_level(),
            final(self).spec_block_size() == old(self).spec_block_size(),
            final(self).spec_stride() == old(self).spec_stride(),
    {
        let mut trailing_zeros: u64 = 0;
        let mut nanos_val: u32 = nanos;
        if nanos_val != 0 && nanos_val % 100 == 0 {
            trailing_zeros = 1;
            nanos_val = nanos_val / 100;
            if nanos_val % 10000 == 0 {
                trailing_zeros = trailing_zeros + 4;
                nanos_val = nanos_val / 10000;
            }
            if nanos_val % 100 == 0 {
                trailing_zeros = trailing_zeros + 2;
                nanos_val = nanos_val / 100;
            }
            if nanos_val % 10 == 0 {
                trailing_zeros = trailing_zeros + 1;
                nanos_val = nanos_val / 10;
            }
        }
        let packed: u64 = (nanos_val as u64) * 8 + trailing_zeros;
        proof {
            assert(packed == packed_nanos(nanos));
        }
        self.present.write(true);
        self.seconds.write(sec);
        self.nanos.write(packed);
        let millis: i64 = (sec + 1420070400) * 1000 + (nanos / 1_000_000) as i64;
        proof {
            assert(millis == ts_epoch_millis((sec, nanos)));
        }
        self.row_group_stats.update(millis);
        proof {
            lemma_some_vals_push(self.written@, Some((sec, nanos)));
            self.written@ = self.written@.push(Some((sec, nanos)));
            let sv0 = some_vals(old(self).written@);
            assert(presence(self.written@) =~= presence(old(self).written@).push(true));
            assert(some_vals(self.written@) =~= sv0.push((sec, nanos)));
            assert(ts_seconds(sv0.push((sec, nanos))) =~= ts_seconds(sv0).push(sec));
            assert(ts_nanos(sv0.push((sec, nanos))) =~= ts_nanos(sv0).push(packed_nanos(nanos)));
            let ms = ts_millis_seq(some_vals(self.written@));
            let ms0 = ts_millis_seq(sv0);
            assert(ms =~= ms0.push(millis));
            assert(ms.drop_last() =~= ms0);
            assert(ms.last() == millis);
            assert(seq_min64(ms) == opt_min64(seq_min64(ms0), Some(millis)));
            assert(seq_max64(ms) == opt_max64(seq_max64(ms0), Some(millis)));
            lemma_opt_min64_merge_laws(
                self.stripe_stats.min_epoch_millis,
                old(self).row_group_stats.min_epoch_millis,
                Some(millis),
            );
            lemma_opt_min64_merge_laws(
                self.stripe_stats.max_epoch_millis,
                old(self).row_group_stats.max_epoch_millis,
                Some(millis),
            );
        }
        self.check_row_group();
    }

    /// Write one timestamp given as seconds since the UNIX epoch.
    pub fn write_nanos_epoch(&mut self, sec_epoch: i64, nanos: u32)
        requires
            old(self).wf(),
            old(self).written().len() < u64::MAX,
            nanos < 1_000_000_000,
            i64::MIN <= sec_epoch + EPOCH_SECONDS <= i64::MAX,
            i64::MIN <= sec_epoch * 1000,
            sec_epoch * 1000 + 999 <= i64::MAX,
        ensures
            final(self).wf(),
            final(self).written() == old(self).written().push(
                Some(((sec_epoch + EPOCH_SECONDS) as i64, nanos)),
            ),
            final(self).spec_column_id() == old(self).spec_column_id(),
            final(self).spec_kind() == old(self).spec_kind(),
            final(self).spec_level() == old(self).spec_level(),
            final(self).spec_block_size() == old(self).spec_block_size(),
            final(self).spec_stride() == old(self).spec_stride(),
    {
        self.write_nanos(sec_epoch + EPOCH_SECONDS, nanos);
    }

    pub fn write_null(&mut self)
        requires
            old(self).wf(),
            old(self).written().len() < u64::MAX,
        ensures
            final(self).wf(),
            final(self).written() == old(self).written().push(None),
            final(self).spec_column_id() == old(self).spec_column_id(),
            final(self).spec_kind() == old(self).spec_kind(),
            final(self).spec_level() == old(self).spec_level(),
            final(self).spec_block_size() == old(self).spec_block_size(),
            final(self).spec_stride() == old(self).spec_stride(),
    {
        self.present.write(false);
        self.row_group_stats.update_null();
        proof {
            lemma_some_vals_push(self.written@, None);
            self.written@ = self.written@.push(None);
            assert(presence(self.written@) =~= presence(old(self).written@).push(false));
            assert(some_vals(self.written@) =~= some_vals(old(self).written@));
        }
        self.check_row_group();
    }

    /// Encode the accumulated row-group index entries as a ROW_INDEX stream,
    /// unless row indexes are disabled.
    pub fn write_index_streams(&mut self, out: &mut CountWrite, stream_infos: &mut Vec<StreamInfo>)
        requires
            old(self).wf(),
        ensures
            final(self).wf(),
            final(self).written() == old(self).written(),
            final(self).spec_column_id() == old(self).spec_column_id(),
            final(self).spec_kind() == old(self).spec_kind(),
            final(self).spec_level() == old(self).spec_level(),
            final(self).spec_block_size() == old(self).spec_block_size(),
            final(self).spec_stride() == old(self).spec_stride(),
            final(self).group_flushed(),
            final(out)@.len() >= old(out)@.len(),
            extends(old(out)@, final(out)@),
            old(self).spec_stride() > 0 ==> final(stream_infos)@ == old(stream_infos)@.push(
                (StreamInfo {
                    kind: StreamKind::RowIndex,
                    column_id: old(self).spec_column_id(),
                    length: (final(out)@.len() - old(out)@.len()) as u64,
                }),
            ),
            old(self).spec_stride() > 0 ==> stream_emits(
                old(out)@,
                final(out)@,
                enc_timestamp_index(final(self).spec_index_entries(), final(self).spec_has_null()),
                old(self).spec_kind(),
                old(self).spec_level(),
                old(self).spec_block_size(),
            ),
            old(self).spec_stride() == 0 ==> final(stream_infos)@ == old(stream_infos)@
                && final(out)@ == old(out)@,
    {
        self.finish_row_group();
        if self.config.row_index_stride == 0 {
            return ;
        }
        let has_null = self.stripe_stats.num_values != self.stripe_stats.num_present;
        let mut msg: Vec<u8> = Vec::new();
        let mut i: usize = 0;
        while i < self.row_index_entries.len()
            invariant
                self.wf(),
                i <= self.row_index_entries@.len(),
                has_null == self.spec_has_null(),
                self.group_flushed(),
                msg@ == enc_timestamp_index(self.row_index_entries@.take(i as int), has_null),
            decreases self.row_index_entries@.len() - i,
        {
            let mut positions: Vec<u64> = Vec::new();
            self.row_index_entries[i].position.record(has_null, &mut positions);
            let stat = Statistics::Timestamp(self.row_index_entries[i].stats);
            encode_row_index_entry(&positions, &stat, &mut msg);
            i += 1;
            proof {
                assert(self.row_index_entries@.take(i as int).drop_last()
                    =~= self.row_index_entries@.take(i - 1));
                assert(self.row_index_entries@.take(i as int).last()
                    == self.row_index_entries@[i - 1]);
                assert(msg@ =~= enc_timestamp_index(
                    self.row_index_entries@.take(i as int),
                    has_null,
                ));
            }
        }
        proof {
            assert(self.row_index_entries@.take(self.row_index_entries@.len() as int)
                =~= self.row_index_entries@);
        }
        let start = out.pos();
        let mut cs = CompressionStream::new(&self.config.compression);
        cs.write_bytes(msg.as_slice());
        proof {
            assert(cs.content() =~= msg@);
        }
        cs.finish(out);
        let len = (out.pos() - start) as u64;
        stream_infos.push(
            StreamInfo { kind: StreamKind::RowIndex, column_id: self.column_id, length: len },
        );
        proof {
            assert(stream_infos@ =~= old(stream_infos)@.push(
                (StreamInfo {
                    kind: StreamKind::RowIndex,
                    column_id: old(self).spec_column_id(),
                    length: (out@.len() - old(out)@.len()) as u64,
                }),
            ));
        }
    }

    /// Emit the PRESENT stream (only when a null was seen), the seconds
    /// DATA stream, and the packed-nanoseconds SECONDARY stream.
    pub fn write_data_streams(&mut self, out: &mut CountWrite, stream_infos: &mut Vec<StreamInfo>) -> (mids: Ghost<(Seq<u8>, Seq<u8>)>)
        requires
            old(self).wf(),
        ensures
            final(self).wf(),
            final(self).written() == Seq::<Option<(i64, u32)>>::empty(),
            final(self).spec_column_id() == old(self).spec_column_id(),
            final(out)@.len() >= old(out)@.len(),
            extends(old(out)@, final(out)@),
            ({
                let mid = mids@.0;
                let mid2 = mids@.1;
                exists|p_enc: Seq<u8>, s_enc: Seq<u8>, n_enc: Seq<u8>|
                    #![trigger p_enc.len(), s_enc.len(), n_enc.len()]
                    {
                        &&& (if old(self).spec_has_null() {
                            &&& bool_rle_decodes(p_enc, presence(old(self).written()))
                            &&& stream_emits(
                                old(out)@,
                                mid,
                                p_enc,
                                old(self).spec_kind(),
                                old(self).spec_level(),
                                old(self).spec_block_size(),
                            )
                        } else {
                            mid == old(out)@
                        })
                        &&& int_rle_dec(s_enc, true) is Some
                        &&& pats_to_i64(int_rle_dec(s_enc, true).unwrap()) == ts_seconds(
                            some_vals(old(self).written()),
                        )
                        &&& stream_emits(
                            mid,
                            mid2,
                            s_enc,
                            old(self).spec_kind(),
                            old(self).spec_level(),
                            old(self).spec_block_size(),
                        )
                        &&& int_rle_dec(n_enc, false) == Some(
                            ts_nanos(some_vals(old(self).written())),
                        )
                        &&& stream_emits(
                            mid2,
                            final(out)@,
                            n_enc,
                            old(self).spec_kind(),
                            old(self).spec_level(),
                            old(self).spec_block_size(),
                        )
                        &&& old(out)@.len() <= mid.len() <= mid2.len() <= final(out)@.len()
                        &&& final(stream_infos)@ == (if old(self).spec_has_null() {
                            old(stream_infos)@.push(
                                (StreamInfo {
                                    kind: StreamKind::Present,
                                    column_id: old(self).spec_column_id(),
                                    length: (mid.len() - old(out)@.len()) as u64,
                                }),
                            )
                        } else {
                            old(stream_infos)@
                        }).push(
                            (StreamInfo {
                                kind: StreamKind::Data,
                                column_id: old(self).spec_column_id(),
                                length: (mid2.len() - mid.len()) as u64,
                            }),
                        ).push(
                            (StreamInfo {
                                kind: StreamKind::Secondary,
                                column_id: old(self).spec_column_id(),
                                length: (final(out)@.len() - mid2.len()) as u64,
                            }),
                        )
                    }
            }),
    {
        let has_null = {
            let a = self.stripe_stats.num_values != self.stripe_stats.num_present;
            let b = self.row_group_stats.num_values != self.row_group_stats.num_present;
            a || b
        };
        let ghost mid0: Seq<u8> = old(out)@;
        if has_null {
            let start = out.pos();
            self.present.finish(out);
            let plen = (out.pos() - start) as u64;
            stream_infos.push(
                StreamInfo { kind: StreamKind::Present, column_id: self.column_id, length: plen },
            );
            proof {
                mid0 = out@;
            }
        } else {
            let mut scratch = CountWrite::new();
            self.present.finish(&mut scratch);
        }
        let start = out.pos();
        self.seconds.finish(out);
        let slen = (out.pos() - start) as u64;
        stream_infos.push(
            StreamInfo { kind: StreamKind::Data, column_id: self.column_id, length: slen },
        );
        let ghost mid2: Seq<u8> = out@;
        let start2 = out.pos();
        self.nanos.finish(out);
        let nlen = (out.pos() - start2) as u64;
        stream_infos.push(
            StreamInfo { kind: StreamKind::Secondary, column_id: self.column_id, length: nlen },
        );
        self.stripe_stats = TimestampStatistics::new();
        self.row_group_stats = TimestampStatistics::new();
        self.row_index_entries.clear();
        self.row_group_position = TimestampDataPosition {
            present: self.present.position(),
            seconds: self.seconds.position(),
            nanos: self.nanos.position(),
        };
        proof {
            self.written@ = Seq::empty();
            assert(presence(self.written@) =~= Seq::<bool>::empty());
            assert(some_vals(self.written@) =~= Seq::<(i64, u32)>::empty());
            assert(ts_seconds(some_vals(self.written@)) =~= Seq::<i64>::empty());
            assert(ts_nanos(some_vals(self.written@)) =~= Seq::<u64>::empty());
            assert(ts_millis_seq(some_vals(self.written@)) =~= Seq::<i64>::empty());
            let k = old(self).spec_kind();
            let lv = old(self).spec_level();
            let bs = old(self).spec_block_size();
            let pbits = presence(old(self).written());
            let secs = ts_seconds(some_vals(old(self).written()));
            let nns = ts_nanos(some_vals(old(self).written()));
            let s_enc = choose|s_enc: Seq<u8>|
                {
                    &&& int_rle_dec(s_enc, true) is Some
                    &&& pats_to_i64(int_rle_dec(s_enc, true).unwrap()) == secs
                    &&& stream_emits(mid0, mid2, s_enc, k, lv, bs)
                };
            assert(int_rle_dec(s_enc, true) is Some && pats_to_i64(
                int_rle_dec(s_enc, true).unwrap(),
            ) == secs && stream_emits(mid0, mid2, s_enc, k, lv, bs));
            let n_enc = choose|n_enc: Seq<u8>|
                int_rle_dec(n_enc, false) == Some(nns) && stream_emits(
                    mid2,
                    out@,
                    n_enc,
                    k,
                    lv,
                    bs,
                );
            assert(int_rle_dec(n_enc, false) == Some(nns) && stream_emits(
                mid2,
                out@,
                n_enc,
                k,
                lv,
                bs,
            ));
            let p_enc: Seq<u8> = if old(self).spec_has_null() {
                choose|p_enc: Seq<u8>|
                    bool_rle_decodes(p_enc, pbits) && stream_emits(
                        old(out)@,
                        mid0,
                        p_enc,
                        k,
                        lv,
                        bs,
                    )
            } else {
                Seq::empty()
            };
            if old(self).spec_has_null() {
                assert(bool_rle_decodes(p_enc, pbits) && stream_emits(
                    old(out)@,
                    mid0,
                    p_enc,
                    k,
                    lv,
                    bs,
                ));
            }
            assert(p_enc.len() >= 0 && s_enc.len() >= 0 && n_enc.len() >= 0);
            assert(stream_infos@ =~= (if old(self).spec_has_null() {
                old(stream_infos)@.push(
                    (StreamInfo {
                        kind: StreamKind::Present,
                        column_id: old(self).spec_column_id(),
                        length: (mid0.len() - old(out)@.len()) as u64,
                    }),
                )
            } else {
                old(stream_infos)@
            }).push(
                (StreamInfo {
                    kind: StreamKind::Data,
                    column_id: old(self).spec_column_id(),
                    length: (mid2.len() - mid0.len()) as u64,
                }),
            ).push(
                (StreamInfo {
                    kind: StreamKind::Secondary,
                    column_id: old(self).spec_column_id(),
                    length: (out@.len() - mid2.len()) as u64,
                }),
            ));
        }
        Ghost((mid0, mid2))
    }

    /// Append this column's stripe statistics.
    pub fn statistics(&self, out: &mut Vec<Statistics>)
        requires
            self.wf(),
        ensures
            final(out)@ == old(out)@.push(Statistics::Timestamp(self.spec_stripe_stats())),
            Statistics::Timestamp(self.spec_stripe_stats()).wf(),
    {
        out.push(Statistics::Timestamp(self.stripe_stats));
    }

    /// Once every row group is folded in, the stripe statistics describe
    /// exactly the values written, as milliseconds since the UNIX epoch.
    pub proof fn lemma_stats_reflect_written(&self)
        requires
            self.wf(),
            self.group_flushed(),
        ensures
            self.spec_stripe_stats().num_values == self.written().len(),
            self.spec_stripe_stats().num_present == some_vals(self.written()).len(),
            self.spec_stripe_stats().min_epoch_millis == seq_min64(
                ts_millis_seq(some_vals(self.written())),
            ),
            self.spec_stripe_stats().max_epoch_millis == seq_max64(
                ts_millis_seq(some_vals(self.written())),
            ),
    {
    }

    /// Whether this column received exactly `expected` values.
    pub fn verify_row_count(&self, expected: u64) -> (r: bool)
        requires
            self.wf(),
        ensures
            r == (self.written().len() == expected),
    {
        self.stripe_stats.num_values + self.row_group_stats.num_values == expected
    }

    /// Bytes buffered; used for stripe-size rolling.
    pub fn estimated_size(&self) -> (r: usize) {
        sat_add_usize(
            sat_add_usize(self.present.estimated_size(), self.seconds.estimated_size()),
            self.nanos.estimated_size(),
        )
    }
}

} // verus!
