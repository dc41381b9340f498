use vstd::prelude::*;
use crate::encoder::varint::{varint_enc, zigzag64, zigzag64_exec};
use crate::encoder::int_rle_v1::pat_to_i64;
use crate::statistics::{Statistics, dec_format};
use crate::compression::CompressionKind;

verus! {

/// Protocol Buffers wire primitives: every ORC metadata message is a
/// sequence of fields, each a key (field number and wire type, as a varint)
/// followed by a varint value or by length-delimited bytes.
pub open spec fn pb_key(field: nat, wire_type: nat) -> Seq<u8> {
    varint_enc(field * 8 + wire_type)
}

/// A varint-valued field.
pub open spec fn pb_varint_field(field: nat, v: nat) -> Seq<u8> {
    pb_key(field, 0) + varint_enc(v)
}

/// A zig-zag (sint64) field.
pub open spec fn pb_sint_field(field: nat, v: i64) -> Seq<u8> {
    pb_varint_field(field, zigzag64(v))
}

/// A length-delimited field: strings, bytes, nested messages, packed lists.
pub open spec fn pb_len_field(field: nat, payload: Seq<u8>) -> Seq<u8> {
    pb_key(field, 2) + varint_enc(payload.len()) + payload
}

/// The concatenated varints of a packed repeated field.
pub open spec fn varints_cat(vals: Seq<u64>) -> Seq<u8>
    decreases vals.len(),
{
    if vals.len() == 0 {
        Seq::empty()
    } else {
        varints_cat(vals.drop_last()) + varint_enc(vals.last() as nat)
    }
}

/// A packed repeated varint field.
pub open spec fn pb_packed_field(field: nat, vals: Seq<u64>) -> Seq<u8> {
    pb_len_field(field, varints_cat(vals))
}

/// Append a bare varint.
pub fn vec_varint(out: &mut Vec<u8>, x: u64)
    ensures
        final(out)@ == old(out)@ + varint_enc(x as nat),
{
    let mut v = x;
    while v >= 128
        invariant
            out@ + varint_enc(v as nat) == old(out)@ + varint_enc(x as nat),
        decreases v,
    {
        let ghost v0 = v as nat;
        let ghost c0 = out@;
        out.push((128 + (v % 128)) as u8);
        proof {
            assert(varint_enc(v0) == seq![(128 + (v0 % 128)) as u8] + varint_enc(v0 / 128));
            assert(c0.push((128 + (v % 128)) as u8) + varint_enc(v0 / 128) =~= c0 + varint_enc(
                v0,
            ));
        }
        v = v / 128;
    }
    let ghost c0 = out@;
    out.push(v as u8);
    proof {
        assert(varint_enc(v as nat) =~= seq![v as u8]);
        assert(c0.push(v as u8) =~= c0 + varint_enc(v as nat));
        assert(out@ =~= old(out)@ + varint_enc(x as nat));
    }
}

/// Append a field key.
pub fn pb_write_key(out: &mut Vec<u8>, field: u32, wire_type: u64)
    requires
        wire_type < 8,
    ensures
        final(out)@ == old(out)@ + pb_key(field as nat, wire_type as nat),
{
    vec_varint(out, (field as u64) * 8 + wire_type);
}

/// Append a varint-valued field.
pub fn pb_write_varint(out: &mut Vec<u8>, field: u32, v: u64)
    ensures
        final(out)@ == old(out)@ + pb_varint_field(field as nat, v as nat),
{
    pb_write_key(out, field, 0);
    vec_varint(out, v);
    proof {
        assert(out@ =~= old(out)@ + pb_varint_field(field as nat, v as nat));
    }
}

/// Append a zig-zag (sint64) field.
pub fn pb_write_sint(out: &mut Vec<u8>, field: u32, v: i64)
    ensures
        final(out)@ == old(out)@ + pb_sint_field(field as nat, v),
{
    pb_write_key(out, field, 0);
    let z = zigzag64_exec(v);
    vec_varint(out, z);
    proof {
        assert(out@ =~= old(out)@ + pb_sint_field(field as nat, v));
    }
}

/// Append a length-delimited field.
pub fn pb_write_bytes(out: &mut Vec<u8>, field: u32, payload: &[u8])
    ensures
        final(out)@ == old(out)@ + pb_len_field(field as nat, payload@),
{
    pb_write_key(out, field, 2);
    vec_varint(out, payload.len() as u64);
    let mut i: usize = 0;
    while i < payload.len()
        invariant
            i <= payload@.len(),
            out@ == old(out)@ + pb_key(field as nat, 2) + varint_enc(payload@.len())
                + payload@.take(i as int),
        decreases payload@.len() - i,
    {
        out.push(payload[i]);
        i += 1;
        proof {
            assert(payload@.take(i as int) =~= payload@.take(i - 1).push(payload@[i - 1]));
            assert(out@ =~= old(out)@ + pb_key(field as nat, 2) + varint_enc(payload@.len())
                + payload@.take(i as int));
        }
    }
    proof {
        assert(payload@.take(payload@.len() as int) =~= payload@);
        assert(out@ =~= old(out)@ + pb_len_field(field as nat, payload@));
    }
}

/// Append a packed repeated varint field.
pub fn pb_write_packed(out: &mut Vec<u8>, field: u32, vals: &Vec<u64>)
    ensures
        final(out)@ == old(out)@ + pb_packed_field(field as nat, vals@),
{
    let mut payload: Vec<u8> = Vec::new();
    let mut i: usize = 0;
    while i < vals.len()
        invariant
            i <= vals@.len(),
            payload@ == varints_cat(vals@.take(i as int)),
        decreases vals@.len() - i,
    {
        vec_varint(&mut payload, vals[i]);
        i += 1;
        proof {
            assert(vals@.take(i as int).drop_last() =~= vals@.take(i - 1));
            assert(vals@.take(i as int).last() == vals@[i - 1]);
            assert(payload@ =~= varints_cat(vals@.take(i as int)));
        }
    }
    proof {
        assert(vals@.take(vals@.len() as int) =~= vals@);
    }
    pb_write_bytes_vec(out, field, &payload);
}

/// Append a length-delimited field from a vector.
pub fn pb_write_bytes_vec(out: &mut Vec<u8>, field: u32, payload: &Vec<u8>)
    ensures
        final(out)@ == old(out)@ + pb_len_field(field as nat, payload@),
{
    pb_write_bytes(out, field, payload.as_slice());
}

/// An optional zig-zag field: absent values write nothing.
pub open spec fn enc_opt_sint(field: nat, v: Option<i64>) -> Seq<u8> {
    match v {
        Some(x) => pb_sint_field(field, x),
        None => Seq::empty(),
    }
}

/// An optional string field: absent values write nothing.
pub open spec fn enc_opt_bytes(field: nat, v: Option<Seq<u8>>) -> Seq<u8> {
    match v {
        Some(x) => pb_len_field(field, x),
        None => Seq::empty(),
    }
}

/// The signed 64-bit value a pattern stands for (the `x as i64` cast).
pub fn u64_to_i64_wrap(v: u64) -> (r: i64)
    ensures
        r == pat_to_i64(v),
{
    if v < 0x8000_0000_0000_0000 {
        v as i64
    } else {
        -((u64::MAX - v) as i64) - 1
    }
}

fn pb_write_opt_sint(out: &mut Vec<u8>, field: u32, v: &Option<i64>)
    ensures
        final(out)@ == old(out)@ + enc_opt_sint(field as nat, *v),
{
    match v {
        Some(x) => pb_write_sint(out, field, *x),
        None => (),
    }
}

/// The `ColumnStatistics` message payload for one statistics value: the
/// non-null count, the per-flavor submessage, and the has-null flag.
pub open spec fn enc_column_statistics(stat: Statistics) -> Seq<u8> {
    pb_varint_field(1, stat.spec_num_present() as nat) + (match stat {
        Statistics::Long(s) => pb_len_field(
            2,
            enc_opt_sint(1, s.min) + enc_opt_sint(2, s.max) + enc_opt_sint(3, s.sum),
        ),
        Statistics::String(s) => pb_len_field(
            4,
            enc_opt_bytes(1, s.spec_min()) + enc_opt_bytes(2, s.spec_max()) + pb_sint_field(
                3,
                pat_to_i64(s.sum_lengths),
            ),
        ),
        Statistics::Boolean(s) => pb_len_field(
            5,
            pb_packed_field(1, seq![s.num_true, s.num_false]),
        ),
        Statistics::Decimal(s) => pb_len_field(
            6,
            (match s.min {
                Some(x) => pb_len_field(1, dec_format(s.scale as nat, x as int)),
                None => Seq::empty(),
            }) + (match s.max {
                Some(x) => pb_len_field(2, dec_format(s.scale as nat, x as int)),
                None => Seq::empty(),
            }) + (match s.sum {
                Some(x) => pb_len_field(3, dec_format(s.scale as nat, x as int)),
                None => Seq::empty(),
            }),
        ),
        Statistics::Binary(s) => pb_len_field(8, pb_sint_field(1, pat_to_i64(s.sum_lengths))),
        Statistics::Timestamp(s) => pb_len_field(
            9,
            enc_opt_sint(1, s.min_epoch_millis) + enc_opt_sint(2, s.max_epoch_millis),
        ),
        Statistics::Generic(_) => Seq::empty(),
    }) + pb_varint_field(
        10,
        if stat.spec_has_null() {
            1
        } else {
            0
        },
    )
}

/// Append the `ColumnStatistics` payload for `stat`.
pub fn encode_statistics(stat: &Statistics, out: &mut Vec<u8>)
    requires
        stat.wf(),
    ensures
        final(out)@ == old(out)@ + enc_column_statistics(*stat),
{
    let np = stat.num_present();
    pb_write_varint(out, 1, np);
    match stat {
        Statistics::Long(s) => {
            let mut sub: Vec<u8> = Vec::new();
            pb_write_opt_sint(&mut sub, 1, &s.min);
            pb_write_opt_sint(&mut sub, 2, &s.max);
            pb_write_opt_sint(&mut sub, 3, &s.sum);
            pb_write_bytes_vec(out, 2, &sub);
        },
        Statistics::String(s) => {
            let mut sub: Vec<u8> = Vec::new();
            match &s.min {
                Some(x) => pb_write_bytes_vec(&mut sub, 1, x),
                None => (),
            }
            match &s.max {
                Some(x) => pb_write_bytes_vec(&mut sub, 2, x),
                None => (),
            }
            pb_write_sint(&mut sub, 3, u64_to_i64_wrap(s.sum_lengths));
            pb_write_bytes_vec(out, 4, &sub);
        },
        Statistics::Boolean(s) => {
            let mut sub: Vec<u8> = Vec::new();
            let mut counts: Vec<u64> = Vec::new();
            counts.push(s.num_true);
            counts.push(s.num_false);
            proof {
                assert(counts@ =~= seq![s.num_true, s.num_false]);
            }
            pb_write_packed(&mut sub, 1, &counts);
            pb_write_bytes_vec(out, 5, &sub);
        },
        Statistics::Decimal(s) => {
            let mut sub: Vec<u8> = Vec::new();
            match s.min {
                Some(x) => {
                    let fx = s.format(x);
                    pb_write_bytes_vec(&mut sub, 1, &fx);
                },
                None => (),
            }
            match s.max {
                Some(x) => {
                    let fx = s.format(x);
                    pb_write_bytes_vec(&mut sub, 2, &fx);
                },
                None => (),
            }
            match s.sum {
                Some(x) => {
                    let fx = s.format(x);
                    pb_write_bytes_vec(&mut sub, 3, &fx);
                },
                None => (),
            }
            pb_write_bytes_vec(out, 6, &sub);
        },
        Statistics::Binary(s) => {
            let mut sub: Vec<u8> = Vec::new();
            pb_write_sint(&mut sub, 1, u64_to_i64_wrap(s.sum_lengths));
            pb_write_bytes_vec(out, 8, &sub);
        },
        Statistics::Timestamp(s) => {
            let mut sub: Vec<u8> = Vec::new();
            pb_write_opt_sint(&mut sub, 1, &s.min_epoch_millis);
            pb_write_opt_sint(&mut sub, 2, &s.max_epoch_millis);
            pb_write_bytes_vec(out, 9, &sub);
        },
        Statistics::Generic(_) => (),
    }
    let hn = stat.has_null();
    pb_write_varint(
        out,
        10,
        if hn {
            1
        } else {
            0
        },
    );
    proof {
        assert(out@ =~= old(out)@ + enc_column_statistics(*stat));
    }
}

/// The `PostScript` message: footer and metadata lengths, the codec and its
/// block size, the format version `[0, 12]`, the writer version, and the
/// trailing magic.
pub open spec fn enc_postscript(
    footer_length: nat,
    kind: CompressionKind,
    block_size: nat,
    metadata_length: nat,
) -> Seq<u8> {
    pb_varint_field(1, footer_length) + pb_varint_field(2, kind.spec_code() as nat)
        + pb_varint_field(3, block_size) + pb_packed_field(4, seq![0u64, 12u64]) + pb_varint_field(
        5,
        metadata_length,
    ) + pb_varint_field(6, 6) + pb_len_field(8000, seq![79u8, 82u8, 67u8])
}

/// Append the `PostScript` message.
pub fn encode_postscript(
    footer_length: u64,
    kind: CompressionKind,
    block_size: u64,
    metadata_length: u64,
    out: &mut Vec<u8>,
)
    ensures
        final(out)@ == old(out)@ + enc_postscript(
            footer_length as nat,
            kind,
            block_size as nat,
            metadata_length as nat,
        ),
{
    pb_write_varint(out, 1, footer_length);
    pb_write_varint(out, 2, kind.code());
    pb_write_varint(out, 3, block_size);
    let mut version: Vec<u64> = Vec::new();
    version.push(0);
    version.push(12);
    proof {
        assert(version@ =~= seq![0u64, 12u64]);
    }
    pb_write_packed(out, 4, &version);
    pb_write_varint(out, 5, metadata_length);
    pb_write_varint(out, 6, 6);
    let mut magic: Vec<u8> = Vec::new();
    magic.push(79);
    magic.push(82);
    magic.push(67);
    proof {
        assert(magic@ =~= seq![79u8, 82u8, 67u8]);
    }
    pb_write_bytes_vec(out, 8000, &magic);
    proof {
        assert(out@ =~= old(out)@ + enc_postscript(
            footer_length as nat,
            kind,
            block_size as nat,
            metadata_length as nat,
        ));
    }
}

/// One `StripeInformation` entry of the file footer.
pub open spec fn enc_stripe_information(
    offset: nat,
    index_length: nat,
    data_length: nat,
    footer_length: nat,
    number_of_rows: nat,
) -> Seq<u8> {
    pb_len_field(
        3,
        pb_varint_field(1, offset) + pb_varint_field(2, index_length) + pb_varint_field(
            3,
            data_length,
        ) + pb_varint_field(4, footer_length) + pb_varint_field(5, number_of_rows),
    )
}

/// Append one `StripeInformation` entry (field 3 of the footer).
pub fn encode_stripe_information(
    offset: u64,
    index_length: u64,
    data_length: u64,
    footer_length: u64,
    number_of_rows: u64,
    out: &mut Vec<u8>,
)
    ensures
        final(out)@ == old(out)@ + enc_stripe_information(
            offset as nat,
            index_length as nat,
            data_length as nat,
            footer_length as nat,
            number_of_rows as nat,
        ),
{
    let mut sub: Vec<u8> = Vec::new();
    pb_write_varint(&mut sub, 1, offset);
    pb_write_varint(&mut sub, 2, index_length);
    pb_write_varint(&mut sub, 3, data_length);
    pb_write_varint(&mut sub, 4, footer_length);
    pb_write_varint(&mut sub, 5, number_of_rows);
    pb_write_bytes_vec(out, 3, &sub);
    proof {
        assert(out@ =~= old(out)@ + enc_stripe_information(
            offset as nat,
            index_length as nat,
            data_length as nat,
            footer_length as nat,
            number_of_rows as nat,
        ));
    }
}

/// One `Stream` entry of a stripe footer: kind, column and byte length.
pub open spec fn enc_stream(kind: nat, column: nat, length: nat) -> Seq<u8> {
    pb_len_field(
        1,
        pb_varint_field(1, kind) + pb_varint_field(2, column) + pb_varint_field(3, length),
    )
}

/// Append one `Stream` entry (field 1 of the stripe footer).
pub fn encode_stream(kind: u64, column: u32, length: u64, out: &mut Vec<u8>)
    ensures
        final(out)@ == old(out)@ + enc_stream(kind as nat, column as nat, length as nat),
{
    let mut sub: Vec<u8> = Vec::new();
    pb_write_varint(&mut sub, 1, kind);
    pb_write_varint(&mut sub, 2, column as u64);
    pb_write_varint(&mut sub, 3, length);
    pb_write_bytes_vec(out, 1, &sub);
    proof {
        assert(out@ =~= old(out)@ + enc_stream(kind as nat, column as nat, length as nat));
    }
}

/// One `ColumnEncoding` entry: every column of this writer is DIRECT.
pub open spec fn enc_column_encoding() -> Seq<u8> {
    pb_len_field(2, pb_varint_field(1, 0))
}

/// Append one `ColumnEncoding` entry (field 2 of the stripe footer).
pub fn encode_column_encoding(out: &mut Vec<u8>)
    ensures
        final(out)@ == old(out)@ + enc_column_encoding(),
{
    let mut sub: Vec<u8> = Vec::new();
    pb_write_varint(&mut sub, 1, 0);
    pb_write_bytes_vec(out, 2, &sub);
    proof {
        assert(out@ =~= old(out)@ + enc_column_encoding());
    }
}

/// One `RowIndexEntry`: the recorded positions and the row group's
/// statistics, wrapped as field 1 of `RowIndex`.
pub open spec fn enc_row_index_entry(positions: Seq<u64>, stat: Statistics) -> Seq<u8> {
    pb_len_field(1, pb_packed_field(1, positions) + pb_len_field(2, enc_column_statistics(stat)))
}

/// Append one `RowIndexEntry` (field 1 of `RowIndex`).
pub fn encode_row_index_entry(positions: &Vec<u64>, stat: &Statistics, out: &mut Vec<u8>)
    requires
        stat.wf(),
    ensures
        final(out)@ == old(out)@ + enc_row_index_entry(positions@, *stat),
{
    let mut sub: Vec<u8> = Vec::new();
    pb_write_packed(&mut sub, 1, positions);
    let mut stat_payload: Vec<u8> = Vec::new();
    encode_statistics(stat, &mut stat_payload);
    pb_write_bytes_vec(&mut sub, 2, &stat_payload);
    pb_write_bytes_vec(out, 1, &sub);
    proof {
        assert(out@ =~= old(out)@ + enc_row_index_entry(positions@, *stat));
    }
}

} // verus!
