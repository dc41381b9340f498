use orc_format::schema::{Field, Schema};
use orc_format::writer::{Config, Writer};
use orc_format::compression::NoCompression;

// Minimal Protocol Buffers reading, independent of the library, to check
// the emitted metadata.
fn rd_varint(b: &[u8], pos: &mut usize) -> u64 {
    let mut v: u64 = 0;
    let mut shift = 0;
    loop {
        let byte = b[*pos];
        *pos += 1;
        v |= ((byte & 0x7f) as u64) << shift;
        if byte < 128 {
            return v;
        }
        shift += 7;
    }
}

// One decoded field: number, varint value (wire type 0) or payload (type 2).
struct PbField {
    num: u64,
    varint: u64,
    bytes: Vec<u8>,
}

fn pb_fields(msg: &[u8]) -> Vec<PbField> {
    let mut out = Vec::new();
    let mut pos = 0usize;
    while pos < msg.len() {
        let key = rd_varint(msg, &mut pos);
        let num = key >> 3;
        match key & 7 {
            0 => {
                let v = rd_varint(msg, &mut pos);
                out.push(PbField { num, varint: v, bytes: Vec::new() });
            }
            2 => {
                let len = rd_varint(msg, &mut pos) as usize;
                let bytes = msg[pos..pos + len].to_vec();
                pos += len;
                out.push(PbField { num, varint: 0, bytes });
            }
            other => panic!("unexpected wire type {}", other),
        }
    }
    out
}

fn first_varint(fields: &[PbField], num: u64) -> Option<u64> {
    for f in fields {
        if f.num == num && f.bytes.is_empty() {
            return Some(f.varint);
        }
    }
    None
}

fn sub_messages(fields: &[PbField], num: u64) -> Vec<Vec<u8>> {
    let mut out = Vec::new();
    for f in fields {
        if f.num == num && !f.bytes.is_empty() {
            out.push(f.bytes.clone());
        }
    }
    out
}

fn un_zigzag(v: u64) -> i64 {
    if v % 2 == 0 { (v / 2) as i64 } else { -(((v / 2) + 1) as i64) }
}

// Split an uncompressed file into its regions via the PostScript.
struct ParsedFile {
    footer: Vec<PbField>,
    metadata_len: usize,
    ps: Vec<PbField>,
}

fn parse_file(bytes: &[u8]) -> ParsedFile {
    let n = bytes.len();
    assert_eq!(&bytes[0..3], b"ORC");
    let ps_len = bytes[n - 1] as usize;
    let ps_bytes = &bytes[n - 1 - ps_len..n - 1];
    let ps = pb_fields(ps_bytes);
    let footer_len = first_varint(&ps, 1).unwrap() as usize;
    let metadata_len = first_varint(&ps, 5).unwrap() as usize;
    assert_eq!(first_varint(&ps, 2).unwrap(), 0, "uncompressed files expected here");
    let magic = sub_messages(&ps, 8000);
    assert_eq!(magic[0], b"ORC");
    let footer_start = n - 1 - ps_len - footer_len;
    let footer = pb_fields(&bytes[footer_start..footer_start + footer_len]);
    ParsedFile { footer, metadata_len, ps }
}

fn plain_config() -> Config {
    Config::new().with_compression(NoCompression::new().build())
}

#[test]
fn minimal_file() {
    let schema = Schema::Struct(vec![Field("x".to_string(), Schema::Long)]);
    let mut w = Writer::new(schema, plain_config());
    {
        let root = w.data().unwrap_struct();
        for i in 0..10i64 {
            root.write();
            root.child(0).unwrap_long().write(i);
        }
    }
    w.write_batch(10).unwrap();
    let bytes = w.finish();
    let f = parse_file(&bytes);
    // one stripe of ten rows, ten rows in the footer
    let stripes = sub_messages(&f.footer, 3);
    assert_eq!(stripes.len(), 1);
    let s0 = pb_fields(&stripes[0]);
    assert_eq!(first_varint(&s0, 5).unwrap(), 10);
    assert_eq!(first_varint(&f.footer, 6).unwrap(), 10);
    assert_eq!(first_varint(&f.footer, 1).unwrap(), 3);
    // integer statistics of column x: min 0, max 9, sum 45
    let stats = sub_messages(&f.footer, 7);
    assert_eq!(stats.len(), 2);
    let col_x = pb_fields(&stats[1]);
    assert_eq!(first_varint(&col_x, 1).unwrap(), 10);
    let int_stats = pb_fields(&sub_messages(&col_x, 2)[0]);
    assert_eq!(un_zigzag(first_varint(&int_stats, 1).unwrap()), 0);
    assert_eq!(un_zigzag(first_varint(&int_stats, 2).unwrap()), 9);
    assert_eq!(un_zigzag(first_varint(&int_stats, 3).unwrap()), 45);
    // region accounting: header + content + metadata + footer + ps + 1 = len
    let ps_len = bytes[bytes.len() - 1] as usize;
    let footer_len = first_varint(&f.ps, 1).unwrap() as usize;
    let content_len = first_varint(&f.footer, 2).unwrap() as usize;
    assert_eq!(3 + content_len + f.metadata_len + footer_len + ps_len + 1, bytes.len());
}

#[test]
fn nulls_and_present_elision() {
    let schema = Schema::Struct(vec![
        Field("a".to_string(), Schema::Long),
        Field("b".to_string(), Schema::Long),
    ]);
    let mut w = Writer::new(schema, plain_config());
    {
        let root = w.data().unwrap_struct();
        for i in 0..4i64 {
            root.write();
            let a = root.child(0).unwrap_long();
            if i == 0 {
                a.write_null();
            } else {
                a.write(i);
            }
            root.child(1).unwrap_long().write(i + 1);
        }
    }
    w.write_batch(4).unwrap();
    let bytes = w.finish();
    let f = parse_file(&bytes);
    // find the stripe footer and check: column 1 has PRESENT, column 2 not
    let stripes = sub_messages(&f.footer, 3);
    let s0 = pb_fields(&stripes[0]);
    let offset = first_varint(&s0, 1).unwrap() as usize;
    let il = first_varint(&s0, 2).unwrap() as usize;
    let dl = first_varint(&s0, 3).unwrap() as usize;
    let fl = first_varint(&s0, 4).unwrap() as usize;
    let sf = pb_fields(&bytes[offset + il + dl..offset + il + dl + fl]);
    let streams = sub_messages(&sf, 1);
    let mut has_present_1 = false;
    let mut has_present_2 = false;
    for st in &streams {
        let fs = pb_fields(st);
        let kind = first_varint(&fs, 1).unwrap_or(0);
        let col = first_varint(&fs, 2).unwrap_or(0);
        if kind == 0 && col == 1 {
            has_present_1 = true;
        }
        if kind == 0 && col == 2 {
            has_present_2 = true;
        }
    }
    assert!(has_present_1);
    assert!(!has_present_2);
    // the struct column reports no nulls, column a reports one
    let stats = sub_messages(&f.footer, 7);
    let col_a = pb_fields(&stats[1]);
    assert_eq!(first_varint(&col_a, 10).unwrap(), 1);
    assert_eq!(first_varint(&col_a, 1).unwrap(), 3);
}

#[test]
fn nested_list_reconciles() {
    let schema = Schema::Struct(vec![Field(
        "xs".to_string(),
        Schema::List(Box::new(Schema::Long)),
    )]);
    let mut w = Writer::new(schema, plain_config());
    {
        let root = w.data().unwrap_struct();
        root.write();
        {
            let xs = root.child(0).unwrap_list();
            xs.write(3);
            let elems = xs.child().unwrap_long();
            elems.write(10);
            elems.write(20);
            elems.write(30);
        }
        root.write();
        root.child(0).unwrap_list().write(0);
    }
    assert!(w.write_batch(2).is_ok());
    let bytes = w.finish();
    let f = parse_file(&bytes);
    assert_eq!(first_varint(&f.footer, 6).unwrap(), 2);
    // the list column's LENGTH stream holds [3, 0] and the element
    // column's DATA stream the three values as a delta run
    let stripes0 = sub_messages(&f.footer, 3);
    let si = pb_fields(&stripes0[0]);
    let offset = first_varint(&si, 1).unwrap() as usize;
    let il = first_varint(&si, 2).unwrap() as usize;
    let dl = first_varint(&si, 3).unwrap() as usize;
    let fl = first_varint(&si, 4).unwrap() as usize;
    let sf = pb_fields(&bytes[offset + il + dl..offset + il + dl + fl]);
    let mut idx_pos = offset;
    let mut data_pos = offset + il;
    for st in sub_messages(&sf, 1) {
        let fs = pb_fields(&st);
        let kind = first_varint(&fs, 1).unwrap_or(0);
        let col = first_varint(&fs, 2).unwrap_or(0);
        let len = first_varint(&fs, 3).unwrap() as usize;
        if kind == 6 {
            idx_pos += len;
        } else {
            if col == 1 && kind == 2 {
                assert_eq!(&bytes[data_pos..data_pos + len], &[254, 3, 0]);
            }
            if col == 2 && kind == 1 {
                assert_eq!(&bytes[data_pos..data_pos + len], &[0, 10, 20]);
            }
            data_pos += len;
        }
    }
    // types: struct, list, long in pre-order
    let types = sub_messages(&f.footer, 4);
    assert_eq!(types.len(), 3);
    assert_eq!(first_varint(&pb_fields(&types[0]), 1).unwrap(), 12);
    assert_eq!(first_varint(&pb_fields(&types[1]), 1).unwrap(), 10);
    assert_eq!(first_varint(&pb_fields(&types[2]), 1).unwrap(), 4);
}

#[test]
fn map_of_string_to_boolean() {
    let schema = Schema::Struct(vec![Field(
        "m".to_string(),
        Schema::Dict(Box::new(Schema::String), Box::new(Schema::Boolean)),
    )]);
    let mut w = Writer::new(schema, plain_config());
    {
        let root = w.data().unwrap_struct();
        root.write();
        let m = root.child(0).unwrap_map();
        m.write(2);
        m.keys().unwrap_string().write("a");
        m.keys().unwrap_string().write("b");
        m.values().unwrap_boolean().write(Some(true));
        m.values().unwrap_boolean().write(Some(false));
    }
    assert!(w.write_batch(1).is_ok());
    let bytes = w.finish();
    let f = parse_file(&bytes);
    // stripe streams: the keys column's DATA stream holds "ab" and its
    // LENGTH stream the two unit lengths
    let stripes = sub_messages(&f.footer, 3);
    let s0 = pb_fields(&stripes[0]);
    let offset = first_varint(&s0, 1).unwrap() as usize;
    let il = first_varint(&s0, 2).unwrap() as usize;
    let dl = first_varint(&s0, 3).unwrap() as usize;
    let fl = first_varint(&s0, 4).unwrap() as usize;
    let sf = pb_fields(&bytes[offset + il + dl..offset + il + dl + fl]);
    let mut idx_pos = offset;
    let mut data_pos = offset + il;
    let mut keys_data: Option<Vec<u8>> = None;
    let mut keys_lengths: Option<Vec<u8>> = None;
    let mut map_lengths: Option<Vec<u8>> = None;
    for st in sub_messages(&sf, 1) {
        let fs = pb_fields(&st);
        let kind = first_varint(&fs, 1).unwrap_or(0);
        let col = first_varint(&fs, 2).unwrap_or(0);
        let len = first_varint(&fs, 3).unwrap() as usize;
        let body;
        if kind == 6 {
            body = bytes[idx_pos..idx_pos + len].to_vec();
            idx_pos += len;
        } else {
            body = bytes[data_pos..data_pos + len].to_vec();
            data_pos += len;
        }
        if col == 2 && kind == 1 {
            keys_data = Some(body.clone());
        }
        if col == 2 && kind == 2 {
            keys_lengths = Some(body.clone());
        }
        if col == 1 && kind == 2 {
            map_lengths = Some(body.clone());
        }
    }
    assert_eq!(keys_data.unwrap(), b"ab");
    assert_eq!(keys_lengths.unwrap(), vec![254, 1, 1]);
    assert_eq!(map_lengths.unwrap(), vec![255, 2]);
}

#[test]
fn decimal_statistics_strings() {
    let schema = Schema::Struct(vec![Field("d".to_string(), Schema::Decimal(15, 2))]);
    let mut w = Writer::new(schema, plain_config());
    {
        let root = w.data().unwrap_struct();
        root.write();
        root.child(0).unwrap_decimal().write_i64(1234);
        root.write();
        root.child(0).unwrap_decimal().write_i64(-50);
    }
    w.write_batch(2).unwrap();
    let bytes = w.finish();
    let f = parse_file(&bytes);
    let stats = sub_messages(&f.footer, 7);
    let col_d = pb_fields(&stats[1]);
    let dec = pb_fields(&sub_messages(&col_d, 6)[0]);
    assert_eq!(sub_messages(&dec, 1)[0], b"-0.50");
    assert_eq!(sub_messages(&dec, 2)[0], b"12.34");
    assert_eq!(sub_messages(&dec, 3)[0], b"11.84");
}

#[test]
fn stripe_rolling() {
    let schema = Schema::Struct(vec![Field("x".to_string(), Schema::Long)]);
    let config = plain_config().with_stripe_size(4096).with_row_index_stride(100);
    let mut w = Writer::new(schema, config);
    for batch in 0..10 {
        {
            let root = w.data().unwrap_struct();
            for i in 0..1000i64 {
                root.write();
                // spread the values so runs cannot form and bytes pile up
                root.child(0).unwrap_long().write((batch * 1000 + i) * 1_000_003);
            }
        }
        w.write_batch(1000).unwrap();
    }
    let bytes = w.finish();
    let f = parse_file(&bytes);
    let stripes = sub_messages(&f.footer, 3);
    assert!(stripes.len() >= 2);
    let mut total = 0u64;
    for s in &stripes {
        total += first_varint(&pb_fields(s), 5).unwrap();
    }
    assert_eq!(total, 10000);
    assert_eq!(first_varint(&f.footer, 6).unwrap(), 10000);
    assert_eq!(first_varint(&f.footer, 8).unwrap(), 100);
}

#[test]
fn row_count_mismatch_is_reported() {
    let schema = Schema::Struct(vec![Field("x".to_string(), Schema::Long)]);
    let mut w = Writer::new(schema, plain_config());
    {
        let root = w.data().unwrap_struct();
        root.write();
        root.child(0).unwrap_long().write(1);
        root.write();
        root.child(0).unwrap_long().write(2);
    }
    let r = w.write_batch(3);
    assert!(matches!(r, Err(orc_format::writer::OrcError::RowCountMismatch)));
    // the matching count is then accepted
    assert!(w.write_batch(2).is_ok());
}

#[test]
fn union_tags_stream() {
    let schema = Schema::Struct(vec![Field(
        "u".to_string(),
        Schema::Union(vec![Schema::Long, Schema::String]),
    )]);
    let mut w = Writer::new(schema, plain_config());
    {
        let root = w.data().unwrap_struct();
        for i in 0..4i64 {
            root.write();
            let u = root.child(0).unwrap_union();
            if i % 2 == 0 {
                u.write(0);
                u.child(0).unwrap_long().write(i);
            } else {
                u.write(1);
                u.child(1).unwrap_string().write("s");
            }
        }
    }
    assert!(w.write_batch(4).is_ok());
    let bytes = w.finish();
    let f = parse_file(&bytes);
    // the union column's DATA stream holds the byte-RLE encoded tags
    let stripes = sub_messages(&f.footer, 3);
    let s0 = pb_fields(&stripes[0]);
    let offset = first_varint(&s0, 1).unwrap() as usize;
    let il = first_varint(&s0, 2).unwrap() as usize;
    let dl = first_varint(&s0, 3).unwrap() as usize;
    let fl = first_varint(&s0, 4).unwrap() as usize;
    let sf = pb_fields(&bytes[offset + il + dl..offset + il + dl + fl]);
    let mut idx_pos = offset;
    let mut data_pos = offset + il;
    let mut tags: Option<Vec<u8>> = None;
    for st in sub_messages(&sf, 1) {
        let fs = pb_fields(&st);
        let kind = first_varint(&fs, 1).unwrap_or(0);
        let col = first_varint(&fs, 2).unwrap_or(0);
        let len = first_varint(&fs, 3).unwrap() as usize;
        if kind == 6 {
            idx_pos += len;
        } else {
            if col == 1 && kind == 1 {
                tags = Some(bytes[data_pos..data_pos + len].to_vec());
            }
            data_pos += len;
        }
    }
    // literal group of the four alternating tags
    assert_eq!(tags.unwrap(), vec![252, 0, 1, 0, 1]);
    // types: struct, union (with two subtypes), long, string
    let types = sub_messages(&f.footer, 4);
    assert_eq!(types.len(), 4);
    assert_eq!(first_varint(&pb_fields(&types[1]), 1).unwrap(), 13);
}

#[test]
fn disabled_row_index_omits_streams() {
    let schema = Schema::Struct(vec![Field("x".to_string(), Schema::Long)]);
    let config = plain_config().with_row_index_stride(0);
    let mut w = Writer::new(schema, config);
    {
        let root = w.data().unwrap_struct();
        for i in 0..5i64 {
            root.write();
            root.child(0).unwrap_long().write(i);
        }
    }
    w.write_batch(5).unwrap();
    let bytes = w.finish();
    let f = parse_file(&bytes);
    let stripes = sub_messages(&f.footer, 3);
    let s0 = pb_fields(&stripes[0]);
    assert_eq!(first_varint(&s0, 2).unwrap(), 0, "no index bytes expected");
    let offset = first_varint(&s0, 1).unwrap() as usize;
    let dl = first_varint(&s0, 3).unwrap() as usize;
    let fl = first_varint(&s0, 4).unwrap() as usize;
    let sf = pb_fields(&bytes[offset + dl..offset + dl + fl]);
    for st in sub_messages(&sf, 1) {
        let fs = pb_fields(&st);
        assert_ne!(first_varint(&fs, 1).unwrap_or(0), 6);
    }
    assert_eq!(first_varint(&f.footer, 8).unwrap(), 0);
}

#[test]
fn timestamp_and_boolean_statistics() {
    let schema = Schema::Struct(vec![
        Field("t".to_string(), Schema::Timestamp),
        Field("b".to_string(), Schema::Boolean),
    ]);
    let mut w = Writer::new(schema, plain_config());
    {
        let root = w.data().unwrap_struct();
        for i in 0..3i64 {
            root.write();
            root.child(0).unwrap_timestamp().write_nanos(100 + i, 123_450_000);
            root.child(1).unwrap_boolean().write(Some(i == 0));
        }
    }
    w.write_batch(3).unwrap();
    let bytes = w.finish();
    let f = parse_file(&bytes);
    let stats = sub_messages(&f.footer, 7);
    let ts = pb_fields(&stats[1]);
    let ts_sub = pb_fields(&sub_messages(&ts, 9)[0]);
    assert_eq!(
        un_zigzag(first_varint(&ts_sub, 1).unwrap()),
        (100 + 1_420_070_400) * 1000 + 123
    );
    assert_eq!(
        un_zigzag(first_varint(&ts_sub, 2).unwrap()),
        (102 + 1_420_070_400) * 1000 + 123
    );
    let bo = pb_fields(&stats[2]);
    let bucket = pb_fields(&sub_messages(&bo, 5)[0]);
    // packed counts: one true, two false
    assert_eq!(bucket[0].bytes, vec![1, 2]);
}
