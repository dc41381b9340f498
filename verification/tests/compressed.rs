use orc_format::compression::{CompressionStream, SnappyCompression, ZstdCompression, NoCompression};
use orc_format::count_write::CountWrite;
use orc_format::schema::{Field, Schema};
use orc_format::writer::{Config, Writer};

fn block_header(bytes: &[u8]) -> (usize, bool) {
    let h = bytes[0] as usize | (bytes[1] as usize) << 8 | (bytes[2] as usize) << 16;
    (h >> 1, h & 1 == 1)
}

#[test]
fn snappy_blocks_shrink_and_round_trip() {
    let comp = SnappyCompression::new().with_block_size(1024).build();
    let mut cs = CompressionStream::new(&comp);
    let chunk = vec![42u8; 1024];
    cs.write_bytes(&chunk);
    let mut out = CountWrite::new();
    cs.finish(&mut out);
    let bytes = out.into_inner();
    let (len, original) = block_header(&bytes);
    assert!(!original);
    assert!(len < 1024);
    assert_eq!(bytes.len(), 3 + len);
    let decoded = snap::raw::Decoder::new().decompress_vec(&bytes[3..3 + len]).unwrap();
    assert_eq!(decoded, chunk);
}

#[test]
fn zstd_blocks_shrink_and_round_trip() {
    let comp = ZstdCompression::new().with_block_size(1024).with_compression_level(3).build();
    let mut cs = CompressionStream::new(&comp);
    let chunk = vec![7u8; 1024];
    cs.write_bytes(&chunk);
    let mut out = CountWrite::new();
    cs.finish(&mut out);
    let bytes = out.into_inner();
    let (len, original) = block_header(&bytes);
    assert!(!original);
    assert!(len < 1024);
    let decoded = zstd::bulk::decompress(&bytes[3..3 + len], 4096).unwrap();
    assert_eq!(decoded, chunk);
}

#[test]
fn incompressible_block_stays_original() {
    // a pseudo-random block that snappy cannot shrink is kept as-is
    let comp = SnappyCompression::new().with_block_size(256).build();
    let mut cs = CompressionStream::new(&comp);
    let mut chunk = Vec::new();
    let mut x: u64 = 0x12345678;
    for _ in 0..256 {
        x = x.wrapping_mul(6364136223846793005).wrapping_add(1442695040888963407);
        chunk.push((x >> 33) as u8);
    }
    cs.write_bytes(&chunk);
    let mut out = CountWrite::new();
    cs.finish(&mut out);
    let bytes = out.into_inner();
    let (len, original) = block_header(&bytes);
    assert!(original);
    assert_eq!(len, 256);
    assert_eq!(&bytes[3..], &chunk[..]);
}

#[test]
fn snappy_file_carries_codec_tag() {
    let schema = Schema::Struct(vec![Field("x".to_string(), Schema::Long)]);
    let config = Config::new().with_compression(SnappyCompression::new().build());
    let mut w = Writer::new(schema, config);
    {
        let root = w.data().unwrap_struct();
        for i in 0..100i64 {
            root.write();
            root.child(0).unwrap_long().write(i);
        }
    }
    w.write_batch(100).unwrap();
    let bytes = w.finish();
    assert_eq!(&bytes[0..3], b"ORC");
    // walk the postscript for the compression tag
    let n = bytes.len();
    let ps_len = bytes[n - 1] as usize;
    let ps = &bytes[n - 1 - ps_len..n - 1];
    // field 2 (compression) is the second field; scan for key 16 = 2 << 3
    let mut pos = 0usize;
    let mut compression = None;
    while pos < ps.len() {
        let mut key: u64 = 0;
        let mut shift = 0;
        loop {
            let b = ps[pos];
            pos += 1;
            key |= ((b & 0x7f) as u64) << shift;
            if b < 128 {
                break;
            }
            shift += 7;
        }
        if key & 7 == 0 {
            let mut v: u64 = 0;
            let mut shift2 = 0;
            loop {
                let b = ps[pos];
                pos += 1;
                v |= ((b & 0x7f) as u64) << shift2;
                if b < 128 {
                    break;
                }
                shift2 += 7;
            }
            if key >> 3 == 2 {
                compression = Some(v);
            }
        } else {
            let mut len: u64 = 0;
            let mut shift2 = 0;
            loop {
                let b = ps[pos];
                pos += 1;
                len |= ((b & 0x7f) as u64) << shift2;
                if b < 128 {
                    break;
                }
                shift2 += 7;
            }
            pos += len as usize;
        }
    }
    assert_eq!(compression, Some(2));
}

#[test]
fn batching_does_not_change_the_file() {
    let make = |batches: &[u64]| -> Vec<u8> {
        let schema = Schema::Struct(vec![Field("x".to_string(), Schema::Long)]);
        let config = Config::new().with_compression(NoCompression::new().build());
        let mut w = Writer::new(schema, config);
        let mut next: i64 = 0;
        for b in batches {
            {
                let root = w.data().unwrap_struct();
                for _ in 0..*b {
                    root.write();
                    root.child(0).unwrap_long().write(next * next % 1000);
                    next += 1;
                }
            }
            w.write_batch(*b).unwrap();
        }
        w.finish()
    };
    let one = make(&[10]);
    let three = make(&[3, 3, 4]);
    let ten = make(&[1, 1, 1, 1, 1, 1, 1, 1, 1, 1]);
    assert_eq!(one, three);
    assert_eq!(one, ten);
}
