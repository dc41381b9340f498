pub mod varint;
pub mod byte_rle;
pub mod boolean_rle;
pub mod int_rle_v1;
