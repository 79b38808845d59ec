//! The binary parameter container on concrete byte strings.

use tvm::array::DTYPE_CODE_FLOAT;
use tvm::errors::Error;
use tvm::params::load_param_dict;
use tvm::params::NDARRAY_LIST_MAGIC;
use tvm::params::NDARRAY_MAGIC;

fn put_u64(out: &mut Vec<u8>, x: u64) {
    out.extend_from_slice(&x.to_le_bytes());
}

fn put_u32(out: &mut Vec<u8>, x: u32) {
    out.extend_from_slice(&x.to_le_bytes());
}

fn put_u16(out: &mut Vec<u8>, x: u16) {
    out.extend_from_slice(&x.to_le_bytes());
}

fn put_name(out: &mut Vec<u8>, name: &str) {
    put_u64(out, name.len() as u64);
    out.extend_from_slice(name.as_bytes());
}

fn put_tensor(out: &mut Vec<u8>, shape: &[u64], payload: &[u8]) {
    put_u64(out, NDARRAY_MAGIC);
    put_u64(out, 0);
    put_u32(out, 1); // device type: CPU
    put_u32(out, 0); // device id
    put_u32(out, shape.len() as u32);
    out.push(DTYPE_CODE_FLOAT as u8);
    out.push(32); // bits
    put_u16(out, 1); // lanes
    for &d in shape {
        put_u64(out, d);
    }
    put_u64(out, payload.len() as u64);
    out.extend_from_slice(payload);
}

fn two_entry_container() -> Vec<u8> {
    let mut out = Vec::new();
    put_u64(&mut out, NDARRAY_LIST_MAGIC);
    put_u64(&mut out, 0);
    put_u64(&mut out, 2);
    put_name(&mut out, "dense_weight");
    put_name(&mut out, "dense_bias");
    put_u64(&mut out, 2);
    put_tensor(&mut out, &[2, 1], &[1, 2, 3, 4, 5, 6, 7, 8]);
    put_tensor(&mut out, &[1], &[9, 10, 11, 12]);
    out
}

#[test]
fn test_load_params() {
    let bytes = two_entry_container();
    let dict = load_param_dict(&bytes).unwrap();
    assert!(!dict.is_empty());
}

#[test]
fn test_param_names_in_file_order() {
    let bytes = two_entry_container();
    let dict = load_param_dict(&bytes).unwrap();
    assert_eq!(dict.len(), 2);
    assert_eq!(dict[0].0, "dense_weight");
    assert_eq!(dict[1].0, "dense_bias");
}

#[test]
fn test_param_payloads_byte_exact() {
    let bytes = two_entry_container();
    let dict = load_param_dict(&bytes).unwrap();
    assert_eq!(dict[0].1.to_vec(), vec![1u8, 2, 3, 4, 5, 6, 7, 8]);
    assert_eq!(dict[1].1.to_vec(), vec![9u8, 10, 11, 12]);
    assert_eq!(dict[0].1.shape(), vec![2usize, 1]);
    assert_eq!(dict[1].1.numel, 1);
    assert!(dict[0].1.strides.is_none());
    assert_eq!(dict[0].1.byte_offset, 0);
}

#[test]
fn test_param_extra_byte_fails() {
    let mut bytes = two_entry_container();
    bytes.push(0);
    match load_param_dict(&bytes) {
        Err(Error::LoadGraphParams(m)) => assert_eq!(m, "extra input"),
        _ => panic!("expected the extra-input failure"),
    }
}

#[test]
fn test_param_bad_magic_fails() {
    let mut bytes = two_entry_container();
    bytes[0] ^= 0xff;
    match load_param_dict(&bytes) {
        Err(Error::LoadGraphParams(m)) => assert_eq!(m, "invalid parameters file"),
        _ => panic!("expected the invalid-file failure"),
    }
}

#[test]
fn test_param_mismatched_counts_fail() {
    let mut out = Vec::new();
    put_u64(&mut out, NDARRAY_LIST_MAGIC);
    put_u64(&mut out, 0);
    put_u64(&mut out, 1);
    put_name(&mut out, "w");
    put_u64(&mut out, 2);
    put_tensor(&mut out, &[1], &[0, 0, 0, 0]);
    put_tensor(&mut out, &[1], &[0, 0, 0, 0]);
    assert!(load_param_dict(&out).is_err());
}

#[test]
fn test_param_utf8_names() {
    let mut out = Vec::new();
    put_u64(&mut out, NDARRAY_LIST_MAGIC);
    put_u64(&mut out, 0);
    put_u64(&mut out, 1);
    put_name(&mut out, "poids_entr\u{e9}e");
    put_u64(&mut out, 1);
    put_tensor(&mut out, &[1], &[1, 2, 3, 4]);
    let dict = load_param_dict(&out).unwrap();
    assert_eq!(dict[0].0, "poids_entr\u{e9}e");
}

#[test]
fn test_param_invalid_utf8_name_fails() {
    let mut out = Vec::new();
    put_u64(&mut out, NDARRAY_LIST_MAGIC);
    put_u64(&mut out, 0);
    put_u64(&mut out, 1);
    put_u64(&mut out, 2);
    out.extend_from_slice(&[0xff, 0xfe]);
    put_u64(&mut out, 1);
    put_tensor(&mut out, &[1], &[1, 2, 3, 4]);
    match load_param_dict(&out) {
        Err(Error::LoadGraphParams(m)) => assert_eq!(m, "invalid parameters file"),
        _ => panic!("expected the invalid-file failure"),
    }
}

#[test]
fn test_param_truncated_fails() {
    let bytes = two_entry_container();
    let cut = &bytes[..bytes.len() - 3].to_vec();
    assert!(load_param_dict(cut).is_err());
}
