//! The dtype string grammar on concrete strings.

use tvm::array::DataType;
use tvm::array::DTYPE_CODE_FLOAT;
use tvm::array::DTYPE_CODE_INT;
use tvm::array::DTYPE_CODE_UINT;
use tvm::dtype::tvm_str_to_type;

#[test]
fn test_str_to_type() {
    assert_eq!(
        tvm_str_to_type("float24").unwrap(),
        DataType {
            code: DTYPE_CODE_FLOAT,
            bits: 24,
            lanes: 1
        }
    );
    assert_eq!(
        tvm_str_to_type("uint111x44").unwrap(),
        DataType {
            code: DTYPE_CODE_UINT,
            bits: 111,
            lanes: 44
        }
    );
}

#[test]
fn test_parse_dtype_scalar_int() {
    assert_eq!(
        tvm_str_to_type("int16").unwrap(),
        DataType {
            code: DTYPE_CODE_INT,
            bits: 16,
            lanes: 1
        }
    );
}

#[test]
fn test_parse_dtype_vector_float() {
    assert_eq!(
        tvm_str_to_type("float64x2").unwrap(),
        DataType {
            code: DTYPE_CODE_FLOAT,
            bits: 64,
            lanes: 2
        }
    );
}

#[test]
fn test_parse_dtype_round_trip_examples() {
    assert_eq!(
        tvm_str_to_type("float32").unwrap(),
        DataType {
            code: DTYPE_CODE_FLOAT,
            bits: 32,
            lanes: 1
        }
    );
}

#[test]
fn test_parse_dtype_unknown_kind_maps_to_float() {
    let dt = tvm_str_to_type("bfloat16").unwrap();
    assert_eq!(dt.code, DTYPE_CODE_FLOAT);
    assert_eq!(dt.bits, 16);
    assert_eq!(dt.lanes, 1);
}

#[test]
fn test_parse_dtype_rejects_missing_bits() {
    assert!(tvm_str_to_type("float").is_err());
    assert!(tvm_str_to_type("32").is_err());
    assert!(tvm_str_to_type("").is_err());
}

#[test]
fn test_parse_dtype_rejects_oversized_bits() {
    assert!(tvm_str_to_type("int999").is_err());
}
