//! The executor pipeline, the tensor laws, and the runtime services on
//! concrete values.

use tvm::array::DataType;
use tvm::array::Storage;
use tvm::array::Tensor;
use tvm::array::TVMContext;
use tvm::array::DTYPE_CODE_FLOAT;
use tvm::array::DTYPE_CODE_INT;
use tvm::errors::Error;
use tvm::executor::GraphExecutor;
use tvm::graph::Graph;
use tvm::module::Module;
use tvm::module::SystemLibModule;
use tvm::packed_func::TVMArgValue;
use tvm::packed_func::TVMRetValue;
use tvm::params::load_param_dict;
use tvm::params::NDARRAY_LIST_MAGIC;
use tvm::params::NDARRAY_MAGIC;
use tvm::threading::job_tasks;
use tvm::threading::max_concurrency;
use tvm::workspace::WorkspacePool;

fn pipeline_graph_json() -> String {
    r#"{
      "nodes": [
        {"op": "null", "name": "x", "inputs": []},
        {"op": "null", "name": "w", "inputs": []},
        {"op": "tvm_op", "name": "dense",
         "attrs": {"func_name": "fuse_dense", "num_outputs": "1"},
         "inputs": [[0, 0, 0], [1, 0, 0]]}
      ],
      "arg_nodes": [0, 1],
      "heads": [[2, 0, 0]],
      "node_row_ptr": [0, 1, 2, 3],
      "attrs": {
        "storage_id": ["list_int", [0, 1, 2]],
        "shape": ["list_shape", [[2], [2], [2]]],
        "dltype": ["list_str", ["float32", "float32", "float32"]]
      }
    }"#
    .to_string()
}

fn put_u64(out: &mut Vec<u8>, x: u64) {
    out.extend_from_slice(&x.to_le_bytes());
}

fn put_u32(out: &mut Vec<u8>, x: u32) {
    out.extend_from_slice(&x.to_le_bytes());
}

fn put_name(out: &mut Vec<u8>, name: &str) {
    put_u64(out, name.len() as u64);
    out.extend_from_slice(name.as_bytes());
}

fn put_f32_tensor(out: &mut Vec<u8>, shape: &[u64], payload: &[u8]) {
    put_u64(out, NDARRAY_MAGIC);
    put_u64(out, 0);
    put_u32(out, 1);
    put_u32(out, 0);
    put_u32(out, shape.len() as u32);
    out.push(DTYPE_CODE_FLOAT as u8);
    out.push(32);
    out.extend_from_slice(&1u16.to_le_bytes());
    for &d in shape {
        put_u64(out, d);
    }
    put_u64(out, payload.len() as u64);
    out.extend_from_slice(payload);
}

fn pipeline_params() -> Vec<u8> {
    let mut out = Vec::new();
    put_u64(&mut out, NDARRAY_LIST_MAGIC);
    put_u64(&mut out, 0);
    put_u64(&mut out, 2);
    put_name(&mut out, "x");
    put_name(&mut out, "w");
    put_u64(&mut out, 2);
    put_f32_tensor(&mut out, &[2], &[1, 2, 3, 4, 5, 6, 7, 8]);
    put_f32_tensor(&mut out, &[2], &[9, 10, 11, 12, 13, 14, 15, 16]);
    out
}

#[test]
fn test_executor_storage_plan() {
    let graph = Graph::from_json(&pipeline_graph_json()).unwrap();
    let mut lib = SystemLibModule::default();
    lib.register("fuse_dense".to_string());
    let ex = GraphExecutor::new(&graph, &lib).unwrap();

    assert_eq!(ex.num_tensors(), 3);
    // Three slots of 8 bytes each, offsets by prefix sum.
    assert_eq!(ex.tensor(0).byte_offset, 0);
    assert_eq!(ex.tensor(1).byte_offset, 8);
    assert_eq!(ex.tensor(2).byte_offset, 16);
    assert_eq!(ex.tensor(0).numel, 2);
    assert!(ex.tensor(0).strides.is_none());
    assert_eq!(ex.data_bytes().unwrap().len(), 24);
}

#[test]
fn test_executor_binds_kernels() {
    let graph = Graph::from_json(&pipeline_graph_json()).unwrap();
    let mut lib = SystemLibModule::default();
    let h = lib.register("fuse_dense".to_string());
    let ex = GraphExecutor::new(&graph, &lib).unwrap();

    assert_eq!(ex.num_ops(), 1);
    let op = ex.op(0);
    assert_eq!(op.node_id, 2);
    assert_eq!(op.func.handle, h);
    assert_eq!(op.args, vec![0usize, 1, 2]);
}

#[test]
fn test_executor_missing_kernel_fails() {
    let graph = Graph::from_json(&pipeline_graph_json()).unwrap();
    let lib = SystemLibModule::default();
    match GraphExecutor::new(&graph, &lib) {
        Err(Error::MissingFunction(name)) => assert_eq!(name, "fuse_dense"),
        _ => panic!("expected a missing-function failure"),
    }
}

#[test]
fn test_executor_load_params_fills_arena() {
    let graph = Graph::from_json(&pipeline_graph_json()).unwrap();
    let mut lib = SystemLibModule::default();
    lib.register("fuse_dense".to_string());
    let mut ex = GraphExecutor::new(&graph, &lib).unwrap();

    let dict = load_param_dict(&pipeline_params()).unwrap();
    ex.load_params(&dict).unwrap();

    let arena = ex.data_bytes().unwrap();
    assert_eq!(&arena[0..8], &[1, 2, 3, 4, 5, 6, 7, 8]);
    assert_eq!(&arena[8..16], &[9, 10, 11, 12, 13, 14, 15, 16]);
    assert_eq!(&arena[16..24], &[0; 8]);
}

#[test]
fn test_executor_run_invokes_each_op() {
    let graph = Graph::from_json(&pipeline_graph_json()).unwrap();
    let mut lib = SystemLibModule::default();
    lib.register("fuse_dense".to_string());
    let ex = GraphExecutor::new(&graph, &lib).unwrap();

    let seen: std::cell::Cell<usize> = std::cell::Cell::new(0);
    ex.run(&|op: &tvm::executor::OpExec| {
        assert_eq!(op.node_id, 2);
        seen.set(seen.get() + 1);
        0
    })
    .unwrap();
    assert_eq!(seen.get(), 1);

    let r = ex.run(&|_op: &tvm::executor::OpExec| -1);
    assert!(matches!(r, Err(Error::Kernel)));
}

#[test]
fn test_copy_law() {
    let dtype = DataType {
        code: DTYPE_CODE_INT,
        bits: 8,
        lanes: 1,
    };
    let src_bytes = vec![10u8, 20, 30, 40];
    let dst_bytes = vec![0u8, 0, 0, 0];
    let src = Tensor::from_bytes(&src_bytes, TVMContext::default(), dtype, vec![4]).unwrap();
    let mut dst = Tensor::from_bytes(&dst_bytes, TVMContext::default(), dtype, vec![4]).unwrap();
    dst.copy(&src);
    assert_eq!(dst.to_vec(), src.to_vec());
    assert_eq!(dst.to_vec(), vec![10u8, 20, 30, 40]);
}

#[test]
fn test_contiguity_oracle() {
    let dtype = DataType {
        code: DTYPE_CODE_INT,
        bits: 8,
        lanes: 1,
    };
    let bytes = vec![0u8; 6];
    let t = Tensor::from_bytes(&bytes, TVMContext::default(), dtype, vec![2, 3]).unwrap();
    assert!(t.is_contiguous());

    let contiguous = Tensor {
        data: Storage::View(0, 6),
        ctx: TVMContext::default(),
        dtype,
        shape: vec![2, 3],
        strides: Some(vec![3, 1]),
        byte_offset: 0,
        numel: 6,
    };
    assert!(contiguous.is_contiguous());

    let strided = Tensor {
        data: Storage::View(0, 6),
        ctx: TVMContext::default(),
        dtype,
        shape: vec![2, 3],
        strides: Some(vec![4, 1]),
        byte_offset: 0,
        numel: 6,
    };
    assert!(!strided.is_contiguous());
}

#[test]
fn test_workspace_best_fit_reuses_freed_block() {
    let mut pool = WorkspacePool::new();
    let a = pool.allocate(100, 4).unwrap();
    pool.free(a).unwrap();
    let b = pool.allocate(50, 4).unwrap();
    assert_eq!(b, a);
}

#[test]
fn test_workspace_grows_when_nothing_fits() {
    let mut pool = WorkspacePool::new();
    let a = pool.allocate(100, 4).unwrap();
    pool.free(a).unwrap();
    let c = pool.allocate(200, 4).unwrap();
    assert_ne!(c, a);
    assert_eq!(pool.num_workspaces(), 2);
}

#[test]
fn test_workspace_exact_alignment_required() {
    let mut pool = WorkspacePool::new();
    let a = pool.allocate(64, 4).unwrap();
    pool.free(a).unwrap();
    let b = pool.allocate(64, 8).unwrap();
    assert_ne!(b, a);
}

#[test]
fn test_workspace_free_unknown_fails() {
    let mut pool = WorkspacePool::new();
    assert!(matches!(pool.free(3), Err(Error::Msg(_))));
}

#[test]
fn test_workspace_rejects_invalid_alignment() {
    let mut pool = WorkspacePool::new();
    assert!(matches!(pool.allocate(16, 3), Err(Error::Alloc)));
    assert!(matches!(pool.allocate(16, 0), Err(Error::Alloc)));
}

#[test]
fn test_executor_rejects_ill_typed_attr() {
    let graph = Graph::from_json(
        r#"{
          "nodes": [{"op": "null", "name": "x", "inputs": []}],
          "arg_nodes": [0],
          "heads": [[0, 0, 0]],
          "node_row_ptr": [0, 1],
          "attrs": {
            "storage_id": ["list_int", ["zero"]],
            "shape": ["list_shape", [[1]]],
            "dltype": ["list_str", ["float32"]]
          }
        }"#,
    )
    .unwrap();
    let lib = SystemLibModule::default();
    assert!(matches!(
        GraphExecutor::new(&graph, &lib),
        Err(Error::GraphFormat(_))
    ));
}

#[test]
fn test_executor_requires_graph_attrs() {
    let graph = Graph::from_json(
        r#"{"nodes": [], "arg_nodes": [], "heads": [], "node_row_ptr": []}"#,
    )
    .unwrap();
    let lib = SystemLibModule::default();
    assert!(matches!(
        GraphExecutor::new(&graph, &lib),
        Err(Error::GraphFormat(_))
    ));
}

#[test]
fn test_workspace_best_fit_picks_smallest() {
    let mut pool = WorkspacePool::new();
    let big = pool.allocate(400, 4).unwrap();
    let small = pool.allocate(120, 4).unwrap();
    pool.free(big).unwrap();
    pool.free(small).unwrap();
    let got = pool.allocate(100, 4).unwrap();
    assert_eq!(got, small);
}

#[test]
fn test_num_task_semantics() {
    let all = job_tasks(0, 4);
    assert_eq!(all.len(), 4);
    for (i, t) in all.iter().enumerate() {
        assert_eq!(t.id, i);
        assert_eq!(t.num_task, 4);
    }
    assert_eq!(job_tasks(7, 4).len(), 4);
    assert_eq!(job_tasks(2, 4).len(), 2);
    assert_eq!(job_tasks(2, 4)[1].num_task, 2);
}

#[test]
fn test_max_concurrency() {
    assert_eq!(max_concurrency(Some("42"), Some("24")), 42);
    assert_eq!(max_concurrency(None, Some("24")), 24);
    assert!(max_concurrency(Some("not a number"), Some("24")) >= 1);
    assert!(max_concurrency(None, None) >= 1);
}

#[test]
fn test_registry_returns_latest_registration() {
    let mut lib = SystemLibModule::default();
    assert!(lib.get_function("f").is_none());
    let h1 = lib.register("f".to_string());
    let h2 = lib.register("g".to_string());
    let h3 = lib.register("f".to_string());
    assert_eq!(lib.get_function("f").unwrap().handle, h3);
    assert_eq!(lib.get_function("g").unwrap().handle, h2);
    assert_ne!(h1, h3);
}

#[test]
fn test_ret_value_downcast() {
    let r = TVMRetValue::from_i8(7);
    assert_eq!(r.try_into_i8().unwrap(), 7);

    let r = TVMRetValue::default();
    match r.try_into_i8() {
        Err(Error::TryFromTVMRetValue(expected, actual)) => {
            assert_eq!(expected, "i8");
            assert_eq!(actual, 0);
        },
        _ => panic!("expected a downcast failure"),
    }

    let r = TVMRetValue::from_string("hello".to_string());
    assert_eq!(r.try_into_string().unwrap(), "hello");
}

#[test]
fn test_arg_value_encoding() {
    let a = TVMArgValue::from_int(-3);
    assert_eq!(a.value, -3);
    assert_eq!(a.type_code, tvm::packed_func::ARG_CODE_INT);
    let b = TVMArgValue::from_bool(true);
    assert_eq!(b.value, 1);
    let c = TVMArgValue::from_uint(u64::MAX);
    assert_eq!(c.value, -1);
}
