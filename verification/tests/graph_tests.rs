//! Graph JSON decoding on concrete documents.

use tvm::graph::Graph;
use tvm::json::Json;

fn small_graph_json() -> String {
    r#"{
      "nodes": [
        {"op": "null", "name": "data", "inputs": []},
        {"op": "null", "name": "dense_weight", "inputs": []},
        {"op": "null", "name": "dense_bias", "inputs": []},
        {"op": "tvm_op", "name": "dense",
         "attrs": {"func_name": "fuse_dense", "num_inputs": "3", "num_outputs": "1"},
         "inputs": [[0, 0, 0], [1, 0, 0], [2, 0, 0]]},
        {"op": "tvm_op", "name": "relu",
         "attrs": {"func_name": "fuse_relu", "num_outputs": "1"},
         "inputs": [[3, 0, 0]]},
        {"op": "tvm_op", "name": "left",
         "attrs": {"func_name": "fuse_left", "num_outputs": "2"},
         "inputs": [[4, 0, 0]]},
        {"op": "tvm_op", "name": "right",
         "attrs": {"func_name": "fuse_right", "num_outputs": "1"},
         "inputs": [[5, 1, 0]]}
      ],
      "arg_nodes": [0, 1, 2],
      "heads": [[5, 0, 0], [6, 0, 0]],
      "node_row_ptr": [0, 1, 2, 3, 4, 5, 7, 8]
    }"#
    .to_string()
}

#[test]
fn test_load_graph() {
    let graph = Graph::from_json(&small_graph_json()).unwrap();

    assert_eq!(graph.nodes[3].op, "tvm_op");
    assert_eq!(
        graph.nodes[3]
            .attrs
            .as_ref()
            .unwrap()
            .iter()
            .find(|p| p.0 == "func_name")
            .map(|p| p.1.as_str())
            .unwrap(),
        "fuse_dense"
    );
    assert_eq!(graph.nodes[5].inputs[0].index, 0);
    assert_eq!(graph.nodes[6].inputs[0].index, 1);
    assert_eq!(graph.heads.len(), 2);
}

fn resnet_like_json() -> String {
    r#"{
      "nodes": [
        {"op": "null", "name": "data", "inputs": []},
        {"op": "tvm_op", "name": "batch_norm",
         "attrs": {"func_name": "fuse_batch_norm", "num_outputs": "1", "epsilon": "2e-05"},
         "inputs": [[0, 0, 0]]},
        {"op": "null", "name": "bn_gamma", "inputs": []},
        {"op": "null", "name": "bn_beta", "inputs": []},
        {"op": "null", "name": "bn_mean", "inputs": []},
        {"op": "tvm_op", "name": "conv0",
         "attrs": {"func_name": "fuse_conv2d", "num_outputs": "1"},
         "inputs": [[1, 0, 0], [2, 0, 0], [3, 0, 0], [4, 0, 1]]}
      ],
      "arg_nodes": [0, 2, 3, 4],
      "heads": [[5, 0, 0]],
      "node_row_ptr": [0, 1, 2, 3, 4, 5, 6],
      "attrs": {
        "shape": ["list_shape", [[1, 3, 224, 224], [64, 3, 7, 7]]],
        "dltype": ["list_str", ["float32", "float32"]]
      }
    }"#
    .to_string()
}

#[test]
fn test_load_resnet_like_graph() {
    let graph = Graph::from_json(&resnet_like_json()).unwrap();

    assert_eq!(graph.nodes[0].name, "data");
    assert_eq!(
        graph.nodes[1]
            .attrs
            .as_ref()
            .unwrap()
            .iter()
            .find(|p| p.0 == "epsilon")
            .map(|p| p.1.as_str())
            .unwrap(),
        "2e-05"
    );
    assert_eq!(graph.nodes[5].inputs[3].version, 1);

    let attrs = graph.attrs.as_ref().unwrap();
    let shape = &attrs.iter().find(|p| p.0 == "shape").unwrap().1;
    let lists = shape.arr_get(1).unwrap();
    let first = lists.arr_get(0).unwrap();
    assert_eq!(first.arr_get(3).unwrap().as_int(), Some(224));
}

#[test]
fn test_graph_missing_required_field_fails() {
    assert!(Graph::from_json(r#"{"nodes": []}"#).is_err());
}

#[test]
fn test_graph_rejects_broken_json() {
    assert!(Graph::from_json("{").is_err());
    assert!(Graph::from_json(r#"{"nodes": [}"#).is_err());
}

#[test]
fn test_json_values_round() {
    let j = tvm::json::parse_json(r#"{"a": [1, true, null, "x"], "b": -7}"#).unwrap();
    let a = j.obj_get("a").unwrap();
    assert_eq!(a.arr_len(), 4);
    assert_eq!(a.arr_get(0).unwrap().as_int(), Some(1));
    assert_eq!(a.arr_get(3).unwrap().as_str().map(|s| s.as_str()), Some("x"));
    assert_eq!(j.obj_get("b").unwrap().as_int(), Some(-7));
    assert!(j.obj_get("c").is_none());
    assert!(matches!(a.arr_get(2).unwrap(), Json::Null));
}

#[test]
fn test_json_rejects_trailing_text() {
    assert!(tvm::json::parse_json("1 2").is_err());
}

#[test]
fn test_json_string_escapes() {
    let j = tvm::json::parse_json(r#""a\"b\\c\nd\t""#).unwrap();
    assert_eq!(j.as_str().map(|s| s.as_str()), Some("a\"b\\c\nd\t"));

    let j = tvm::json::parse_json(r#""\u0041\u00e9""#).unwrap();
    assert_eq!(j.as_str().map(|s| s.as_str()), Some("A\u{e9}"));

    let j = tvm::json::parse_json(r#""\ud83d\ude00""#).unwrap();
    assert_eq!(j.as_str().map(|s| s.as_str()), Some("\u{1f600}"));
}

#[test]
fn test_json_rejects_bad_escapes() {
    assert!(tvm::json::parse_json(r#""\q""#).is_err());
    assert!(tvm::json::parse_json(r#""\ud83d""#).is_err());
    assert!(tvm::json::parse_json(r#""\u12g4""#).is_err());
    assert!(tvm::json::parse_json(r#""unterminated"#).is_err());
}

#[test]
fn test_json_duplicate_keys_last_wins() {
    let doc = r#"{"a": 1, "a": 2}"#;
    let ours = tvm::json::parse_json(doc).unwrap();
    assert_eq!(ours.obj_get("a").unwrap().as_int(), Some(2));
    let theirs: serde_json::Value = serde_json::from_str(doc).unwrap();
    assert_eq!(theirs.get("a").unwrap().as_i64(), Some(2));
}

#[test]
fn test_json_decoder_agrees_with_serde() {
    let doc = r#"{"op": "tvm_op", "n": -12, "flags": [true, false, null], "name": "dense"}"#;
    let ours = tvm::json::parse_json(doc).unwrap();
    let theirs: serde_json::Value = serde_json::from_str(doc).unwrap();

    assert_eq!(
        ours.obj_get("op").unwrap().as_str().map(|s| s.as_str()),
        theirs.get("op").unwrap().as_str()
    );
    assert_eq!(
        ours.obj_get("n").unwrap().as_int(),
        theirs.get("n").unwrap().as_i64()
    );
    let flags = ours.obj_get("flags").unwrap();
    let their_flags = theirs.get("flags").unwrap().as_array().unwrap();
    assert_eq!(flags.arr_len(), their_flags.len());
    assert!(matches!(flags.arr_get(0).unwrap(), Json::Bool(true)));
    assert_eq!(their_flags[0].as_bool(), Some(true));
    assert!(matches!(flags.arr_get(2).unwrap(), Json::Null));
    assert!(their_flags[2].is_null());
}

#[test]
fn test_entry_index_uses_row_table() {
    let graph = Graph::from_json(&small_graph_json()).unwrap();
    let e = tvm::graph::Entry {
        id: 5,
        index: 1,
        version: 0,
    };
    assert_eq!(graph.entry_index(&e).unwrap(), 6);
}
