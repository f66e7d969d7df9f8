use elastic_stream::model::append_entry::AppendEntry as Batch;
use elastic_stream::model::data_node::DataNode;
use elastic_stream::model::response::append::AppendEntry;

#[test]
fn data_node_keeps_id_and_address() {
    let node = DataNode::new(7, "127.0.0.1:10911");
    assert_eq!(7, node.node_id);
    assert_eq!("127.0.0.1:10911", node.advertise_address);
}

#[test]
fn default_append_entry_is_zeroed() {
    let e = AppendEntry::default();
    assert_eq!((0, 0, 0, 0), (e.stream_id, e.index, e.offset, e.len));
}

#[test]
fn append_entries_describe_themselves() {
    let e = Batch { stream_id: 1, index: 2, offset: Some(3), len: 4 };
    assert_eq!("{ stream_id: 1, index: 2, offset: 3, len: 4 }", e.describe());
    let e = Batch { stream_id: 7, index: 0, offset: None, len: 0 };
    assert_eq!("{ stream_id: 7, index: 0, offset: -1, len: 0 }", e.describe());
    let e = Batch { stream_id: 7, index: 0, offset: Some(u64::MAX), len: 0 };
    assert_eq!("{ stream_id: 7, index: 0, offset: -1, len: 0 }", e.describe());
    let e = Batch { stream_id: 0, index: 0, offset: Some(1 << 63), len: 1 };
    assert_eq!("{ stream_id: 0, index: 0, offset: -9223372036854775808, len: 1 }", e.describe());
}
