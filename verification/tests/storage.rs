use rfdb::storage::segment::{EdgesSegment, NodesSegment, SegmentHeader};
use rfdb::storage::string_table::StringTable;
use rfdb::storage::writer::SegmentWriter;
use rfdb::{EdgeRecord, GraphError, NodeRecord};

#[test]
fn writer_test_write_and_read_nodes() {
    let writer = SegmentWriter::new("db");

    let nodes = vec![
        NodeRecord {
            id: 123,
            node_type: Some("FUNCTION".to_string()),
            file_id: 0,
            name_offset: 0,
            version: "main".to_string(),
            exported: true,
            replaces: None,
            deleted: false,
            name: Some("myFunction".to_string()),
            file: Some("src/test.js".to_string()),
            metadata: Some("{\"async\":true}".to_string()),
        },
        NodeRecord {
            id: 456,
            node_type: Some("CLASS".to_string()),
            file_id: 0,
            name_offset: 0,
            version: "main".to_string(),
            exported: false,
            replaces: None,
            deleted: false,
            name: Some("MyClass".to_string()),
            file: Some("src/test.js".to_string()),
            metadata: None,
        },
    ];

    let image = writer.write_nodes(&nodes).unwrap();

    let segment = NodesSegment::open(image).unwrap();

    assert_eq!(segment.node_count(), 2);
    assert_eq!(segment.get_id(0), Some(123));
    assert_eq!(segment.get_id(1), Some(456));
    assert_eq!(segment.get_node_type(0), Some("FUNCTION"));
    assert_eq!(segment.get_node_type(1), Some("CLASS"));
    assert!(!segment.is_deleted(0));
    assert!(!segment.is_deleted(1));

    assert_eq!(segment.get_name(0), Some("myFunction"));
    assert_eq!(segment.get_name(1), Some("MyClass"));
    assert_eq!(segment.get_file_path(0), Some("src/test.js"));
    assert_eq!(segment.get_file_path(1), Some("src/test.js"));
}

#[test]
fn nodes_image_has_the_documented_layout() {
    let writer = SegmentWriter::new("db");
    let nodes = vec![NodeRecord {
        id: 0x0102,
        node_type: Some("T".to_string()),
        file_id: 0,
        name_offset: 0,
        version: "main".to_string(),
        exported: true,
        replaces: None,
        deleted: false,
        name: None,
        file: Some("f".to_string()),
        metadata: None,
    }];
    let image = writer.write_nodes(&nodes).unwrap();
    // header
    assert_eq!(&image[0..4], b"SGRF");
    assert_eq!(&image[4..6], &[1, 0]);
    assert_eq!(&image[6..14], &1u64.to_le_bytes());
    assert_eq!(&image[14..22], &0u64.to_le_bytes());
    assert_eq!(&image[22..30], &68u64.to_le_bytes());
    // id
    assert_eq!(&image[30..46], &0x0102u128.to_le_bytes());
    // type offset 1, file id 2 + 1, name 0, version 3
    assert_eq!(&image[46..50], &1u32.to_le_bytes());
    assert_eq!(&image[50..54], &3u32.to_le_bytes());
    assert_eq!(&image[54..58], &0u32.to_le_bytes());
    assert_eq!(&image[58..62], &3u32.to_le_bytes());
    // exported, deleted, metadata
    assert_eq!(image[62], 1);
    assert_eq!(image[63], 0);
    assert_eq!(&image[64..68], &0u32.to_le_bytes());
    // string table: one reserved byte, then T, f, main
    assert_eq!(&image[68..76], &7u64.to_le_bytes());
    assert_eq!(&image[76..83], b"\0Tfmain");
    assert_eq!(&image[83..91], &4u64.to_le_bytes());
    assert_eq!(&image[91..95], &0u32.to_le_bytes());
    assert_eq!(&image[95..99], &1u32.to_le_bytes());
    assert_eq!(&image[99..103], &2u32.to_le_bytes());
    assert_eq!(&image[103..107], &3u32.to_le_bytes());
    assert_eq!(image.len(), 107);
}

#[test]
fn node_without_type_reads_back_without_type() {
    let writer = SegmentWriter::new("db");
    let nodes = vec![NodeRecord {
        id: 9,
        node_type: None,
        file_id: 0,
        name_offset: 0,
        version: "v2".to_string(),
        exported: false,
        replaces: Some(4),
        deleted: true,
        name: None,
        file: None,
        metadata: Some("{}".to_string()),
    }];
    let segment = NodesSegment::open(writer.write_nodes(&nodes).unwrap()).unwrap();
    assert_eq!(segment.get_node_type(0), None);
    assert_eq!(segment.get_name(0), None);
    assert_eq!(segment.get_file_path(0), None);
    assert_eq!(segment.get_version(0), Some("v2"));
    assert_eq!(segment.get_metadata(0), Some("{}"));
    assert_eq!(segment.get_exported(0), Some(false));
    assert!(segment.is_deleted(0));
    assert_eq!(segment.find_index(9), Some(0));
    assert_eq!(segment.find_index(10), None);
    // out of range
    assert_eq!(segment.get_id(1), None);
    assert_eq!(segment.get_version(1), None);
    assert_eq!(segment.get_exported(1), None);
    assert!(!segment.is_deleted(1));
}

#[test]
fn edges_round_trip() {
    let writer = SegmentWriter::new("db");
    let edges = vec![
        EdgeRecord {
            src: 1,
            dst: 2,
            edge_type: Some("CALLS".to_string()),
            version: "main".to_string(),
            metadata: Some("{\"argIndex\":0}".to_string()),
            deleted: false,
        },
        EdgeRecord {
            src: 1,
            dst: 3,
            edge_type: None,
            version: "main".to_string(),
            metadata: None,
            deleted: true,
        },
        EdgeRecord {
            src: 2,
            dst: 3,
            edge_type: Some("CALLS".to_string()),
            version: "main".to_string(),
            metadata: None,
            deleted: false,
        },
    ];
    let segment = EdgesSegment::open(writer.write_edges(&edges).unwrap()).unwrap();
    assert_eq!(segment.edge_count(), 3);
    assert_eq!(segment.get_src(0), Some(1));
    assert_eq!(segment.get_dst(0), Some(2));
    assert_eq!(segment.get_edge_type(0), Some("CALLS"));
    assert_eq!(segment.get_metadata(0), Some("{\"argIndex\":0}"));
    assert_eq!(segment.get_edge_type(1), None);
    assert_eq!(segment.get_metadata(1), None);
    assert!(segment.is_deleted(1));
    assert_eq!(segment.get_edge_type_offset(2), segment.get_edge_type_offset(0));
    assert_eq!(segment.find_outgoing(1), vec![0]);
    assert_eq!(segment.find_outgoing(2), vec![2]);
    assert_eq!(segment.get_src(3), None);
}

#[test]
fn open_rejects_what_is_no_image() {
    assert!(matches!(NodesSegment::open(vec![]), Err(GraphError::InvalidFormat(_))));
    assert!(matches!(NodesSegment::open(vec![0u8; 29]), Err(GraphError::InvalidFormat(_))));
    // wrong magic
    let mut image = SegmentWriter::new("db").write_nodes(&[]).unwrap();
    assert!(NodesSegment::open(image.clone()).is_ok());
    image[0] = b'X';
    assert!(matches!(NodesSegment::open(image.clone()), Err(GraphError::InvalidFormat(_))));
    // wrong version
    image[0] = b'S';
    image[4] = 2;
    assert!(matches!(NodesSegment::open(image.clone()), Err(GraphError::InvalidFormat(_))));
    // truncated columns
    image[4] = 1;
    image[6] = 200;
    assert!(matches!(NodesSegment::open(image.clone()), Err(GraphError::InvalidFormat(_))));
    assert!(matches!(EdgesSegment::open(vec![1, 2, 3]), Err(GraphError::InvalidFormat(_))));
}

#[test]
fn header_validation() {
    let h = SegmentHeader::new(3, 0, 144);
    assert_eq!(h.magic, *b"SGRF");
    assert_eq!(h.version, 1);
    assert!(h.validate().is_ok());
    let bad = SegmentHeader { version: 7, ..h };
    assert!(matches!(bad.validate(), Err(GraphError::InvalidFormat(_))));
}

#[test]
fn string_table_interns_once() {
    let mut t = StringTable::new();
    let a = t.intern("alpha");
    let b = t.intern("beta");
    assert_eq!(a, 0);
    assert_eq!(b, 5);
    assert_eq!(t.intern("alpha"), a);
    assert_eq!(t.add("beta"), b);
    assert_eq!(t.get(a), Some("alpha"));
    assert_eq!(t.get(b), Some("beta"));
    assert_eq!(t.get(9), None);
    assert_eq!(t.get(100), None);
    assert_eq!(t.byte_len(), 9);
}

#[test]
fn string_table_is_stored_and_loaded() {
    let mut t = StringTable::new();
    t.intern("ab");
    t.intern("cde");
    let mut bytes = Vec::new();
    t.write_to(&mut bytes);
    let mut expected = Vec::new();
    expected.extend_from_slice(&5u64.to_le_bytes());
    expected.extend_from_slice(b"abcde");
    expected.extend_from_slice(&2u64.to_le_bytes());
    expected.extend_from_slice(&0u32.to_le_bytes());
    expected.extend_from_slice(&2u32.to_le_bytes());
    assert_eq!(bytes, expected);

    let mut loaded = StringTable::load_from_mmap_slice(&bytes).unwrap();
    assert_eq!(loaded.get(0), Some("ab"));
    assert_eq!(loaded.get(2), Some("cde"));
    assert_eq!(loaded.intern("cde"), 2);
    assert_eq!(loaded.intern("new"), 5);

    assert!(matches!(
        StringTable::load_from_mmap_slice(&bytes[..7]),
        Err(GraphError::InvalidFormat(_))
    ));
    assert!(matches!(
        StringTable::load_from_mmap_slice(&bytes[..12]),
        Err(GraphError::InvalidFormat(_))
    ));
    assert!(matches!(
        StringTable::load_from_mmap_slice(&bytes[..bytes.len() - 1]),
        Err(GraphError::InvalidFormat(_))
    ));
}

#[test]
fn string_table_get_needs_valid_utf8() {
    let mut bytes = Vec::new();
    bytes.extend_from_slice(&2u64.to_le_bytes());
    bytes.extend_from_slice(&[0xff, 0xfe]);
    bytes.extend_from_slice(&1u64.to_le_bytes());
    bytes.extend_from_slice(&0u32.to_le_bytes());
    let t = StringTable::load_from_mmap_slice(&bytes).unwrap();
    assert_eq!(t.get(0), None);
}
