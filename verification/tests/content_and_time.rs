use tap_query::QueryError;
use tap_query::data::DataMethod;
use tap_query::data::query_data;
use tap_query::data::query_data_line;
use tap_query::data::query_data_regex;
use tap_query::timeline::Timeline;
use tap_query::tree::AttrValue;
use tap_query::tree::Attribute;
use tap_query::tree::FileHandle;
use tap_query::tree::FileSource;
use tap_query::tree::Node;
use tap_query::tree::Tree;

fn data_node(name: &str, size: usize, source: FileSource) -> Node {
    Node {
        name: name.to_string(),
        parent: None,
        attributes: vec![Attribute {
            name: "data".to_string(),
            value: AttrValue::File(FileHandle { size, source }),
        }],
    }
}

fn bytes_node(name: &str, content: &[u8]) -> Node {
    data_node(name, content.len(), FileSource::Bytes(content.to_vec()))
}

fn time_attr(name: &str, t: i64) -> Attribute {
    Attribute { name: name.to_string(), value: AttrValue::Time(t) }
}

#[test]
fn data_regex_finds_pattern_in_bytes() {
    let tree = Tree { nodes: vec![bytes_node("f", b"abcXYZdef")] };
    let ids = query_data_regex(&tree, &vec![0], "XYZ").unwrap();
    assert_eq!(ids, vec![0]);
    let ids = query_data_regex(&tree, &vec![0], "QQQ").unwrap();
    assert_eq!(ids, Vec::<usize>::new());
}

#[test]
fn data_regex_is_case_insensitive() {
    let tree = Tree { nodes: vec![bytes_node("f", b"abcXYZdef")] };
    let ids = query_data_regex(&tree, &vec![0], "xyz").unwrap();
    assert_eq!(ids, vec![0]);
}

#[test]
fn data_regex_misses_pattern_straddling_chunk_boundary() {
    // "XYZ" lies at bytes 4094..4097: "XY" ends the first 4096-byte chunk
    // and "Z" starts the second, so no single chunk holds the pattern.
    let mut content = vec![b'a'; 4094];
    content.extend_from_slice(b"XYZ");
    content.extend_from_slice(&[b'b'; 100]);
    let tree = Tree { nodes: vec![bytes_node("f", &content)] };
    let ids = query_data_regex(&tree, &vec![0], "XYZ").unwrap();
    assert_eq!(ids, Vec::<usize>::new());
    // the same pattern inside one chunk is found
    let ids = query_data_regex(&tree, &vec![0], "aaaa").unwrap();
    assert_eq!(ids, vec![0]);
}

#[test]
fn data_regex_short_read_stops_scan() {
    // declared size larger than the delivered content: the delivered bytes
    // are still scanned, then the empty read ends the node as a non-match
    let tree = Tree {
        nodes: vec![data_node("f", 100, FileSource::Bytes(b"needle".to_vec()))],
    };
    let ids = query_data_regex(&tree, &vec![0], "needle").unwrap();
    assert_eq!(ids, vec![0]);
    let tree = Tree { nodes: vec![data_node("f", 100, FileSource::Bytes(Vec::new()))] };
    let ids = query_data_regex(&tree, &vec![0], "needle").unwrap();
    assert_eq!(ids, Vec::<usize>::new());
}

#[test]
fn data_open_failure_is_isolated_non_match() {
    let tree = Tree {
        nodes: vec![
            data_node("broken", 10, FileSource::Unavailable),
            bytes_node("good", b"abcXYZdef"),
        ],
    };
    let ids = query_data_regex(&tree, &vec![0, 1], "XYZ").unwrap();
    assert_eq!(ids, vec![1]);
    let ids = query_data_line(&tree, &vec![0, 1], "XYZ").unwrap();
    assert_eq!(ids, vec![1]);
}

#[test]
fn data_node_without_handle_is_non_match() {
    let tree = Tree {
        nodes: vec![Node {
            name: "n".to_string(),
            parent: None,
            attributes: vec![Attribute {
                name: "data".to_string(),
                value: AttrValue::Scalar("XYZ".to_string()),
            }],
        }],
    };
    let ids = query_data_regex(&tree, &vec![0], "XYZ").unwrap();
    assert_eq!(ids, Vec::<usize>::new());
}

#[test]
fn data_line_matches_on_third_line() {
    let tree = Tree { nodes: vec![bytes_node("f", b"alpha\nbeta\ngamma needle\ndelta\n")] };
    let ids = query_data_line(&tree, &vec![0], "needle").unwrap();
    assert_eq!(ids, vec![0]);
    let ids = query_data_line(&tree, &vec![0], "missing").unwrap();
    assert_eq!(ids, Vec::<usize>::new());
}

#[test]
fn data_line_invalid_pattern() {
    let tree = Tree { nodes: vec![bytes_node("f", b"abc")] };
    let r = query_data_line(&tree, &vec![0], "[");
    assert_eq!(r.unwrap_err(), QueryError::InvalidPattern);
    let r = query_data(&tree, &vec![0], "[", DataMethod::Regex);
    assert_eq!(r.unwrap_err(), QueryError::InvalidPattern);
}

#[test]
fn data_line_over_cap_is_bounded_non_match() {
    // one line of 100 MiB + 1 bytes: over the cap, resolved as a non-match
    // without testing the line
    let content = vec![b'a'; 100 * 1024 * 1024 + 1];
    let tree = Tree { nodes: vec![bytes_node("f", &content)] };
    let ids = query_data_line(&tree, &vec![0], "aaa").unwrap();
    assert_eq!(ids, Vec::<usize>::new());
}

#[test]
fn data_line_match_before_long_line_counts() {
    let mut content = b"needle here\n".to_vec();
    content.extend_from_slice(&vec![b'a'; 100 * 1024 * 1024 + 1]);
    let tree = Tree { nodes: vec![bytes_node("f", &content)] };
    let ids = query_data_line(&tree, &vec![0], "needle").unwrap();
    assert_eq!(ids, vec![0]);
}

#[test]
fn data_query_dispatches_both_methods() {
    let tree = Tree { nodes: vec![bytes_node("f", b"one\ntwo XYZ three\n")] };
    assert_eq!(query_data(&tree, &vec![0], "XYZ", DataMethod::Regex).unwrap(), vec![0]);
    assert_eq!(query_data(&tree, &vec![0], "XYZ", DataMethod::Text).unwrap(), vec![0]);
}

#[test]
fn timeline_three_in_range_entries_sorted() {
    let tree = Tree {
        nodes: vec![Node {
            name: "n".to_string(),
            parent: None,
            attributes: vec![
                time_attr("created", 30),
                time_attr("changed", 10),
                time_attr("accessed", 20),
                time_attr("deleted", 99),
            ],
        }],
    };
    let times = Timeline::nodes(&tree, &vec![0], 0, 50);
    assert_eq!(times.len(), 3);
    assert_eq!(times[0].time, 10);
    assert_eq!(times[1].time, 20);
    assert_eq!(times[2].time, 30);
    assert_eq!(times[0].attribute_name, "changed");
    assert_eq!(times[0].id, 0);
    for t in &times {
        assert!(0 <= t.time && t.time <= 50);
    }
}

#[test]
fn timeline_range_bounds_are_inclusive() {
    let tree = Tree {
        nodes: vec![Node {
            name: "n".to_string(),
            parent: None,
            attributes: vec![time_attr("lo", 10), time_attr("hi", 20), time_attr("out", 21)],
        }],
    };
    let times = Timeline::nodes(&tree, &vec![0], 10, 20);
    assert_eq!(times.len(), 2);
    assert_eq!(times[0].time, 10);
    assert_eq!(times[1].time, 20);
}

#[test]
fn timeline_nested_attribute_names_are_dotted() {
    let tree = Tree {
        nodes: vec![Node {
            name: "n".to_string(),
            parent: None,
            attributes: vec![Attribute {
                name: "outer".to_string(),
                value: AttrValue::Nested(vec![time_attr("stamp", 5)]),
            }],
        }],
    };
    let times = Timeline::tree(&tree, 0, 10);
    assert_eq!(times.len(), 1);
    assert_eq!(times[0].attribute_name, "outer.stamp");
}

#[test]
fn timeline_sorts_across_nodes() {
    let tree = Tree {
        nodes: vec![
            Node {
                name: "a".to_string(),
                parent: None,
                attributes: vec![time_attr("t", 40), time_attr("u", 10)],
            },
            Node {
                name: "b".to_string(),
                parent: Some(0),
                attributes: vec![time_attr("t", 25)],
            },
        ],
    };
    let times = Timeline::tree(&tree, 0, 100);
    let got: Vec<i64> = times.iter().map(|t| t.time).collect();
    assert_eq!(got, vec![10, 25, 40]);
}

#[test]
fn timeline_path_invalid_path_fails() {
    let tree = Tree {
        nodes: vec![Node { name: "root".to_string(), parent: None, attributes: vec![] }],
    };
    let r = Timeline::path(&tree, &vec!["missing".to_string()], 0, 10);
    assert_eq!(r.unwrap_err(), QueryError::InvalidPath);
    let r = Timeline::path(&tree, &vec!["root".to_string()], 0, 10);
    assert!(r.unwrap().is_empty());
}

#[test]
fn timeline_missing_ids_contribute_nothing() {
    let tree = Tree {
        nodes: vec![Node {
            name: "n".to_string(),
            parent: None,
            attributes: vec![time_attr("t", 5)],
        }],
    };
    let times = Timeline::nodes(&tree, &vec![0, 7], 0, 10);
    assert_eq!(times.len(), 1);
}
