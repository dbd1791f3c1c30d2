use tap_query::QueryError;
use tap_query::attribute::MatchMethod;
use tap_query::attribute::MatcherMethod;
use tap_query::attribute::QueryType;
use tap_query::attribute::attribute_count;
use tap_query::attribute::find_vfiles;
use tap_query::attribute::match_attribute_query;
use tap_query::attribute::match_query;
use tap_query::filter::Filter;
use tap_query::filter::Op;
use tap_query::filter::Query;
use tap_query::tree::AttrValue;
use tap_query::tree::Attribute;
use tap_query::tree::FileHandle;
use tap_query::tree::FileSource;
use tap_query::tree::Node;
use tap_query::tree::Tree;

fn scalar(name: &str, value: &str) -> Attribute {
    Attribute { name: name.to_string(), value: AttrValue::Scalar(value.to_string()) }
}

fn nested(name: &str, children: Vec<Attribute>) -> Attribute {
    Attribute { name: name.to_string(), value: AttrValue::Nested(children) }
}

fn node(name: &str, parent: Option<usize>, attributes: Vec<Attribute>) -> Node {
    Node { name: name.to_string(), parent, attributes }
}

fn sample_tree() -> Tree {
    Tree {
        nodes: vec![
            node("root", None, vec![scalar("kind", "dir")]),
            node("left", Some(0), vec![nested("outer", vec![scalar("inner", "v")])]),
            node("right", Some(0), vec![scalar("kind", "file")]),
            node("deep", Some(1), vec![scalar("kind", "file")]),
        ],
    }
}

#[test]
fn op_outputs_are_canonical() {
    let r = Op::or(vec![3, 1, 3], vec![2, 2, 0]);
    assert_eq!(r, vec![0, 1, 2, 3]);
    let r = Op::and(vec![5, 1, 1, 9], vec![9, 9, 1]);
    assert_eq!(r, vec![1, 9]);
    let r = Op::and_not(vec![1], vec![4, 1, 4, 2]);
    assert_eq!(r, vec![2, 4]);
}

#[test]
fn op_subtract_is_right_minus_left() {
    // result = right minus left, never the other way around
    let r = Op::and_not(vec![1, 2], vec![1, 2, 3]);
    assert_eq!(r, vec![3]);
    let r = Op::and_not(vec![1, 2, 3], vec![1, 2]);
    assert_eq!(r, Vec::<usize>::new());
}

#[test]
fn op_subtract_self_is_empty() {
    let a = vec![4, 2, 7, 2];
    let r = Op::and_not(a.clone(), a);
    assert_eq!(r, Vec::<usize>::new());
}

#[test]
fn op_union_self_is_dedup() {
    let a = vec![4, 2, 7, 2];
    let r = Op::or(a.clone(), a);
    assert_eq!(r, vec![2, 4, 7]);
}

#[test]
fn op_intersect_with_empty_is_empty() {
    let r = Op::and(vec![1, 2, 3], Vec::new());
    assert_eq!(r, Vec::<usize>::new());
    let r = Op::and(Vec::new(), vec![1, 2, 3]);
    assert_eq!(r, Vec::<usize>::new());
}

#[test]
fn fixed_method_is_exact_equality() {
    let m = MatcherMethod::new(&MatchMethod::Fixed, "foo").unwrap();
    assert!(m.is_match("foo", "foo"));
    assert!(!m.is_match("foo", "fo"));
    assert!(!m.is_match("foo", "fooo"));
    assert!(!m.is_match("foo", ""));
}

#[test]
fn wildcard_star_matches_everything() {
    let m = MatcherMethod::new(&MatchMethod::Wildcard, "*").unwrap();
    assert!(m.is_match("*", ""));
    assert!(m.is_match("*", "anything at all"));
}

#[test]
fn wildcard_question_matches_one_character() {
    let m = MatcherMethod::new(&MatchMethod::Wildcard, "a?c").unwrap();
    assert!(m.is_match("a?c", "abc"));
    assert!(m.is_match("a?c", "axc"));
    assert!(!m.is_match("a?c", "ac"));
    assert!(!m.is_match("a?c", "abbc"));
}

#[test]
fn wildcard_mixed_pattern() {
    let m = MatcherMethod::new(&MatchMethod::Wildcard, "a*z").unwrap();
    assert!(m.is_match("a*z", "az"));
    assert!(m.is_match("a*z", "abcz"));
    assert!(!m.is_match("a*z", "abc"));
}

#[test]
fn regex_anchored_matches_only_exact() {
    let m = MatcherMethod::new(&MatchMethod::Regex, "^foo$").unwrap();
    assert!(m.is_match("^foo$", "foo"));
    assert!(!m.is_match("^foo$", "afoo"));
    assert!(!m.is_match("^foo$", "foob"));
}

#[test]
fn regex_invalid_pattern_is_rejected() {
    let r = MatcherMethod::new(&MatchMethod::Regex, "[");
    assert!(matches!(r, Err(QueryError::InvalidPattern)));
    let tree = sample_tree();
    let r = match_query(&tree, &vec![0], QueryType::Name, MatchMethod::Regex, "[");
    assert_eq!(r.unwrap_err(), QueryError::InvalidPattern);
}

#[test]
fn fuzzy_matches_subsequence() {
    let m = MatcherMethod::new(&MatchMethod::Fuzzy, "hw").unwrap();
    assert!(m.is_match("hw", "hello_world"));
    assert!(!m.is_match("xyz", "hello"));
}

#[test]
fn node_name_query() {
    let tree = sample_tree();
    let ids = match_query(&tree, &vec![0, 1, 2, 3], QueryType::Name, MatchMethod::Fixed, "left")
        .unwrap();
    assert_eq!(ids, vec![1]);
}

#[test]
fn nested_attribute_matched_by_dotted_name_only() {
    let tree = sample_tree();
    let all = vec![0, 1, 2, 3];
    let ids =
        match_query(&tree, &all, QueryType::AttributeName, MatchMethod::Fixed, "outer.inner")
            .unwrap();
    assert_eq!(ids, vec![1]);
    let ids = match_query(&tree, &all, QueryType::AttributeName, MatchMethod::Fixed, "inner")
        .unwrap();
    assert_eq!(ids, Vec::<usize>::new());
}

#[test]
fn attribute_name_and_value_query() {
    let tree = sample_tree();
    let all = vec![0, 1, 2, 3];
    let ids = match_attribute_query(
        &tree,
        &all,
        "outer.inner",
        MatchMethod::Fixed,
        "v",
        MatchMethod::Fixed,
    )
    .unwrap();
    assert_eq!(ids, vec![1]);
    let ids = match_attribute_query(
        &tree,
        &all,
        "outer.inner",
        MatchMethod::Fixed,
        "other",
        MatchMethod::Fixed,
    )
    .unwrap();
    assert_eq!(ids, Vec::<usize>::new());
    let ids =
        match_attribute_query(&tree, &all, "kind", MatchMethod::Fixed, "file", MatchMethod::Fixed)
            .unwrap();
    assert_eq!(ids, vec![2, 3]);
}

#[test]
fn missing_node_ids_are_skipped() {
    let tree = sample_tree();
    let ids = match_query(&tree, &vec![0, 42], QueryType::Name, MatchMethod::Fixed, "root")
        .unwrap();
    assert_eq!(ids, vec![0]);
}

#[test]
fn match_query_output_is_canonical() {
    let tree = sample_tree();
    // duplicated, unsorted candidates; every node name matches the wildcard
    let ids = match_query(&tree, &vec![2, 0, 1, 0, 2], QueryType::Name, MatchMethod::Wildcard, "*")
        .unwrap();
    assert_eq!(ids, vec![0, 1, 2]);
}

#[test]
fn attribute_count_counts_leaves() {
    let tree = sample_tree();
    // root: kind; left: outer.inner; right: kind; deep: kind
    assert_eq!(attribute_count(&tree), 4);
    let tree = Tree {
        nodes: vec![node(
            "n",
            None,
            vec![nested("a", vec![scalar("b", "1"), scalar("c", "2")]), scalar("d", "3")],
        )],
    };
    assert_eq!(attribute_count(&tree), 3);
}

#[test]
fn find_vfiles_reports_first_level_handles() {
    let tree = Tree {
        nodes: vec![
            node("plain", None, vec![scalar("kind", "dir")]),
            node(
                "file",
                Some(0),
                vec![Attribute {
                    name: "data".to_string(),
                    value: AttrValue::File(FileHandle {
                        size: 0,
                        source: FileSource::Bytes(Vec::new()),
                    }),
                }],
            ),
        ],
    };
    assert_eq!(find_vfiles(&tree), vec![1]);
}

#[test]
fn filter_facade_boolean_combination() {
    let tree = sample_tree();
    let q = Query::Or(
        Box::new(Query::NodeName(MatchMethod::Fixed, "left".to_string())),
        Box::new(Query::NodeName(MatchMethod::Fixed, "right".to_string())),
    );
    assert_eq!(Filter::tree(&tree, &q).unwrap(), vec![1, 2]);
    let q = Query::And(
        Box::new(Query::AttributeValue(
            MatchMethod::Fixed,
            "kind".to_string(),
            MatchMethod::Fixed,
            "file".to_string(),
        )),
        Box::new(Query::NodeName(MatchMethod::Fixed, "deep".to_string())),
    );
    assert_eq!(Filter::tree(&tree, &q).unwrap(), vec![3]);
    let q = Query::AndNot(
        Box::new(Query::NodeName(MatchMethod::Fixed, "root".to_string())),
        Box::new(Query::NodeName(MatchMethod::Wildcard, "*".to_string())),
    );
    assert_eq!(Filter::tree(&tree, &q).unwrap(), vec![1, 2, 3]);
}

#[test]
fn filter_path_scopes_to_subtree() {
    let tree = sample_tree();
    let q = Query::NodeName(MatchMethod::Wildcard, "*".to_string());
    let path = vec!["root".to_string(), "left".to_string()];
    assert_eq!(Filter::path(&tree, &q, &path).unwrap(), vec![1, 3]);
}

#[test]
fn filter_path_invalid_path_fails_before_evaluation() {
    let tree = sample_tree();
    // the pattern is invalid too, but the path error comes first: no node
    // evaluation and no pattern compile happens
    let q = Query::NodeName(MatchMethod::Regex, "[".to_string());
    let path = vec!["no".to_string(), "such".to_string()];
    assert_eq!(Filter::path(&tree, &q, &path).unwrap_err(), QueryError::InvalidPath);
}

#[test]
fn filter_nodes_invalid_pattern() {
    let tree = sample_tree();
    let q = Query::NodeName(MatchMethod::Regex, "[".to_string());
    assert_eq!(Filter::nodes(&tree, &q, &vec![0]).unwrap_err(), QueryError::InvalidPattern);
}
