//! Extraction of a time-ordered view of timestamp attributes.
//!
//! The traversal mirrors the attribute matcher's recursive descent and
//! dotted-path rule, but collects every timestamp leaf inside an inclusive
//! time range instead of testing a pattern.  Entries are gathered node by
//! node and globally sorted ascending by time as a final step.
use vstd::prelude::*;
use vstd::string::*;
use vstd::multiset::Multiset;

use crate::QueryError;
use crate::attribute::spec_dotted;
use crate::attribute::dotted_name;
use crate::filter::lemma_canonical_unique;
use crate::filter::strictly_sorted;
use crate::tree::AttrValue;
use crate::tree::Attribute;
use crate::tree::Node;
use crate::tree::Tree;
use crate::tree::is_under;
use crate::tree::resolve_path;

verus! {

broadcast use vstd::seq_lib::group_to_multiset_ensures;

/// One timeline entry: a timestamp value, the dotted name of the attribute
/// that held it, and the owning node's id.
#[derive(Debug, Clone)]
pub struct TimeInfo {
    pub time: i64,
    pub attribute_name: String,
    pub id: usize,
}

/// The mathematical shadow of a [`TimeInfo`], with the name as a character
/// sequence.
pub struct TimeEntry {
    pub time: i64,
    pub name: Seq<char>,
    pub id: usize,
}

/// The entry a collected record stands for.
pub open spec fn entry_of(t: TimeInfo) -> TimeEntry {
    TimeEntry { time: t.time, name: t.attribute_name@, id: t.id }
}

/// The entries a sequence of collected records stands for.
pub open spec fn entries_of(s: Seq<TimeInfo>) -> Seq<TimeEntry> {
    s.map_values(|t: TimeInfo| entry_of(t))
}

/// Ascending by time; ties may stand in any order.
pub open spec fn sorted_by_time(s: Seq<TimeInfo>) -> bool {
    forall|i: int, j: int| 0 <= i < j < s.len() ==> s[i].time <= s[j].time
}

/// The timeline entries one attribute contributes under the dotted path
/// `prefix`: its in-range timestamp if it is a timestamp leaf, and the
/// contributions of its children if it nests further attributes.
pub open spec fn attr_times(
    prefix: Seq<char>,
    id: usize,
    a: Attribute,
    min_time: i64,
    max_time: i64,
) -> Seq<TimeEntry>
    decreases a,
{
    match a.value {
        AttrValue::Nested(children) => attrs_times(
            spec_dotted(prefix, a.name@),
            id,
            children@,
            min_time,
            max_time,
        ),
        AttrValue::Reflect(children) => attrs_times(
            spec_dotted(prefix, a.name@),
            id,
            children@,
            min_time,
            max_time,
        ),
        AttrValue::Time(t) => if min_time <= t && t <= max_time {
            seq![TimeEntry { time: t, name: spec_dotted(prefix, a.name@), id }]
        } else {
            Seq::<TimeEntry>::empty()
        },
        _ => Seq::<TimeEntry>::empty(),
    }
}

/// The timeline entries an attribute list contributes, in list order.
pub open spec fn attrs_times(
    prefix: Seq<char>,
    id: usize,
    attrs: Seq<Attribute>,
    min_time: i64,
    max_time: i64,
) -> Seq<TimeEntry>
    decreases attrs,
{
    if attrs.len() == 0 {
        Seq::<TimeEntry>::empty()
    } else {
        attrs_times(prefix, id, attrs.drop_last(), min_time, max_time) + attr_times(
            prefix,
            id,
            attrs[attrs.len() - 1],
            min_time,
            max_time,
        )
    }
}

/// The timeline entries one node contributes.
pub open spec fn node_times(id: usize, node: Node, min_time: i64, max_time: i64) -> Seq<
    TimeEntry,
> {
    attrs_times(Seq::<char>::empty(), id, node.attributes@, min_time, max_time)
}

/// The timeline entries a candidate id sequence contributes, in sequence
/// order; an id outside the arena contributes nothing.
pub open spec fn nodes_times(
    tree_nodes: Seq<Node>,
    ids: Seq<usize>,
    min_time: i64,
    max_time: i64,
) -> Seq<TimeEntry>
    decreases ids,
{
    if ids.len() == 0 {
        Seq::<TimeEntry>::empty()
    } else {
        nodes_times(tree_nodes, ids.drop_last(), min_time, max_time) + (if ids[ids.len() - 1]
            < tree_nodes.len() {
            node_times(
                ids[ids.len() - 1],
                tree_nodes[ids[ids.len() - 1] as int],
                min_time,
                max_time,
            )
        } else {
            Seq::<TimeEntry>::empty()
        })
    }
}

/// Every entry an attribute contributes lies inside the range.
pub proof fn lemma_attr_times_in_range(
    prefix: Seq<char>,
    id: usize,
    a: Attribute,
    min_time: i64,
    max_time: i64,
)
    ensures
        forall|k: int|
            0 <= k < attr_times(prefix, id, a, min_time, max_time).len() ==> min_time <= (
            #[trigger] attr_times(prefix, id, a, min_time, max_time)[k]).time <= max_time,
    decreases a,
{
    let s = attr_times(prefix, id, a, min_time, max_time);
    match a.value {
        AttrValue::Nested(children) => {
            lemma_attrs_times_in_range(
                spec_dotted(prefix, a.name@),
                id,
                children@,
                min_time,
                max_time,
            );
            let q = attrs_times(spec_dotted(prefix, a.name@), id, children@, min_time, max_time);
            assert forall|k: int| 0 <= k < s.len() implies min_time <= (#[trigger] s[k]).time
                <= max_time by {
                assert(s[k] == q[k]);
            }
        },
        AttrValue::Reflect(children) => {
            lemma_attrs_times_in_range(
                spec_dotted(prefix, a.name@),
                id,
                children@,
                min_time,
                max_time,
            );
            let q = attrs_times(spec_dotted(prefix, a.name@), id, children@, min_time, max_time);
            assert forall|k: int| 0 <= k < s.len() implies min_time <= (#[trigger] s[k]).time
                <= max_time by {
                assert(s[k] == q[k]);
            }
        },
        _ => {},
    }
}

/// Every entry an attribute list contributes lies inside the range.
pub proof fn lemma_attrs_times_in_range(
    prefix: Seq<char>,
    id: usize,
    attrs: Seq<Attribute>,
    min_time: i64,
    max_time: i64,
)
    ensures
        forall|k: int|
            0 <= k < attrs_times(prefix, id, attrs, min_time, max_time).len() ==> min_time <= (
            #[trigger] attrs_times(prefix, id, attrs, min_time, max_time)[k]).time <= max_time,
    decreases attrs,
{
    if attrs.len() > 0 {
        lemma_attrs_times_in_range(prefix, id, attrs.drop_last(), min_time, max_time);
        lemma_attr_times_in_range(prefix, id, attrs[attrs.len() - 1], min_time, max_time);
        let s = attrs_times(prefix, id, attrs, min_time, max_time);
        let p = attrs_times(prefix, id, attrs.drop_last(), min_time, max_time);
        let q = attr_times(prefix, id, attrs[attrs.len() - 1], min_time, max_time);
        assert(s == p + q);
        assert forall|k: int| 0 <= k < s.len() implies min_time <= (#[trigger] s[k]).time
            <= max_time by {
            if k < p.len() {
                assert(s[k] == p[k]);
            } else {
                assert(s[k] == q[k - p.len()]);
            }
        }
    }
}

/// Every entry a candidate id sequence contributes lies inside the range.
pub proof fn lemma_nodes_times_in_range(
    tree_nodes: Seq<Node>,
    ids: Seq<usize>,
    min_time: i64,
    max_time: i64,
)
    ensures
        forall|k: int|
            0 <= k < nodes_times(tree_nodes, ids, min_time, max_time).len() ==> min_time <= (
            #[trigger] nodes_times(tree_nodes, ids, min_time, max_time)[k]).time <= max_time,
    decreases ids,
{
    if ids.len() > 0 {
        lemma_nodes_times_in_range(tree_nodes, ids.drop_last(), min_time, max_time);
        let last = ids[ids.len() - 1];
        let s = nodes_times(tree_nodes, ids, min_time, max_time);
        let p = nodes_times(tree_nodes, ids.drop_last(), min_time, max_time);
        let q = if last < tree_nodes.len() {
            node_times(last, tree_nodes[last as int], min_time, max_time)
        } else {
            Seq::<TimeEntry>::empty()
        };
        if last < tree_nodes.len() {
            lemma_attrs_times_in_range(
                Seq::<char>::empty(),
                last,
                tree_nodes[last as int].attributes@,
                min_time,
                max_time,
            );
        }
        assert(s == p + q);
        assert forall|k: int| 0 <= k < s.len() implies min_time <= (#[trigger] s[k]).time
            <= max_time by {
            if k < p.len() {
                assert(s[k] == p[k]);
            } else {
                assert(s[k] == q[k - p.len()]);
            }
        }
    }
}

/// Collects the in-range timestamp leaves under one attribute, extending the
/// dotted path like the attribute matcher does.
#[verifier::loop_isolation(false)]
fn match_time_rec(
    dotted_attrib: &String,
    node_id: usize,
    attribute: &Attribute,
    min_time: i64,
    max_time: i64,
) -> (r: Vec<TimeInfo>)
    ensures
        entries_of(r@) == attr_times(dotted_attrib@, node_id, *attribute, min_time, max_time),
    decreases *attribute,
{
    let mut times: Vec<TimeInfo> = Vec::new();
    match &attribute.value {
        AttrValue::Nested(children) => {
            let child_prefix = dotted_name(dotted_attrib, &attribute.name);
            let mut i: usize = 0;
            while i < children.len()
                invariant
                    i <= children@.len(),
                    entries_of(times@) == attrs_times(
                        child_prefix@,
                        node_id,
                        children@.take(i as int),
                        min_time,
                        max_time,
                    ),
                decreases children@.len() - i,
            {
                proof {
                    assert(decreases_to!(*attribute => attribute.value));
                    assert(decreases_to!(attribute.value => attribute.value->Nested_0));
                    assert(decreases_to!(attribute.value->Nested_0 => attribute.value->Nested_0@));
                    assert(decreases_to!(
                        attribute.value->Nested_0@ => attribute.value->Nested_0@[i as int]));
                }
                let mut sub = match_time_rec(
                    &child_prefix,
                    node_id,
                    &children[i],
                    min_time,
                    max_time,
                );
                let ghost prev = times@;
                let ghost subv = sub@;
                times.append(&mut sub);
                proof {
                    let t = children@.take(i as int + 1);
                    assert(t.drop_last() =~= children@.take(i as int));
                    assert(t[t.len() - 1] == children@[i as int]);
                    assert(entries_of(prev + subv) =~= entries_of(prev) + entries_of(subv));
                }
                i += 1;
            }
            proof {
                assert(children@.take(children@.len() as int) == children@);
            }
        },
        AttrValue::Reflect(children) => {
            let child_prefix = dotted_name(dotted_attrib, &attribute.name);
            let mut i: usize = 0;
            while i < children.len()
                invariant
                    i <= children@.len(),
                    entries_of(times@) == attrs_times(
                        child_prefix@,
                        node_id,
                        children@.take(i as int),
                        min_time,
                        max_time,
                    ),
                decreases children@.len() - i,
            {
                proof {
                    assert(decreases_to!(*attribute => attribute.value));
                    assert(decreases_to!(attribute.value => attribute.value->Reflect_0));
                    assert(decreases_to!(attribute.value->Reflect_0 => attribute.value->Reflect_0@));
                    assert(decreases_to!(
                        attribute.value->Reflect_0@ => attribute.value->Reflect_0@[i as int]));
                }
                let mut sub = match_time_rec(
                    &child_prefix,
                    node_id,
                    &children[i],
                    min_time,
                    max_time,
                );
                let ghost prev = times@;
                let ghost subv = sub@;
                times.append(&mut sub);
                proof {
                    let t = children@.take(i as int + 1);
                    assert(t.drop_last() =~= children@.take(i as int));
                    assert(t[t.len() - 1] == children@[i as int]);
                    assert(entries_of(prev + subv) =~= entries_of(prev) + entries_of(subv));
                }
                i += 1;
            }
            proof {
                assert(children@.take(children@.len() as int) == children@);
            }
        },
        AttrValue::Time(t) => {
            if min_time <= *t && *t <= max_time {
                let name = dotted_name(dotted_attrib, &attribute.name);
                let info = TimeInfo { time: *t, attribute_name: name, id: node_id };
                let ghost e = entry_of(info);
                times.push(info);
                proof {
                    assert(entries_of(times@) =~= seq![e]);
                }
            }
        },
        _ => {},
    }
    proof {
        assert(entries_of(times@) =~= attr_times(
            dotted_attrib@,
            node_id,
            *attribute,
            min_time,
            max_time,
        ));
    }
    times
}

/// Collects the in-range timestamp leaves of one node.
#[verifier::loop_isolation(false)]
fn match_time(node: &Node, node_id: usize, min_time: i64, max_time: i64) -> (r: Vec<TimeInfo>)
    ensures
        entries_of(r@) == node_times(node_id, *node, min_time, max_time),
{
    let empty = String::new();
    let mut times: Vec<TimeInfo> = Vec::new();
    let mut i: usize = 0;
    while i < node.attributes.len()
        invariant
            i <= node.attributes@.len(),
            empty@ == Seq::<char>::empty(),
            entries_of(times@) == attrs_times(
                Seq::<char>::empty(),
                node_id,
                node.attributes@.take(i as int),
                min_time,
                max_time,
            ),
        decreases node.attributes@.len() - i,
    {
        let mut sub = match_time_rec(&empty, node_id, &node.attributes[i], min_time, max_time);
        let ghost prev = times@;
        let ghost subv = sub@;
        times.append(&mut sub);
        proof {
            let t = node.attributes@.take(i as int + 1);
            assert(t.drop_last() =~= node.attributes@.take(i as int));
            assert(t[t.len() - 1] == node.attributes@[i as int]);
            assert(entries_of(prev + subv) =~= entries_of(prev) + entries_of(subv));
        }
        i += 1;
    }
    proof {
        assert(node.attributes@.take(node.attributes@.len() as int) == node.attributes@);
    }
    times
}

/// Inserts a record before the first strictly later one, keeping the
/// sequence ascending by time.
#[verifier::loop_isolation(false)]
fn insert_by_time(r: &mut Vec<TimeInfo>, x: TimeInfo)
    requires
        sorted_by_time(old(r)@),
    ensures
        sorted_by_time(final(r)@),
        entries_of(final(r)@).to_multiset() == entries_of(old(r)@).to_multiset().insert(
            entry_of(x),
        ),
{
    let mut i: usize = 0;
    while i < r.len() && r[i].time <= x.time
        invariant
            i <= r.len(),
            r@ == old(r)@,
            forall|j: int| 0 <= j < i ==> r@[j].time <= x.time,
        decreases r.len() - i,
    {
        i += 1;
    }
    let ghost before = r@;
    let ghost e = entry_of(x);
    r.insert(i, x);
    proof {
        let s = before.insert(i as int, x);
        assert(r@ == s);
        assert forall|a: int, b: int| 0 <= a < b < s.len() implies s[a].time <= s[b].time by {
            if b < i {
                assert(s[a] == before[a] && s[b] == before[b]);
            } else if a > i {
                assert(s[a] == before[a - 1] && s[b] == before[b - 1]);
            } else if a == i {
                assert(s[b] == before[b - 1]);
                assert(before[i as int].time > x.time);
            } else if b == i {
                assert(s[a] == before[a]);
            } else {
                assert(s[a] == before[a] && s[b] == before[b - 1]);
                if i < before.len() {
                    assert(before[i as int].time > x.time);
                }
            }
        }
        let ms = entries_of(s);
        let mb = entries_of(before);
        assert(ms.remove(i as int) =~= mb);
        assert(ms[i as int] == e);
        assert(ms.remove(i as int).to_multiset() =~= ms.to_multiset().remove(e));
        assert(ms.contains(e));
        assert(ms.to_multiset().count(e) > 0);
        assert(ms.to_multiset() =~= mb.to_multiset().insert(e));
    }
}

/// Sorts collected records ascending by time; the entries are kept exactly,
/// as a multiset.
fn sort_by_time(v: Vec<TimeInfo>) -> (r: Vec<TimeInfo>)
    ensures
        sorted_by_time(r@),
        entries_of(r@).to_multiset() == entries_of(v@).to_multiset(),
{
    let mut rest = v;
    let mut out: Vec<TimeInfo> = Vec::new();
    loop
        invariant
            sorted_by_time(out@),
            entries_of(out@).to_multiset().add(entries_of(rest@).to_multiset()) == entries_of(
                v@,
            ).to_multiset(),
        decreases rest@.len(),
    {
        let ghost rest0 = rest@;
        match rest.pop() {
            None => {
                proof {
                    assert(entries_of(rest0) =~= Seq::<TimeEntry>::empty());
                    assert(entries_of(out@).to_multiset().add(
                        Multiset::<TimeEntry>::empty(),
                    ) =~= entries_of(out@).to_multiset());
                }
                return out;
            },
            Some(x) => {
                let ghost preout = out@;
                insert_by_time(&mut out, x);
                proof {
                    assert(rest0.drop_last() == rest@);
                    assert(entries_of(rest0) =~= entries_of(rest@).push(entry_of(x)));
                    assert(entries_of(rest0).to_multiset() =~= entries_of(
                        rest@,
                    ).to_multiset().insert(entry_of(x)));
                    assert(entries_of(out@).to_multiset().add(entries_of(rest@).to_multiset())
                        =~= entries_of(v@).to_multiset());
                }
            },
        }
    }
}

/// Builds timelines: time-ordered projections of every in-range timestamp
/// attribute over a node set.
pub struct Timeline {}

impl Timeline {
    /// The timeline of the given candidate ids: every timestamp attribute
    /// with `min_time <= t <= max_time` yields one entry, and the result is
    /// sorted ascending by time.  A missing id contributes nothing.
    pub fn nodes(tree: &Tree, nodes: &Vec<usize>, min_time: i64, max_time: i64) -> (r: Vec<
        TimeInfo,
    >)
        ensures
            sorted_by_time(r@),
            entries_of(r@).to_multiset() == nodes_times(
                tree.nodes@,
                nodes@,
                min_time,
                max_time,
            ).to_multiset(),
            forall|k: int| 0 <= k < r@.len() ==> min_time <= #[trigger] r@[k].time <= max_time,
    {
        let mut collected: Vec<TimeInfo> = Vec::new();
        let mut i: usize = 0;
        while i < nodes.len()
            invariant
                i <= nodes@.len(),
                entries_of(collected@) == nodes_times(
                    tree.nodes@,
                    nodes@.take(i as int),
                    min_time,
                    max_time,
                ),
            decreases nodes@.len() - i,
        {
            let id = nodes[i];
            let ghost prev = collected@;
            let ghost t = nodes@.take(i as int + 1);
            if id < tree.nodes.len() {
                let mut sub = match_time(&tree.nodes[id], id, min_time, max_time);
                let ghost subv = sub@;
                collected.append(&mut sub);
                proof {
                    assert(t.drop_last() =~= nodes@.take(i as int));
                    assert(t[t.len() - 1] == nodes@[i as int]);
                    assert(entries_of(prev + subv) =~= entries_of(prev) + entries_of(subv));
                }
            } else {
                proof {
                    assert(t.drop_last() =~= nodes@.take(i as int));
                    assert(t[t.len() - 1] == nodes@[i as int]);
                    assert(entries_of(prev) =~= entries_of(prev) + Seq::<TimeEntry>::empty());
                }
            }
            i += 1;
        }
        proof {
            assert(nodes@.take(nodes@.len() as int) == nodes@);
        }
        let r = sort_by_time(collected);
        proof {
            lemma_nodes_times_in_range(tree.nodes@, nodes@, min_time, max_time);
            let spec_entries = nodes_times(tree.nodes@, nodes@, min_time, max_time);
            assert forall|k: int| 0 <= k < r@.len() implies min_time <= #[trigger] r@[k].time
                <= max_time by {
                assert(entries_of(r@)[k] == entry_of(r@[k]));
                assert(entries_of(r@).contains(entry_of(r@[k])));
                assert(entries_of(r@).to_multiset().count(entry_of(r@[k])) > 0);
                assert(spec_entries.to_multiset().count(entry_of(r@[k])) > 0);
                assert(spec_entries.contains(entry_of(r@[k])));
                let m = choose|m: int|
                    0 <= m < spec_entries.len() && #[trigger] spec_entries[m] == entry_of(r@[k]);
                assert(min_time <= spec_entries[m].time <= max_time);
            }
        }
        r
    }

    /// The timeline over every node in the tree.
    pub fn tree(tree: &Tree, min_time: i64, max_time: i64) -> (r: Vec<TimeInfo>)
        requires
            tree.wf(),
        ensures
            sorted_by_time(r@),
            entries_of(r@).to_multiset() == nodes_times(
                tree.nodes@,
                all_ids(tree.nodes@.len() as int),
                min_time,
                max_time,
            ).to_multiset(),
            forall|k: int| 0 <= k < r@.len() ==> min_time <= #[trigger] r@[k].time <= max_time,
    {
        let ids = match tree.children_rec(None) {
            Some(ids) => ids,
            None => Vec::new(),
        };
        let _nlen: usize = tree.nodes.len();
        proof {
            assert(tree.nodes@.len() <= usize::MAX);
            lemma_all_ids_props(tree.nodes@.len() as int);
            lemma_canonical_unique(ids@, all_ids(tree.nodes@.len() as int));
        }
        Timeline::nodes(tree, &ids, min_time, max_time)
    }

    /// The timeline over the subtree at `path`.  Fails exactly when the path
    /// does not resolve.
    pub fn path(tree: &Tree, path: &Vec<String>, min_time: i64, max_time: i64) -> (r: Result<
        Vec<TimeInfo>,
        QueryError,
    >)
        requires
            tree.wf(),
        ensures
            (r is Ok) <==> resolve_path(tree.nodes@, path@) is Some,
            r matches Err(e) ==> e == QueryError::InvalidPath,
            resolve_path(tree.nodes@, path@) matches Some(t) ==> (r matches Ok(times)
                && sorted_by_time(times@) && entries_of(times@).to_multiset() == nodes_times(
                tree.nodes@,
                ids_under(tree.nodes@, t as int, tree.nodes@.len() as int),
                min_time,
                max_time,
            ).to_multiset() && (forall|k: int|
                0 <= k < times@.len() ==> min_time <= #[trigger] times@[k].time <= max_time)),
    {
        let ids = match tree.children_rec(Some(path)) {
            Some(ids) => ids,
            None => {
                return Err(QueryError::InvalidPath);
            },
        };
        let _nlen: usize = tree.nodes.len();
        proof {
            assert(tree.nodes@.len() <= usize::MAX);
            let t = resolve_path(tree.nodes@, path@)->Some_0;
            lemma_ids_under_props(tree.nodes@, t as int, tree.nodes@.len() as int);
            lemma_canonical_unique(
                ids@,
                ids_under(tree.nodes@, t as int, tree.nodes@.len() as int),
            );
        }
        Ok(Timeline::nodes(tree, &ids, min_time, max_time))
    }
}

/// The ids `0, 1, ..., n-1`, ascending.
pub open spec fn all_ids(n: int) -> Seq<usize>
    decreases n,
{
    if n <= 0 {
        Seq::<usize>::empty()
    } else {
        all_ids(n - 1).push((n - 1) as usize)
    }
}

/// `all_ids(n)` is canonical and holds exactly the ids below `n`.
pub proof fn lemma_all_ids_props(n: int)
    requires
        n <= usize::MAX,
    ensures
        strictly_sorted(all_ids(n)),
        forall|x: usize| #[trigger] all_ids(n).contains(x) <==> x < n,
        all_ids(n).len() == if n <= 0 {
            0
        } else {
            n
        },
    decreases n,
{
    if n > 0 {
        lemma_all_ids_props(n - 1);
        let s = all_ids(n);
        let p = all_ids(n - 1);
        assert(s == p.push((n - 1) as usize));
        assert forall|x: usize| #[trigger] s.contains(x) implies x < n by {
            let k = choose|k: int| 0 <= k < s.len() && #[trigger] s[k] == x;
            if k < p.len() {
                assert(p[k] == x);
                assert(p.contains(x));
            }
        }
        assert forall|x: usize| x < n implies #[trigger] s.contains(x) by {
            if x < n - 1 {
                assert(p.contains(x));
                let k = choose|k: int| 0 <= k < p.len() && #[trigger] p[k] == x;
                assert(s[k] == x);
            } else {
                assert(s[s.len() - 1] == x);
            }
        }
        assert forall|a: int, b: int| 0 <= a < b < s.len() implies s[a] < s[b] by {
            if b < p.len() {
            } else {
                assert(s[b] == (n - 1) as usize);
                assert(p.contains(p[a]));
            }
        }
    }
}

/// The ids below `n` whose parent chain reaches `t`, ascending.
pub open spec fn ids_under(nodes: Seq<Node>, t: int, n: int) -> Seq<usize>
    decreases n,
{
    if n <= 0 {
        Seq::<usize>::empty()
    } else if is_under(nodes, n - 1, t) {
        ids_under(nodes, t, n - 1).push((n - 1) as usize)
    } else {
        ids_under(nodes, t, n - 1)
    }
}

/// `ids_under` is canonical and holds exactly the in-arena ids under `t`.
pub proof fn lemma_ids_under_props(nodes: Seq<Node>, t: int, n: int)
    requires
        n <= nodes.len(),
        n <= usize::MAX,
    ensures
        strictly_sorted(ids_under(nodes, t, n)),
        forall|x: usize|
            #[trigger] ids_under(nodes, t, n).contains(x) <==> x < n && is_under(
                nodes,
                x as int,
                t,
            ),
    decreases n,
{
    if n > 0 {
        lemma_ids_under_props(nodes, t, n - 1);
        let s = ids_under(nodes, t, n);
        let p = ids_under(nodes, t, n - 1);
        if is_under(nodes, n - 1, t) {
            assert(s == p.push((n - 1) as usize));
            assert forall|x: usize| #[trigger] s.contains(x) implies x < n && is_under(
                nodes,
                x as int,
                t,
            ) by {
                let k = choose|k: int| 0 <= k < s.len() && #[trigger] s[k] == x;
                if k < p.len() {
                    assert(p[k] == x);
                    assert(p.contains(x));
                }
            }
            assert forall|x: usize| x < n && is_under(nodes, x as int, t) implies #[trigger] s.contains(
                x,
            ) by {
                if x < n - 1 {
                    assert(p.contains(x));
                    let k = choose|k: int| 0 <= k < p.len() && #[trigger] p[k] == x;
                    assert(s[k] == x);
                } else {
                    assert(s[s.len() - 1] == x);
                }
            }
            assert forall|a: int, b: int| 0 <= a < b < s.len() implies s[a] < s[b] by {
                if b < p.len() {
                } else {
                    assert(s[b] == (n - 1) as usize);
                    assert(p.contains(p[a]));
                }
            }
        } else {
            assert(s == p);
            assert forall|x: usize| #[trigger] s.contains(x) implies x < n && is_under(
                nodes,
                x as int,
                t,
            ) by {}
            assert forall|x: usize| x < n && is_under(nodes, x as int, t) implies #[trigger] s.contains(
                x,
            ) by {
                assert(x != (n - 1) as usize);
                assert(p.contains(x));
            }
        }
    }
}

} // verus!
