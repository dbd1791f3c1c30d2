//! Boolean algebra on result sets, and the query facade.
//!
//! A result set is a `Vec<usize>` of node ids in canonical form: free of
//! duplicates and sorted ascending.  The operators accept arbitrary input
//! vectors and always return the canonical form.
use vstd::prelude::*;

use crate::QueryError;
use crate::attribute::MatchMethod;
use crate::attribute::QueryType;
use crate::attribute::match_attribute_query;
use crate::attribute::match_query;
use crate::attribute::method_compiles;
use crate::attribute::node_attrs_nv_match;
use crate::attribute::node_query_match;
use crate::data::DataMethod;
use crate::data::data_compiles;
use crate::data::node_data_match;
use crate::data::query_data;
use crate::timeline::all_ids;
use crate::timeline::ids_under;
use crate::timeline::lemma_all_ids_props;
use crate::timeline::lemma_ids_under_props;
use crate::tree::Node;
use crate::tree::Tree;
use crate::tree::resolve_path;

verus! {

/// Canonical form of a result set: ascending ids without duplicates.
pub open spec fn strictly_sorted(s: Seq<usize>) -> bool {
    forall|i: int, j: int| 0 <= i < j < s.len() ==> s[i] < s[j]
}

/// A strictly sorted sequence holds no element twice.
pub proof fn lemma_strictly_sorted_no_dup(s: Seq<usize>)
    requires
        strictly_sorted(s),
    ensures
        forall|i: int, j: int| 0 <= i < s.len() && 0 <= j < s.len() && i != j ==> s[i] != s[j],
{
}

/// Linear membership test.
pub(crate) fn vec_contains(v: &Vec<usize>, x: usize) -> (r: bool)
    ensures
        r == v@.contains(x),
{
    let mut i: usize = 0;
    while i < v.len()
        invariant
            i <= v.len(),
            forall|j: int| 0 <= j < i ==> v@[j] != x,
        decreases v.len() - i,
    {
        if v[i] == x {
            assert(v@.contains(x)) by {
                assert(v@[i as int] == x);
            }
            return true;
        }
        i += 1;
    }
    assert(!v@.contains(x));
    false
}

/// Inserts `x` at its sorted position unless it is already present.
pub(crate) fn insert_sorted_unique(r: &mut Vec<usize>, x: usize)
    requires
        strictly_sorted(old(r)@),
    ensures
        strictly_sorted(final(r)@),
        forall|y: usize| #[trigger] final(r)@.contains(y) <==> old(r)@.contains(y) || y == x,
{
    let mut i: usize = 0;
    while i < r.len() && r[i] < x
        invariant
            i <= r.len(),
            r@ == old(r)@,
            forall|j: int| 0 <= j < i ==> r@[j] < x,
        decreases r.len() - i,
    {
        i += 1;
    }
    if i < r.len() && r[i] == x {
        assert(old(r)@.contains(x)) by {
            assert(old(r)@[i as int] == x);
        }
        return ;
    }
    let ghost before = r@;
    r.insert(i, x);
    proof {
        let s = before.insert(i as int, x);
        assert(r@ == s);
        assert forall|a: int, b: int| 0 <= a < b < s.len() implies s[a] < s[b] by {
            if b < i {
                assert(s[a] == before[a] && s[b] == before[b]);
            } else if a > i {
                assert(s[a] == before[a - 1] && s[b] == before[b - 1]);
            } else if a == i {
                assert(s[a] == x && s[b] == before[b - 1]);
                assert(before[i as int] > x);
            } else if b == i {
                assert(s[b] == x && s[a] == before[a]);
            } else {
                // a < i < b
                assert(s[a] == before[a] && s[b] == before[b - 1]);
                if i < before.len() {
                    assert(before[i as int] > x);
                }
                assert(before[a] < x);
            }
        }
        assert forall|y: usize| #[trigger] s.contains(y) implies before.contains(y) || y == x by {
            let k = choose|k: int| 0 <= k < s.len() && #[trigger] s[k] == y;
            if k < i {
                assert(before[k] == y);
            } else if k > i {
                assert(before[k - 1] == y);
            }
        }
        assert forall|y: usize| before.contains(y) || y == x implies #[trigger] s.contains(y) by {
            if y == x {
                assert(s[i as int] == x);
            } else {
                let k = choose|k: int| 0 <= k < before.len() && #[trigger] before[k] == y;
                if k < i {
                    assert(s[k] == y);
                } else {
                    assert(s[k + 1] == y);
                }
            }
        }
    }
}

/// Implements the boolean operators (or, and, and not) for result sets.
pub struct Op {}

impl Op {
    /// Returns the ids of `right` that are absent from `left`, in canonical
    /// form.  Note the operand convention: the result is `right` minus
    /// `left`; callers depend on this asymmetry.
    pub fn and_not(left: Vec<usize>, right: Vec<usize>) -> (r: Vec<usize>)
        ensures
            strictly_sorted(r@),
            forall|x: usize| #[trigger] r@.contains(x) <==> right@.contains(x) && !left@.contains(
                x,
            ),
    {
        let mut result: Vec<usize> = Vec::new();
        let mut i: usize = 0;
        while i < right.len()
            invariant
                i <= right.len(),
                strictly_sorted(result@),
                forall|x: usize| #[trigger] result@.contains(x) <==> right@.take(i as int).contains(
                    x,
                ) && !left@.contains(x),
            decreases right.len() - i,
        {
            let id = right[i];
            proof {
                assert(right@.take(i as int + 1) == right@.take(i as int).push(right@[i as int]));
                lemma_take_push_contains(right@, i as int);
            }
            if !vec_contains(&left, id) {
                insert_sorted_unique(&mut result, id);
            } else {
                assert(forall|x: usize| #[trigger] right@.take(i as int + 1).contains(x) && !left@.contains(x)
                    ==> right@.take(i as int).contains(x) && !left@.contains(x));
            }
            i += 1;
        }
        proof {
            assert(right@.take(right@.len() as int) == right@);
        }
        result
    }

    /// Returns the ids present in both `left` and `right`, in canonical form.
    pub fn and(left: Vec<usize>, right: Vec<usize>) -> (r: Vec<usize>)
        ensures
            strictly_sorted(r@),
            forall|x: usize| #[trigger] r@.contains(x) <==> right@.contains(x) && left@.contains(x),
    {
        let mut result: Vec<usize> = Vec::new();
        let mut i: usize = 0;
        while i < right.len()
            invariant
                i <= right.len(),
                strictly_sorted(result@),
                forall|x: usize| #[trigger] result@.contains(x) <==> right@.take(i as int).contains(
                    x,
                ) && left@.contains(x),
            decreases right.len() - i,
        {
            let id = right[i];
            proof {
                lemma_take_push_contains(right@, i as int);
            }
            if vec_contains(&left, id) {
                insert_sorted_unique(&mut result, id);
            }
            i += 1;
        }
        proof {
            assert(right@.take(right@.len() as int) == right@);
        }
        result
    }

    /// Returns the ids present in either `left` or `right`, in canonical form.
    pub fn or(left: Vec<usize>, right: Vec<usize>) -> (r: Vec<usize>)
        ensures
            strictly_sorted(r@),
            forall|x: usize| #[trigger] r@.contains(x) <==> left@.contains(x) || right@.contains(x),
    {
        let mut result: Vec<usize> = Vec::new();
        let mut i: usize = 0;
        while i < left.len()
            invariant
                i <= left.len(),
                strictly_sorted(result@),
                forall|x: usize| #[trigger] result@.contains(x) <==> left@.take(i as int).contains(
                    x,
                ),
            decreases left.len() - i,
        {
            proof {
                lemma_take_push_contains(left@, i as int);
            }
            insert_sorted_unique(&mut result, left[i]);
            i += 1;
        }
        proof {
            assert(left@.take(left@.len() as int) == left@);
        }
        let mut j: usize = 0;
        while j < right.len()
            invariant
                j <= right.len(),
                strictly_sorted(result@),
                forall|x: usize| #[trigger] result@.contains(x) <==> left@.contains(x)
                    || right@.take(j as int).contains(x),
            decreases right.len() - j,
        {
            proof {
                lemma_take_push_contains(right@, j as int);
            }
            insert_sorted_unique(&mut result, right[j]);
            j += 1;
        }
        proof {
            assert(right@.take(right@.len() as int) == right@);
        }
        result
    }
}

/// Two canonical result sets with the same members are the same sequence:
/// the deduplicated ascending form of a set of ids is unique.
pub proof fn lemma_canonical_unique(s1: Seq<usize>, s2: Seq<usize>)
    requires
        strictly_sorted(s1),
        strictly_sorted(s2),
        forall|x: usize| #![trigger s1.contains(x)] #![trigger s2.contains(x)] s1.contains(x)
            <==> s2.contains(x),
    ensures
        s1 == s2,
    decreases s1.len(),
{
    if s1.len() == 0 {
        if s2.len() > 0 {
            assert(s2.contains(s2[0]));
        }
        assert(s1 =~= s2);
    } else {
        assert(s1.contains(s1[0]));
        assert(s2.contains(s2[0]));
        let k1 = choose|k: int| 0 <= k < s2.len() && #[trigger] s2[k] == s1[0];
        let k2 = choose|k: int| 0 <= k < s1.len() && #[trigger] s1[k] == s2[0];
        assert(s2[0] <= s2[k1] && s1[0] <= s1[k2]);
        assert(s1[0] == s2[0]);
        let t1 = s1.skip(1);
        let t2 = s2.skip(1);
        assert forall|x: usize| #![trigger t1.contains(x)] #![trigger t2.contains(x)] t1.contains(
            x,
        ) <==> t2.contains(x) by {
            lemma_skip_head_contains(s1, x);
            lemma_skip_head_contains(s2, x);
        }
        lemma_canonical_unique(t1, t2);
        assert(s1 =~= s2) by {
            assert(forall|i: int| 1 <= i < s1.len() ==> s1[i] == t1[i - 1] && s2[i] == t2[i - 1]);
        }
    }
}

/// In a strictly sorted sequence, an element lies in the tail exactly when it
/// lies in the whole sequence and is not the head.
proof fn lemma_skip_head_contains(s: Seq<usize>, x: usize)
    requires
        strictly_sorted(s),
        s.len() > 0,
    ensures
        s.skip(1).contains(x) <==> s.contains(x) && x != s[0],
{
    let t = s.skip(1);
    if t.contains(x) {
        let k = choose|k: int| 0 <= k < t.len() && #[trigger] t[k] == x;
        assert(s[k + 1] == x);
        assert(s[0] < s[k + 1]);
    }
    if s.contains(x) && x != s[0] {
        let k = choose|k: int| 0 <= k < s.len() && #[trigger] s[k] == x;
        assert(t[k - 1] == x);
    }
}

/// Subtracting a result set from itself leaves nothing: this is the
/// conclusion for any output of `Op::and_not` whose two operands are equal.
pub proof fn lemma_and_not_self_is_empty(a: Seq<usize>, r: Seq<usize>)
    requires
        strictly_sorted(r),
        forall|x: usize| #[trigger] r.contains(x) <==> a.contains(x) && !a.contains(x),
    ensures
        r == Seq::<usize>::empty(),
{
    if r.len() > 0 {
        assert(r.contains(r[0]));
    }
    assert(r =~= Seq::<usize>::empty());
}

/// Intersecting a result set with the empty set leaves nothing: this is the
/// conclusion for any output of `Op::and` whose right operand is empty.
pub proof fn lemma_and_with_empty_is_empty(a: Seq<usize>, r: Seq<usize>)
    requires
        strictly_sorted(r),
        forall|x: usize| #[trigger] r.contains(x) <==> Seq::<usize>::empty().contains(x)
            && a.contains(x),
    ensures
        r == Seq::<usize>::empty(),
{
    if r.len() > 0 {
        assert(r.contains(r[0]));
    }
    assert(r =~= Seq::<usize>::empty());
}

/// Joining a result set with itself yields exactly its canonical
/// (deduplicated, ascending) form: any output of `Op::or` on two equal
/// operands equals every canonical sequence with the members of the operand.
pub proof fn lemma_or_self_is_dedup(a: Seq<usize>, r: Seq<usize>, dedup: Seq<usize>)
    requires
        strictly_sorted(r),
        forall|x: usize| #[trigger] r.contains(x) <==> a.contains(x) || a.contains(x),
        strictly_sorted(dedup),
        forall|x: usize| #[trigger] dedup.contains(x) <==> a.contains(x),
    ensures
        r == dedup,
{
    lemma_canonical_unique(r, dedup);
}

/// Membership in a one-longer prefix is membership in the prefix or equality
/// with the newly covered element.
pub(crate) proof fn lemma_take_push_contains(s: Seq<usize>, i: int)
    requires
        0 <= i < s.len(),
    ensures
        forall|x: usize| #[trigger] s.take(i + 1).contains(x) <==> s.take(i).contains(x) || x == s[i],
{
    assert(s.take(i + 1) == s.take(i).push(s[i]));
    assert forall|x: usize| #[trigger] s.take(i + 1).contains(x) implies s.take(i).contains(x) || x
        == s[i] by {
        let k = choose|k: int| 0 <= k < s.take(i + 1).len() && #[trigger] s.take(i + 1)[k] == x;
        if k < i {
            assert(s.take(i)[k] == x);
        }
    }
    assert forall|x: usize| s.take(i).contains(x) || x == s[i] implies #[trigger] s.take(
        i + 1,
    ).contains(x) by {
        if s.take(i).contains(x) {
            let k = choose|k: int| 0 <= k < s.take(i).len() && #[trigger] s.take(i)[k] == x;
            assert(s.take(i + 1)[k] == x);
        } else {
            assert(s.take(i + 1)[i] == x);
        }
    }
}


/// One parsed query: atomic predicates carrying a match-method selector and
/// pattern text, combined by the boolean operators.
pub enum Query {
    /// Match the node's own name.
    NodeName(MatchMethod, String),
    /// Match the node's dotted attribute names.
    AttributeName(MatchMethod, String),
    /// Match an attribute's dotted name and its rendered value, each under
    /// its own method: name method, name pattern, value method, value
    /// pattern.
    AttributeValue(MatchMethod, String, MatchMethod, String),
    /// Match byte content under a data method.
    Data(DataMethod, String),
    /// Both sides match.
    And(Box<Query>, Box<Query>),
    /// Either side matches.
    Or(Box<Query>, Box<Query>),
    /// The right side matches and the left side does not.
    AndNot(Box<Query>, Box<Query>),
}

/// Whether every pattern of a query compiles.
pub open spec fn query_ok(q: Query) -> bool
    decreases q,
{
    match q {
        Query::NodeName(m, p) => method_compiles(m, p@),
        Query::AttributeName(m, p) => method_compiles(m, p@),
        Query::AttributeValue(nm, np, vm, vp) => method_compiles(nm, np@) && method_compiles(
            vm,
            vp@,
        ),
        Query::Data(dm, p) => data_compiles(dm, p@),
        Query::And(a, b) => query_ok(*a) && query_ok(*b),
        Query::Or(a, b) => query_ok(*a) && query_ok(*b),
        Query::AndNot(a, b) => query_ok(*a) && query_ok(*b),
    }
}

/// The set of candidate ids a query selects over an arena.
pub open spec fn query_eval(tree_nodes: Seq<Node>, cand: Seq<usize>, q: Query) -> Set<usize>
    decreases q,
{
    match q {
        Query::NodeName(m, p) => Set::new(
            |x: usize|
                cand.contains(x) && x < tree_nodes.len() && node_query_match(
                    QueryType::Name,
                    m,
                    p@,
                    tree_nodes[x as int],
                ),
        ),
        Query::AttributeName(m, p) => Set::new(
            |x: usize|
                cand.contains(x) && x < tree_nodes.len() && node_query_match(
                    QueryType::AttributeName,
                    m,
                    p@,
                    tree_nodes[x as int],
                ),
        ),
        Query::AttributeValue(nm, np, vm, vp) => Set::new(
            |x: usize|
                cand.contains(x) && x < tree_nodes.len() && node_attrs_nv_match(
                    nm,
                    np@,
                    vm,
                    vp@,
                    tree_nodes[x as int],
                ),
        ),
        Query::Data(dm, p) => Set::new(
            |x: usize|
                cand.contains(x) && x < tree_nodes.len() && node_data_match(
                    dm,
                    p@,
                    tree_nodes[x as int],
                ),
        ),
        Query::And(a, b) => query_eval(tree_nodes, cand, *a).intersect(
            query_eval(tree_nodes, cand, *b),
        ),
        Query::Or(a, b) => query_eval(tree_nodes, cand, *a).union(
            query_eval(tree_nodes, cand, *b),
        ),
        Query::AndNot(a, b) => query_eval(tree_nodes, cand, *b).difference(
            query_eval(tree_nodes, cand, *a),
        ),
    }
}

/// Applies parsed queries to a candidate node set and returns the matching
/// ids.
pub struct Filter {}

impl Filter {
    /// Evaluates `query` over the candidate ids `nodes`: atomic predicates
    /// run over every candidate, boolean operators combine the partial
    /// results.  Returns the matching ids in canonical form; fails exactly
    /// when some pattern of the query does not compile.
    pub fn nodes(tree: &Tree, query: &Query, nodes: &Vec<usize>) -> (r: Result<
        Vec<usize>,
        QueryError,
    >)
        ensures
            (r is Ok) == query_ok(*query),
            r matches Err(e) ==> e == QueryError::InvalidPattern,
            r matches Ok(ids) ==> strictly_sorted(ids@) && (forall|x: usize|
                #[trigger] ids@.contains(x) <==> query_eval(tree.nodes@, nodes@, *query).contains(
                    x,
                )),
        decreases *query,
    {
        match query {
            Query::NodeName(m, p) => match_query(tree, nodes, QueryType::Name, *m, p.as_str()),
            Query::AttributeName(m, p) => match_query(
                tree,
                nodes,
                QueryType::AttributeName,
                *m,
                p.as_str(),
            ),
            Query::AttributeValue(nm, np, vm, vp) => match_attribute_query(
                tree,
                nodes,
                np.as_str(),
                *nm,
                vp.as_str(),
                *vm,
            ),
            Query::Data(dm, p) => query_data(tree, nodes, p.as_str(), *dm),
            Query::And(a, b) => {
                let left = match Filter::nodes(tree, &**a, nodes) {
                    Ok(v) => v,
                    Err(e) => {
                        return Err(e);
                    },
                };
                let right = match Filter::nodes(tree, &**b, nodes) {
                    Ok(v) => v,
                    Err(e) => {
                        return Err(e);
                    },
                };
                Ok(Op::and(left, right))
            },
            Query::Or(a, b) => {
                let left = match Filter::nodes(tree, &**a, nodes) {
                    Ok(v) => v,
                    Err(e) => {
                        return Err(e);
                    },
                };
                let right = match Filter::nodes(tree, &**b, nodes) {
                    Ok(v) => v,
                    Err(e) => {
                        return Err(e);
                    },
                };
                Ok(Op::or(left, right))
            },
            Query::AndNot(a, b) => {
                let left = match Filter::nodes(tree, &**a, nodes) {
                    Ok(v) => v,
                    Err(e) => {
                        return Err(e);
                    },
                };
                let right = match Filter::nodes(tree, &**b, nodes) {
                    Ok(v) => v,
                    Err(e) => {
                        return Err(e);
                    },
                };
                Ok(Op::and_not(left, right))
            },
        }
    }

    /// Evaluates `query` over every node in the tree.
    pub fn tree(tree: &Tree, query: &Query) -> (r: Result<Vec<usize>, QueryError>)
        requires
            tree.wf(),
        ensures
            (r is Ok) == query_ok(*query),
            r matches Err(e) ==> e == QueryError::InvalidPattern,
            r matches Ok(ids) ==> strictly_sorted(ids@) && (forall|x: usize|
                #[trigger] ids@.contains(x) <==> query_eval(
                    tree.nodes@,
                    all_ids(tree.nodes@.len() as int),
                    *query,
                ).contains(x)),
    {
        let nodes = match tree.children_rec(None) {
            Some(n) => n,
            None => Vec::new(),
        };
        let _nlen: usize = tree.nodes.len();
        proof {
            assert(tree.nodes@.len() <= usize::MAX);
            lemma_all_ids_props(tree.nodes@.len() as int);
            lemma_canonical_unique(nodes@, all_ids(tree.nodes@.len() as int));
        }
        Filter::nodes(tree, query, &nodes)
    }

    /// Evaluates `query` over the subtree at `path`.  Fails with an invalid
    /// path before any pattern is compiled or any node is evaluated.
    pub fn path(tree: &Tree, query: &Query, path: &Vec<String>) -> (r: Result<
        Vec<usize>,
        QueryError,
    >)
        requires
            tree.wf(),
        ensures
            resolve_path(tree.nodes@, path@) is None ==> (r matches Err(e) && e
                == QueryError::InvalidPath),
            resolve_path(tree.nodes@, path@) matches Some(t) ==> ((r is Ok) == query_ok(*query)
                && (r matches Err(e) ==> e == QueryError::InvalidPattern) && (r matches Ok(ids)
                ==> strictly_sorted(ids@) && (forall|x: usize|
                #[trigger] ids@.contains(x) <==> query_eval(
                    tree.nodes@,
                    ids_under(tree.nodes@, t as int, tree.nodes@.len() as int),
                    *query,
                ).contains(x)))),
    {
        let nodes = match tree.children_rec(Some(path)) {
            Some(n) => n,
            None => {
                return Err(QueryError::InvalidPath);
            },
        };
        let _nlen: usize = tree.nodes.len();
        proof {
            assert(tree.nodes@.len() <= usize::MAX);
            let t = resolve_path(tree.nodes@, path@)->Some_0;
            lemma_ids_under_props(tree.nodes@, t as int, tree.nodes@.len() as int);
            lemma_canonical_unique(
                nodes@,
                ids_under(tree.nodes@, t as int, tree.nodes@.len() as int),
            );
        }
        Filter::nodes(tree, query, &nodes)
    }
}

} // verus!
