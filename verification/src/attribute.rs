//! Matching of node names and dotted attribute names.
//!
//! A `(method, pattern)` pair compiles once into an immutable
//! [`MatcherMethod`] that is then shared, read-only, across the evaluation of
//! every node of a query.  Attribute matching walks a node's attribute list
//! depth first, extending a '.'-joined path with the current attribute's name
//! before descending into nested or reflected children.
use vstd::prelude::*;
use vstd::string::*;

use crate::QueryError;
use crate::filter::insert_sorted_unique;
use crate::filter::strictly_sorted;
use crate::tree::AttrValue;
use crate::tree::Attribute;
use crate::tree::Node;
use crate::tree::Tree;

verus! {

#[verifier::external_type_specification]
#[verifier::external_body]
pub struct ExRegex(regex::Regex);

/// Whether `regex::Regex::new` accepts a pattern.
pub uninterp spec fn regex_compiles(pattern: Seq<char>) -> bool;

/// What `regex::Regex::is_match` decides for a pattern and a haystack.
pub uninterp spec fn regex_accepts(pattern: Seq<char>, text: Seq<char>) -> bool;

/// What the clangd-style fuzzy matcher decides for a candidate text and a
/// pattern: whether an approximate match yields any positive score.
pub uninterp spec fn fuzzy_accepts(text: Seq<char>, pattern: Seq<char>) -> bool;

/// A compiled regular expression, paired with the pattern text it was
/// compiled from.
pub struct RegexHandle {
    re: regex::Regex,
    pat: String,
}

impl RegexHandle {
    /// The pattern this matcher was compiled from.
    pub closed spec fn pattern(self) -> Seq<char> {
        self.pat@
    }
}

/// Relies on `regex::Regex::new`: whether a pattern compiles is a function of
/// the pattern text alone, and the returned matcher is compiled from exactly
/// that pattern.
#[verifier::external_body]
fn regex_compile(pattern: &str) -> (r: Option<RegexHandle>)
    ensures
        (r is Some) == regex_compiles(pattern@),
        r matches Some(h) ==> h.pattern() == pattern@,
{
    match regex::Regex::new(pattern) {
        Ok(re) => Some(RegexHandle { re, pat: pattern.to_string() }),
        Err(_) => None,
    }
}

/// Relies on `regex::Regex::is_match`: the result is a function of the
/// compiled pattern and the haystack alone.
#[verifier::external_body]
fn regex_run(h: &RegexHandle, text: &str) -> (r: bool)
    ensures
        r == regex_accepts(h.pattern(), text@),
{
    h.re.is_match(text)
}

/// Relies on `fuzzy_matcher::clangd::ClangdMatcher` in its default
/// configuration and `FuzzyMatcher::fuzzy_match`: whether any positive score
/// exists is a function of the candidate text and the pattern alone.
#[verifier::external_body]
fn fuzzy_run(text: &str, pattern: &str) -> (r: bool)
    ensures
        r == fuzzy_accepts(text@, pattern@),
{
    let matcher = fuzzy_matcher::clangd::ClangdMatcher::default();
    fuzzy_matcher::FuzzyMatcher::fuzzy_match(&matcher, text, pattern).is_some()
}

/// Glob-style matching: `*` matches any character sequence (the empty one
/// included), `?` matches exactly one character, anything else matches
/// itself.
pub open spec fn wild_accepts(p: Seq<char>, s: Seq<char>) -> bool
    decreases p.len() + s.len(),
{
    if p.len() == 0 {
        s.len() == 0
    } else if p[0] == '*' {
        wild_accepts(p.skip(1), s) || (s.len() > 0 && wild_accepts(p, s.skip(1)))
    } else if s.len() == 0 {
        false
    } else {
        (p[0] == '?' || p[0] == s[0]) && wild_accepts(p.skip(1), s.skip(1))
    }
}

/// A wildcard pattern of a single star matches every string, the empty one
/// included.
pub proof fn lemma_wild_star_matches_all(s: Seq<char>)
    ensures
        wild_accepts(seq!['*'], s),
    decreases s.len(),
{
    let p = seq!['*'];
    assert(p.skip(1) =~= Seq::<char>::empty());
    if s.len() == 0 {
        assert(wild_accepts(p.skip(1), s));
    } else {
        lemma_wild_star_matches_all(s.skip(1));
    }
}

/// The characters of a string, in order.
fn str_to_chars(s: &str) -> (r: Vec<char>)
    ensures
        r@ == s@,
{
    let n = s.unicode_len();
    let mut r: Vec<char> = Vec::new();
    let mut i: usize = 0;
    while i < n
        invariant
            i <= n,
            n == s@.len(),
            r@ == s@.take(i as int),
        decreases n - i,
    {
        r.push(s.get_char(i));
        proof {
            assert(s@.take(i as int + 1) =~= s@.take(i as int).push(s@[i as int]));
        }
        i += 1;
    }
    proof {
        assert(s@.take(n as int) =~= s@);
    }
    r
}

/// Glob matching over the pattern suffix from `pi` and the text suffix from
/// `si`.
fn wild_match_from(p: &Vec<char>, pi: usize, s: &Vec<char>, si: usize) -> (r: bool)
    requires
        pi <= p@.len(),
        si <= s@.len(),
    ensures
        r == wild_accepts(p@.skip(pi as int), s@.skip(si as int)),
    decreases p@.len() - pi + s@.len() - si,
{
    let ghost ps = p@.skip(pi as int);
    let ghost ss = s@.skip(si as int);
    if pi == p.len() {
        proof {
            assert(ps.len() == 0);
        }
        si == s.len()
    } else {
        proof {
            assert(ps[0] == p@[pi as int]);
            assert(ps.skip(1) =~= p@.skip(pi as int + 1));
        }
        let c = p[pi];
        if c == '*' {
            if wild_match_from(p, pi + 1, s, si) {
                true
            } else if si < s.len() {
                proof {
                    assert(ss[0] == s@[si as int]);
                    assert(ss.skip(1) =~= s@.skip(si as int + 1));
                }
                wild_match_from(p, pi, s, si + 1)
            } else {
                false
            }
        } else if si == s.len() {
            proof {
                assert(ss.len() == 0);
            }
            false
        } else {
            proof {
                assert(ss[0] == s@[si as int]);
                assert(ss.skip(1) =~= s@.skip(si as int + 1));
            }
            if c == '?' || c == s[si] {
                wild_match_from(p, pi + 1, s, si + 1)
            } else {
                false
            }
        }
    }
}

/// The matching methods a query can select.
#[derive(Debug, Clone, Copy)]
pub enum MatchMethod {
    /// Compare the full string for equality.
    Fixed,
    /// Test a regular expression.
    Regex,
    /// Glob-style matching with `*` and `?`.
    Wildcard,
    /// Approximate matching: any positive fuzzy score counts.
    Fuzzy,
}

/// Whether a `(method, pattern)` pair compiles: only a regular expression
/// can be rejected.
pub open spec fn method_compiles(method: MatchMethod, pattern: Seq<char>) -> bool {
    match method {
        MatchMethod::Regex => regex_compiles(pattern),
        _ => true,
    }
}

/// What a `(method, pattern)` pair decides for a candidate text.
pub open spec fn method_accepts(method: MatchMethod, pattern: Seq<char>, text: Seq<char>) -> bool {
    match method {
        MatchMethod::Fixed => text == pattern,
        MatchMethod::Regex => regex_accepts(pattern, text),
        MatchMethod::Wildcard => wild_accepts(pattern, text),
        MatchMethod::Fuzzy => fuzzy_accepts(text, pattern),
    }
}

/// A matcher compiled from one of the available [`MatchMethod`]s, immutable
/// and shared across the evaluation of every node of a query.
pub enum MatcherMethod {
    Fixed,
    Regex(RegexHandle),
    Wildcard(Vec<char>),
    Fuzzy,
}

impl MatcherMethod {
    /// The method this matcher was built for.
    pub open spec fn spec_method(self) -> MatchMethod {
        match self {
            MatcherMethod::Fixed => MatchMethod::Fixed,
            MatcherMethod::Regex(_) => MatchMethod::Regex,
            MatcherMethod::Wildcard(_) => MatchMethod::Wildcard,
            MatcherMethod::Fuzzy => MatchMethod::Fuzzy,
        }
    }

    /// Whether this matcher was compiled from `pattern`.
    pub open spec fn consistent_with(self, pattern: Seq<char>) -> bool {
        match self {
            MatcherMethod::Regex(h) => h.pattern() == pattern,
            MatcherMethod::Wildcard(p) => p@ == pattern,
            _ => true,
        }
    }

    /// Compiles `query` under `method_type` into a shareable matcher.  Fails
    /// exactly when a regular expression pattern does not compile.
    pub fn new(method_type: &MatchMethod, query: &str) -> (r: Result<MatcherMethod, QueryError>)
        ensures
            (r is Ok) == method_compiles(*method_type, query@),
            r matches Ok(m) ==> m.spec_method() == *method_type && m.consistent_with(query@),
            r matches Err(e) ==> e == QueryError::InvalidPattern,
    {
        match method_type {
            MatchMethod::Fixed => Ok(MatcherMethod::Fixed),
            MatchMethod::Regex => match regex_compile(query) {
                Some(h) => Ok(MatcherMethod::Regex(h)),
                None => Err(QueryError::InvalidPattern),
            },
            MatchMethod::Wildcard => Ok(MatcherMethod::Wildcard(str_to_chars(query))),
            MatchMethod::Fuzzy => Ok(MatcherMethod::Fuzzy),
        }
    }

    /// Whether `value` matches `query` under this matcher.  `query` must be
    /// the pattern the matcher was compiled from.
    pub fn is_match(&self, query: &str, value: &str) -> (r: bool)
        requires
            self.consistent_with(query@),
        ensures
            r == method_accepts(self.spec_method(), query@, value@),
    {
        match self {
            MatcherMethod::Fixed => {
                let q = String::from_str(query);
                let v = String::from_str(value);
                v == q
            },
            MatcherMethod::Regex(h) => regex_run(h, value),
            MatcherMethod::Wildcard(p) => {
                let cs = str_to_chars(value);
                let r = wild_match_from(p, 0, &cs, 0);
                proof {
                    assert(p@.skip(0) =~= p@);
                    assert(cs@.skip(0) =~= cs@);
                }
                r
            },
            MatcherMethod::Fuzzy => fuzzy_run(value, query),
        }
    }
}

/// Selects what a query is matched against.
#[derive(Debug, Clone, Copy)]
pub enum QueryType {
    /// Match on a node's dotted attribute names.
    AttributeName,
    /// Match on the node's own name.
    Name,
}

/// The dotted name of an attribute under an ancestor path: the bare name at
/// the top level, otherwise the path extended with a '.' separator.
pub open spec fn spec_dotted(prefix: Seq<char>, name: Seq<char>) -> Seq<char> {
    if prefix.len() == 0 {
        name
    } else {
        prefix + "."@ + name
    }
}

/// The text a value renders to when matched against: scalars render their
/// text, every other kind renders empty text.
pub open spec fn render_of(v: AttrValue) -> Seq<char> {
    match v {
        AttrValue::Scalar(s) => s@,
        _ => Seq::<char>::empty(),
    }
}

/// Whether an attribute under the dotted path `prefix` matches `pattern`:
/// either some nested or reflected child matches under the extended path, or
/// the attribute's own dotted name matches.
pub open spec fn attr_name_matches(
    method: MatchMethod,
    pattern: Seq<char>,
    prefix: Seq<char>,
    a: Attribute,
) -> bool
    decreases a,
{
    let self_hit = method_accepts(method, pattern, spec_dotted(prefix, a.name@));
    match a.value {
        AttrValue::Nested(children) => attrs_any_name_match(
            method,
            pattern,
            spec_dotted(prefix, a.name@),
            children@,
        ) || self_hit,
        AttrValue::Reflect(children) => attrs_any_name_match(
            method,
            pattern,
            spec_dotted(prefix, a.name@),
            children@,
        ) || self_hit,
        _ => self_hit,
    }
}

/// Whether any attribute of the list matches, under the dotted path
/// `prefix`.
pub open spec fn attrs_any_name_match(
    method: MatchMethod,
    pattern: Seq<char>,
    prefix: Seq<char>,
    attrs: Seq<Attribute>,
) -> bool
    decreases attrs,
{
    exists|i: int|
        0 <= i < attrs.len() && attr_name_matches(method, pattern, prefix, #[trigger] attrs[i])
}

/// Whether a node has any matching dotted attribute name.
pub open spec fn node_attrs_name_match(
    method: MatchMethod,
    pattern: Seq<char>,
    node: Node,
) -> bool {
    attrs_any_name_match(method, pattern, Seq::<char>::empty(), node.attributes@)
}

/// What a node-scoped query decides: the node's own name for
/// [`QueryType::Name`], its dotted attribute names for
/// [`QueryType::AttributeName`].
pub open spec fn node_query_match(
    query_type: QueryType,
    method: MatchMethod,
    pattern: Seq<char>,
    node: Node,
) -> bool {
    match query_type {
        QueryType::Name => method_accepts(method, pattern, node.name@),
        QueryType::AttributeName => node_attrs_name_match(method, pattern, node),
    }
}

/// Builds the dotted name of `name` under the path `prefix`.
pub(crate) fn dotted_name(prefix: &String, name: &String) -> (r: String)
    ensures
        r@ == spec_dotted(prefix@, name@),
{
    if prefix.as_str().unicode_len() == 0 {
        name.clone()
    } else {
        let mut s = prefix.clone();
        s.append(".");
        s.append(name.as_str());
        proof {
            assert(s@ =~= prefix@ + "."@ + name@);
        }
        s
    }
}

/// Tests one attribute under the dotted path `dotted_attrib`, descending
/// depth first into nested and reflected children and stopping at the first
/// hit.
#[verifier::loop_isolation(false)]
fn match_attribute_dotted_name(
    dotted_attrib: &String,
    attribute: &Attribute,
    query_value: &str,
    matcher: &MatcherMethod,
) -> (r: bool)
    requires
        matcher.consistent_with(query_value@),
    ensures
        r == attr_name_matches(matcher.spec_method(), query_value@, dotted_attrib@, *attribute),
    decreases *attribute,
{
    let ghost method = matcher.spec_method();
    let ghost pattern = query_value@;
    match &attribute.value {
        AttrValue::Nested(children) => {
            let child_prefix = dotted_name(dotted_attrib, &attribute.name);
            let mut i: usize = 0;
            while i < children.len()
                invariant
                    i <= children@.len(),
                    matcher.consistent_with(query_value@),
                    method == matcher.spec_method(),
                    pattern == query_value@,
                    child_prefix@ == spec_dotted(dotted_attrib@, attribute.name@),
                    forall|j: int|
                        0 <= j < i ==> !attr_name_matches(
                            method,
                            pattern,
                            child_prefix@,
                            #[trigger] children@[j],
                        ),
                decreases children@.len() - i,
            {
                proof {
                    assert(attribute.value->Nested_0 == *children);
                    assert(decreases_to!(*attribute => attribute.value));
                    assert(decreases_to!(attribute.value => attribute.value->Nested_0));
                    assert(decreases_to!(attribute.value->Nested_0 => attribute.value->Nested_0@));
                    assert(decreases_to!(attribute.value->Nested_0@ => attribute.value->Nested_0@[i as int]));
                    assert(decreases_to!(*attribute => children@[i as int]));
                }
                if match_attribute_dotted_name(&child_prefix, &children[i], query_value, matcher) {
                    proof {
                        assert(attr_name_matches(method, pattern, child_prefix@, children@[i as int]));
                        assert(attrs_any_name_match(method, pattern, child_prefix@, children@));
                    }
                    return true;
                }
                i += 1;
            }
        },
        AttrValue::Reflect(children) => {
            let child_prefix = dotted_name(dotted_attrib, &attribute.name);
            let mut i: usize = 0;
            while i < children.len()
                invariant
                    i <= children@.len(),
                    matcher.consistent_with(query_value@),
                    method == matcher.spec_method(),
                    pattern == query_value@,
                    child_prefix@ == spec_dotted(dotted_attrib@, attribute.name@),
                    forall|j: int|
                        0 <= j < i ==> !attr_name_matches(
                            method,
                            pattern,
                            child_prefix@,
                            #[trigger] children@[j],
                        ),
                decreases children@.len() - i,
            {
                proof {
                    assert(attribute.value->Reflect_0 == *children);
                    assert(decreases_to!(*attribute => attribute.value));
                    assert(decreases_to!(attribute.value => attribute.value->Reflect_0));
                    assert(decreases_to!(attribute.value->Reflect_0 => attribute.value->Reflect_0@));
                    assert(decreases_to!(attribute.value->Reflect_0@ => attribute.value->Reflect_0@[i as int]));
                    assert(decreases_to!(*attribute => children@[i as int]));
                }
                if match_attribute_dotted_name(&child_prefix, &children[i], query_value, matcher) {
                    proof {
                        assert(attr_name_matches(method, pattern, child_prefix@, children@[i as int]));
                        assert(attrs_any_name_match(method, pattern, child_prefix@, children@));
                    }
                    return true;
                }
                i += 1;
            }
        },
        _ => {},
    }
    let own = dotted_name(dotted_attrib, &attribute.name);
    matcher.is_match(query_value, own.as_str())
}

/// Tests every top-level attribute of a node, stopping at the first hit.
fn match_attributes_dotted_name(node: &Node, query_value: &str, matcher: &MatcherMethod) -> (r:
    bool)
    requires
        matcher.consistent_with(query_value@),
    ensures
        r == node_attrs_name_match(matcher.spec_method(), query_value@, *node),
{
    let ghost method = matcher.spec_method();
    let empty = String::new();
    let mut i: usize = 0;
    while i < node.attributes.len()
        invariant
            i <= node.attributes@.len(),
            matcher.consistent_with(query_value@),
            method == matcher.spec_method(),
            empty@ == Seq::<char>::empty(),
            forall|j: int|
                0 <= j < i ==> !attr_name_matches(
                    method,
                    query_value@,
                    Seq::<char>::empty(),
                    #[trigger] node.attributes@[j],
                ),
        decreases node.attributes@.len() - i,
    {
        if match_attribute_dotted_name(&empty, &node.attributes[i], query_value, matcher) {
            return true;
        }
        i += 1;
    }
    false
}

/// Tests `query_value` against every node of `nodes` under `query_type`,
/// returning the matching ids in canonical form.  Fails exactly when the
/// pattern does not compile; a missing node id is skipped silently.
pub fn match_query(
    tree: &Tree,
    nodes: &Vec<usize>,
    query_type: QueryType,
    match_method_type: MatchMethod,
    query_value: &str,
) -> (r: Result<Vec<usize>, QueryError>)
    ensures
        (r is Ok) == method_compiles(match_method_type, query_value@),
        r matches Err(e) ==> e == QueryError::InvalidPattern,
        r matches Ok(ids) ==> strictly_sorted(ids@) && (forall|x: usize|
            #[trigger] ids@.contains(x) <==> nodes@.contains(x) && x < tree.nodes@.len()
                && node_query_match(
                query_type,
                match_method_type,
                query_value@,
                tree.nodes@[x as int],
            )),
{
    let matcher = match MatcherMethod::new(&match_method_type, query_value) {
        Ok(m) => m,
        Err(e) => {
            return Err(e);
        },
    };
    let ghost cond = |x: usize|
        x < tree.nodes@.len() && node_query_match(
            query_type,
            match_method_type,
            query_value@,
            tree.nodes@[x as int],
        );
    let mut result: Vec<usize> = Vec::new();
    let mut i: usize = 0;
    while i < nodes.len()
        invariant
            i <= nodes@.len(),
            matcher.consistent_with(query_value@),
            matcher.spec_method() == match_method_type,
            strictly_sorted(result@),
            cond == (|x: usize|
                x < tree.nodes@.len() && node_query_match(
                    query_type,
                    match_method_type,
                    query_value@,
                    tree.nodes@[x as int],
                )),
            forall|x: usize|
                #[trigger] result@.contains(x) <==> nodes@.take(i as int).contains(x) && cond(x),
        decreases nodes@.len() - i,
    {
        let id = nodes[i];
        proof {
            crate::filter::lemma_take_push_contains(nodes@, i as int);
        }
        let hit = match tree.get_node_from_id(id) {
            None => false,
            Some(node) => match query_type {
                QueryType::Name => matcher.is_match(query_value, node.name.as_str()),
                QueryType::AttributeName => match_attributes_dotted_name(
                    node,
                    query_value,
                    &matcher,
                ),
            },
        };
        if hit {
            insert_sorted_unique(&mut result, id);
            assert(cond(id));
        } else {
            assert(!cond(id));
        }
        i += 1;
    }
    proof {
        assert(nodes@.take(nodes@.len() as int) == nodes@);
    }
    Ok(result)
}

/// Whether an attribute under the dotted path `prefix` matches both a name
/// pattern and a value pattern: either some nested or reflected child
/// matches under the extended path, or the attribute's own dotted name and
/// rendered value both match.
pub open spec fn attr_nv_matches(
    name_method: MatchMethod,
    name_pattern: Seq<char>,
    value_method: MatchMethod,
    value_pattern: Seq<char>,
    prefix: Seq<char>,
    a: Attribute,
) -> bool
    decreases a,
{
    let self_hit = method_accepts(name_method, name_pattern, spec_dotted(prefix, a.name@))
        && method_accepts(value_method, value_pattern, render_of(a.value));
    match a.value {
        AttrValue::Nested(children) => attrs_any_nv_match(
            name_method,
            name_pattern,
            value_method,
            value_pattern,
            spec_dotted(prefix, a.name@),
            children@,
        ) || self_hit,
        AttrValue::Reflect(children) => attrs_any_nv_match(
            name_method,
            name_pattern,
            value_method,
            value_pattern,
            spec_dotted(prefix, a.name@),
            children@,
        ) || self_hit,
        _ => self_hit,
    }
}

/// Whether any attribute of the list matches name and value, under the
/// dotted path `prefix`.
pub open spec fn attrs_any_nv_match(
    name_method: MatchMethod,
    name_pattern: Seq<char>,
    value_method: MatchMethod,
    value_pattern: Seq<char>,
    prefix: Seq<char>,
    attrs: Seq<Attribute>,
) -> bool
    decreases attrs,
{
    exists|i: int|
        0 <= i < attrs.len() && attr_nv_matches(
            name_method,
            name_pattern,
            value_method,
            value_pattern,
            prefix,
            #[trigger] attrs[i],
        )
}

/// Whether a node has any attribute whose dotted name and rendered value
/// both match.
pub open spec fn node_attrs_nv_match(
    name_method: MatchMethod,
    name_pattern: Seq<char>,
    value_method: MatchMethod,
    value_pattern: Seq<char>,
    node: Node,
) -> bool {
    attrs_any_nv_match(
        name_method,
        name_pattern,
        value_method,
        value_pattern,
        Seq::<char>::empty(),
        node.attributes@,
    )
}

/// Renders a value to the text it is matched against.
fn render_value(v: &AttrValue) -> (r: String)
    ensures
        r@ == render_of(*v),
{
    match v {
        AttrValue::Scalar(s) => s.clone(),
        _ => String::new(),
    }
}

/// Tests one attribute's dotted name and rendered value under the dotted
/// path `dotted_attrib`, descending depth first and stopping at the first
/// hit.
#[verifier::loop_isolation(false)]
fn match_attribute_name_and_value(
    dotted_attrib: &String,
    attribute: &Attribute,
    query_attr_name: &str,
    name_matcher: &MatcherMethod,
    query_attr_value: &str,
    value_matcher: &MatcherMethod,
) -> (r: bool)
    requires
        name_matcher.consistent_with(query_attr_name@),
        value_matcher.consistent_with(query_attr_value@),
    ensures
        r == attr_nv_matches(
            name_matcher.spec_method(),
            query_attr_name@,
            value_matcher.spec_method(),
            query_attr_value@,
            dotted_attrib@,
            *attribute,
        ),
    decreases *attribute,
{
    let ghost nm = name_matcher.spec_method();
    let ghost vm = value_matcher.spec_method();
    match &attribute.value {
        AttrValue::Nested(children) => {
            let child_prefix = dotted_name(dotted_attrib, &attribute.name);
            let mut i: usize = 0;
            while i < children.len()
                invariant
                    i <= children@.len(),
                    forall|j: int|
                        0 <= j < i ==> !attr_nv_matches(
                            nm,
                            query_attr_name@,
                            vm,
                            query_attr_value@,
                            child_prefix@,
                            #[trigger] children@[j],
                        ),
                decreases children@.len() - i,
            {
                proof {
                    assert(decreases_to!(*attribute => attribute.value));
                    assert(decreases_to!(attribute.value => attribute.value->Nested_0));
                    assert(decreases_to!(attribute.value->Nested_0 => attribute.value->Nested_0@));
                    assert(decreases_to!(
                        attribute.value->Nested_0@ => attribute.value->Nested_0@[i as int]));
                }
                if match_attribute_name_and_value(
                    &child_prefix,
                    &children[i],
                    query_attr_name,
                    name_matcher,
                    query_attr_value,
                    value_matcher,
                ) {
                    proof {
                        assert(attrs_any_nv_match(
                            nm,
                            query_attr_name@,
                            vm,
                            query_attr_value@,
                            child_prefix@,
                            children@,
                        ));
                    }
                    return true;
                }
                i += 1;
            }
        },
        AttrValue::Reflect(children) => {
            let child_prefix = dotted_name(dotted_attrib, &attribute.name);
            let mut i: usize = 0;
            while i < children.len()
                invariant
                    i <= children@.len(),
                    forall|j: int|
                        0 <= j < i ==> !attr_nv_matches(
                            nm,
                            query_attr_name@,
                            vm,
                            query_attr_value@,
                            child_prefix@,
                            #[trigger] children@[j],
                        ),
                decreases children@.len() - i,
            {
                proof {
                    assert(decreases_to!(*attribute => attribute.value));
                    assert(decreases_to!(attribute.value => attribute.value->Reflect_0));
                    assert(decreases_to!(attribute.value->Reflect_0 => attribute.value->Reflect_0@));
                    assert(decreases_to!(
                        attribute.value->Reflect_0@ => attribute.value->Reflect_0@[i as int]));
                }
                if match_attribute_name_and_value(
                    &child_prefix,
                    &children[i],
                    query_attr_name,
                    name_matcher,
                    query_attr_value,
                    value_matcher,
                ) {
                    proof {
                        assert(attrs_any_nv_match(
                            nm,
                            query_attr_name@,
                            vm,
                            query_attr_value@,
                            child_prefix@,
                            children@,
                        ));
                    }
                    return true;
                }
                i += 1;
            }
        },
        _ => {},
    }
    let own = dotted_name(dotted_attrib, &attribute.name);
    if name_matcher.is_match(query_attr_name, own.as_str()) {
        let rendered = render_value(&attribute.value);
        value_matcher.is_match(query_attr_value, rendered.as_str())
    } else {
        false
    }
}

/// Tests every top-level attribute of a node for a name and value match,
/// stopping at the first hit.
fn match_attribute_name_value(
    node: &Node,
    query_attr_name: &str,
    name_matcher: &MatcherMethod,
    query_attr_value: &str,
    value_matcher: &MatcherMethod,
) -> (r: bool)
    requires
        name_matcher.consistent_with(query_attr_name@),
        value_matcher.consistent_with(query_attr_value@),
    ensures
        r == node_attrs_nv_match(
            name_matcher.spec_method(),
            query_attr_name@,
            value_matcher.spec_method(),
            query_attr_value@,
            *node,
        ),
{
    let ghost nm = name_matcher.spec_method();
    let ghost vm = value_matcher.spec_method();
    let empty = String::new();
    let mut i: usize = 0;
    while i < node.attributes.len()
        invariant
            i <= node.attributes@.len(),
            name_matcher.consistent_with(query_attr_name@),
            value_matcher.consistent_with(query_attr_value@),
            nm == name_matcher.spec_method(),
            vm == value_matcher.spec_method(),
            empty@ == Seq::<char>::empty(),
            forall|j: int|
                0 <= j < i ==> !attr_nv_matches(
                    nm,
                    query_attr_name@,
                    vm,
                    query_attr_value@,
                    Seq::<char>::empty(),
                    #[trigger] node.attributes@[j],
                ),
        decreases node.attributes@.len() - i,
    {
        if match_attribute_name_and_value(
            &empty,
            &node.attributes[i],
            query_attr_name,
            name_matcher,
            query_attr_value,
            value_matcher,
        ) {
            return true;
        }
        i += 1;
    }
    false
}

/// Tests a name pattern and a value pattern against every node of `nodes`,
/// each pattern under its own method, returning the ids of nodes with an
/// attribute matching both, in canonical form.  Fails exactly when either
/// pattern does not compile.
pub fn match_attribute_query(
    tree: &Tree,
    nodes: &Vec<usize>,
    name: &str,
    name_match_type: MatchMethod,
    value: &str,
    value_match_type: MatchMethod,
) -> (r: Result<Vec<usize>, QueryError>)
    ensures
        (r is Ok) == (method_compiles(name_match_type, name@) && method_compiles(
            value_match_type,
            value@,
        )),
        r matches Err(e) ==> e == QueryError::InvalidPattern,
        r matches Ok(ids) ==> strictly_sorted(ids@) && (forall|x: usize|
            #[trigger] ids@.contains(x) <==> nodes@.contains(x) && x < tree.nodes@.len()
                && node_attrs_nv_match(
                name_match_type,
                name@,
                value_match_type,
                value@,
                tree.nodes@[x as int],
            )),
{
    let name_matcher = match MatcherMethod::new(&name_match_type, name) {
        Ok(m) => m,
        Err(e) => {
            return Err(e);
        },
    };
    let value_matcher = match MatcherMethod::new(&value_match_type, value) {
        Ok(m) => m,
        Err(e) => {
            return Err(e);
        },
    };
    let ghost cond = |x: usize|
        x < tree.nodes@.len() && node_attrs_nv_match(
            name_match_type,
            name@,
            value_match_type,
            value@,
            tree.nodes@[x as int],
        );
    let mut result: Vec<usize> = Vec::new();
    let mut i: usize = 0;
    while i < nodes.len()
        invariant
            i <= nodes@.len(),
            name_matcher.consistent_with(name@),
            value_matcher.consistent_with(value@),
            name_matcher.spec_method() == name_match_type,
            value_matcher.spec_method() == value_match_type,
            strictly_sorted(result@),
            cond == (|x: usize|
                x < tree.nodes@.len() && node_attrs_nv_match(
                    name_match_type,
                    name@,
                    value_match_type,
                    value@,
                    tree.nodes@[x as int],
                )),
            forall|x: usize|
                #[trigger] result@.contains(x) <==> nodes@.take(i as int).contains(x) && cond(x),
        decreases nodes@.len() - i,
    {
        let id = nodes[i];
        proof {
            crate::filter::lemma_take_push_contains(nodes@, i as int);
        }
        let hit = match tree.get_node_from_id(id) {
            None => false,
            Some(node) => match_attribute_name_value(
                node,
                name,
                &name_matcher,
                value,
                &value_matcher,
            ),
        };
        if hit {
            insert_sorted_unique(&mut result, id);
            assert(cond(id));
        } else {
            assert(!cond(id));
        }
        i += 1;
    }
    proof {
        assert(nodes@.take(nodes@.len() as int) == nodes@);
    }
    Ok(result)
}

/// A count capped at the largest representable value.
pub open spec fn sat64(n: nat) -> u64 {
    if n > u64::MAX {
        u64::MAX
    } else {
        n as u64
    }
}

/// The number of leaf attributes a value holds: nested and reflected values
/// count their children recursively, every other kind counts one.
pub open spec fn value_leaf_count(v: AttrValue) -> nat
    decreases v,
{
    match v {
        AttrValue::Nested(children) => attrs_leaf_count(children@),
        AttrValue::Reflect(children) => attrs_leaf_count(children@),
        _ => 1,
    }
}

/// The number of leaf attributes under an attribute list.
pub open spec fn attrs_leaf_count(attrs: Seq<Attribute>) -> nat
    decreases attrs,
{
    if attrs.len() == 0 {
        0
    } else {
        attrs_leaf_count(attrs.drop_last()) + value_leaf_count(attrs[attrs.len() - 1].value)
    }
}

/// The number of leaf attributes over all nodes of an arena.
pub open spec fn nodes_leaf_count(nodes: Seq<Node>) -> nat
    decreases nodes,
{
    if nodes.len() == 0 {
        0
    } else {
        nodes_leaf_count(nodes.drop_last()) + attrs_leaf_count(
            nodes[nodes.len() - 1].attributes@,
        )
    }
}

/// Addition that sticks to the largest representable value on overflow.
fn sat_add(a: u64, b: u64) -> (r: u64)
    ensures
        r as nat == if a as nat + b as nat > u64::MAX as nat {
            u64::MAX as nat
        } else {
            a as nat + b as nat
        },
{
    if a > u64::MAX - b {
        u64::MAX
    } else {
        a + b
    }
}

/// Counts the leaf attributes under one value, capped at the largest
/// representable count.
#[verifier::loop_isolation(false)]
fn attributes_count_rec(value: &AttrValue) -> (r: u64)
    ensures
        r == sat64(value_leaf_count(*value)),
    decreases *value,
{
    match value {
        AttrValue::Nested(children) => count_attr_list(value, children),
        AttrValue::Reflect(children) => count_attr_list(value, children),
        _ => 1,
    }
}

/// Counts the leaf attributes of `children`, a borrow of the child list of
/// `value`, capped at the largest representable count.
#[verifier::loop_isolation(false)]
fn count_attr_list(value: &AttrValue, children: &Vec<Attribute>) -> (r: u64)
    requires
        (match *value {
            AttrValue::Nested(cs) => cs == *children,
            AttrValue::Reflect(cs) => cs == *children,
            _ => false,
        }),
    ensures
        r == sat64(attrs_leaf_count(children@)),
    decreases *value, 0int,
{
    let mut counter: u64 = 0;
    let mut i: usize = 0;
    while i < children.len()
        invariant
            i <= children@.len(),
            counter == sat64(attrs_leaf_count(children@.take(i as int))),
        decreases children@.len() - i,
    {
        proof {
            if value is Nested {
                assert(decreases_to!(*value => value->Nested_0));
                assert(decreases_to!(value->Nested_0 => value->Nested_0@));
                assert(decreases_to!(value->Nested_0@ => value->Nested_0@[i as int]));
                assert(value->Nested_0@[i as int] == children@[i as int]);
                assert(decreases_to!(children@[i as int] => children@[i as int].value));
            } else {
                assert(decreases_to!(*value => value->Reflect_0));
                assert(decreases_to!(value->Reflect_0 => value->Reflect_0@));
                assert(decreases_to!(value->Reflect_0@ => value->Reflect_0@[i as int]));
                assert(value->Reflect_0@[i as int] == children@[i as int]);
                assert(decreases_to!(children@[i as int] => children@[i as int].value));
            }
        }
        let c = attributes_count_rec(&children[i].value);
        proof {
            let t = children@.take(i as int + 1);
            assert(t.drop_last() =~= children@.take(i as int));
            assert(t[t.len() - 1] == children@[i as int]);
        }
        counter = sat_add(counter, c);
        i += 1;
    }
    proof {
        assert(children@.take(children@.len() as int) == children@);
    }
    counter
}

/// Counts the leaf attributes of every node in the tree, capped at the
/// largest representable count.
#[verifier::loop_isolation(false)]
pub fn attribute_count(tree: &Tree) -> (r: u64)
    ensures
        r == sat64(nodes_leaf_count(tree.nodes@)),
{
    let mut counter: u64 = 0;
    let mut i: usize = 0;
    while i < tree.nodes.len()
        invariant
            i <= tree.nodes@.len(),
            counter == sat64(nodes_leaf_count(tree.nodes@.take(i as int))),
        decreases tree.nodes@.len() - i,
    {
        let node = &tree.nodes[i];
        let mut node_count: u64 = 0;
        let mut j: usize = 0;
        while j < node.attributes.len()
            invariant
                j <= node.attributes@.len(),
                node_count == sat64(attrs_leaf_count(node.attributes@.take(j as int))),
            decreases node.attributes@.len() - j,
        {
            let c = attributes_count_rec(&node.attributes[j].value);
            proof {
                let t = node.attributes@.take(j as int + 1);
                assert(t.drop_last() =~= node.attributes@.take(j as int));
                assert(t[t.len() - 1] == node.attributes@[j as int]);
            }
            node_count = sat_add(node_count, c);
            j += 1;
        }
        proof {
            assert(node.attributes@.take(node.attributes@.len() as int) == node.attributes@);
            let t = tree.nodes@.take(i as int + 1);
            assert(t.drop_last() =~= tree.nodes@.take(i as int));
            assert(t[t.len() - 1] == tree.nodes@[i as int]);
        }
        counter = sat_add(counter, node_count);
        i += 1;
    }
    proof {
        assert(tree.nodes@.take(tree.nodes@.len() as int) == tree.nodes@);
    }
    counter
}

/// Whether a node holds a first-level attribute of byte-content kind.
pub open spec fn node_has_vfile(n: Node) -> bool {
    exists|i: int| 0 <= i < n.attributes@.len() && (#[trigger] n.attributes@[i]).value is File
}

/// Returns every node id with a first-level attribute of byte-content kind,
/// in canonical form.
pub fn find_vfiles(tree: &Tree) -> (r: Vec<usize>)
    ensures
        strictly_sorted(r@),
        forall|x: usize|
            #[trigger] r@.contains(x) <==> x < tree.nodes@.len() && node_has_vfile(
                tree.nodes@[x as int],
            ),
{
    let mut result: Vec<usize> = Vec::new();
    let mut i: usize = 0;
    while i < tree.nodes.len()
        invariant
            i <= tree.nodes@.len(),
            strictly_sorted(result@),
            forall|x: usize|
                #[trigger] result@.contains(x) <==> x < i && node_has_vfile(
                    tree.nodes@[x as int],
                ),
        decreases tree.nodes@.len() - i,
    {
        let node = &tree.nodes[i];
        let mut has: bool = false;
        let mut j: usize = 0;
        while j < node.attributes.len()
            invariant
                j <= node.attributes@.len(),
                node == &tree.nodes@[i as int],
                has == exists|k: int|
                    0 <= k < j && (#[trigger] node.attributes@[k]).value is File,
            decreases node.attributes@.len() - j,
        {
            if matches!(&node.attributes[j].value, AttrValue::File(_)) {
                has = true;
            }
            j += 1;
        }
        if has {
            insert_sorted_unique(&mut result, i);
        }
        i += 1;
    }
    result
}


} // verus!
