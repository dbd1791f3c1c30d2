//! Content search inside nodes' byte-content attributes.
//!
//! A node qualifies when its first-level attribute named `data` is a byte
//! content handle.  Whole-file search reads the declared size in fixed
//! chunks and tests a byte regular expression against each chunk
//! independently: a pattern that straddles a chunk boundary is a documented
//! miss.  Line search walks the delivered bytes line by line, with a cap on
//! any single line's length to bound memory.
use vstd::prelude::*;
use vstd::slice::slice_subrange;
use vstd::string::*;

use crate::QueryError;
use crate::filter::insert_sorted_unique;
use crate::filter::strictly_sorted;
use crate::tree::AttrValue;
use crate::tree::Attribute;
use crate::tree::FileHandle;
use crate::tree::FileSource;
use crate::tree::Node;
use crate::tree::Tree;

verus! {

/// Fixed size of one whole-file scan chunk, in bytes.
pub const CHUNK_SIZE: usize = 4096;

/// Cap on a single line's length, in bytes.
pub const LINE_CAP: usize = 100 * 1024 * 1024;

#[verifier::external_type_specification]
#[verifier::external_body]
pub struct ExBytesRegex(regex::bytes::Regex);

#[verifier::external_type_specification]
#[verifier::external_body]
pub struct ExGrepRegexMatcher(grep_regex::RegexMatcher);

/// Whether the byte-oriented regular expression builder accepts a pattern.
pub uninterp spec fn bytes_regex_compiles(pattern: Seq<char>) -> bool;

/// What the byte-oriented regular expression decides for a pattern and a
/// haystack.
pub uninterp spec fn bytes_regex_accepts(pattern: Seq<char>, haystack: Seq<u8>) -> bool;

/// Whether the line-oriented regular expression matcher accepts a pattern.
pub uninterp spec fn line_regex_compiles(pattern: Seq<char>) -> bool;

/// What the line-oriented regular expression decides for a pattern and one
/// line of bytes.
pub uninterp spec fn line_regex_accepts(pattern: Seq<char>, line: Seq<u8>) -> bool;

/// A compiled byte regular expression, paired with the pattern text it was
/// compiled from.
pub struct BytesRegexHandle {
    re: regex::bytes::Regex,
    pat: String,
}

impl BytesRegexHandle {
    /// The pattern this matcher was compiled from.
    pub closed spec fn pattern(self) -> Seq<char> {
        self.pat@
    }
}

/// Relies on `regex::bytes::RegexBuilder::build` with unicode,
/// dot-matches-new-line and case-insensitive set: whether the pattern
/// compiles is a function of its text alone, and the returned matcher is
/// compiled from exactly that pattern.
#[verifier::external_body]
fn bytes_regex_compile(pattern: &str) -> (r: Option<BytesRegexHandle>)
    ensures
        (r is Some) == bytes_regex_compiles(pattern@),
        r matches Some(h) ==> h.pattern() == pattern@,
{
    let mut builder = regex::bytes::RegexBuilder::new(pattern);
    builder.unicode(true);
    builder.dot_matches_new_line(true);
    builder.case_insensitive(true);
    match builder.build() {
        Ok(re) => Some(BytesRegexHandle { re, pat: pattern.to_string() }),
        Err(_) => None,
    }
}

/// Relies on `regex::bytes::Regex::is_match`: the result is a function of
/// the compiled pattern and the haystack bytes alone.
#[verifier::external_body]
fn bytes_regex_run(h: &BytesRegexHandle, haystack: &[u8]) -> (r: bool)
    ensures
        r == bytes_regex_accepts(h.pattern(), haystack@),
{
    h.re.is_match(haystack)
}

/// A compiled line matcher, paired with the pattern text it was compiled
/// from.
pub struct LineRegexHandle {
    m: grep_regex::RegexMatcher,
    pat: String,
}

impl LineRegexHandle {
    /// The pattern this matcher was compiled from.
    pub closed spec fn pattern(self) -> Seq<char> {
        self.pat@
    }
}

/// Relies on `grep_regex::RegexMatcher::new`: whether the pattern compiles
/// is a function of its text alone, and the returned matcher is compiled
/// from exactly that pattern.
#[verifier::external_body]
fn line_regex_compile(pattern: &str) -> (r: Option<LineRegexHandle>)
    ensures
        (r is Some) == line_regex_compiles(pattern@),
        r matches Some(h) ==> h.pattern() == pattern@,
{
    match grep_regex::RegexMatcher::new(pattern) {
        Ok(m) => Some(LineRegexHandle { m, pat: pattern.to_string() }),
        Err(_) => None,
    }
}

/// Relies on `grep_matcher::Matcher::find` on `grep_regex::RegexMatcher`:
/// whether one line holds a match is a function of the compiled pattern and
/// the line bytes alone (the matcher's error type has no values).
#[verifier::external_body]
fn line_regex_run(h: &LineRegexHandle, line: &[u8]) -> (r: bool)
    ensures
        r == line_regex_accepts(h.pattern(), line@),
{
    match grep_matcher::Matcher::find(&h.m, line) {
        Ok(m) => m.is_some(),
        Err(_) => false,
    }
}

/// Which way to search inside byte content.
#[derive(Debug, Clone, Copy)]
pub enum DataMethod {
    /// Search the raw bytes with a regular expression, chunk by chunk.
    Regex,
    /// Search text line by line with a line regular expression.
    Text,
}

/// Whether a whole-file scan from byte `off` hits: the chunk starting at
/// `off` (up to [`CHUNK_SIZE`] bytes, cut off at the delivered content)
/// matches, or a later chunk hits.  A read past the delivered content, or
/// past the declared size, ends the scan.
pub open spec fn chunk_scan_from(
    pattern: Seq<char>,
    content: Seq<u8>,
    declared: int,
    off: int,
) -> bool
    decreases declared - off,
{
    if off < 0 || off >= declared {
        false
    } else {
        let end = if off + CHUNK_SIZE <= content.len() {
            off + CHUNK_SIZE
        } else {
            content.len() as int
        };
        if end <= off {
            false
        } else {
            bytes_regex_accepts(pattern, content.subrange(off, end)) || chunk_scan_from(
                pattern,
                content,
                declared,
                if end <= declared {
                    end
                } else {
                    declared
                },
            )
        }
    }
}

/// The position of the first newline byte at or after `pos`, or the content
/// length if none follows.
pub open spec fn next_newline(content: Seq<u8>, pos: int) -> int
    decreases content.len() - pos,
{
    if pos < 0 || pos >= content.len() {
        content.len() as int
    } else if content[pos] == 10 {
        pos
    } else {
        next_newline(content, pos + 1)
    }
}

/// The first newline at or after a valid position lies between that
/// position and the content length.
pub proof fn lemma_next_newline_bounds(content: Seq<u8>, pos: int)
    requires
        0 <= pos,
    ensures
        next_newline(content, pos) <= content.len(),
        pos <= content.len() ==> pos <= next_newline(content, pos),
    decreases content.len() - pos,
{
    if pos < content.len() && content[pos] != 10 {
        lemma_next_newline_bounds(content, pos + 1);
    }
}

/// Whether a line scan from byte `pos` hits: the line starting at `pos`
/// (ending before the next newline or at the end of content) matches, or a
/// later line hits.  A line longer than [`LINE_CAP`] ends the scan as a
/// non-match.
pub open spec fn line_scan_from(pattern: Seq<char>, content: Seq<u8>, pos: int) -> bool
    decreases content.len() - pos,
{
    if pos < 0 || pos >= content.len() {
        false
    } else {
        let e = next_newline(content, pos);
        let line = content.subrange(pos, e);
        proof {
            lemma_next_newline_bounds(content, pos);
        }
        if line.len() > LINE_CAP {
            false
        } else if line_regex_accepts(pattern, line) {
            true
        } else if e >= content.len() {
            false
        } else {
            line_scan_from(pattern, content, e + 1)
        }
    }
}

/// The first attribute at or after `from` with the given name, if any.
pub open spec fn first_named_from(attrs: Seq<Attribute>, name: Seq<char>, from: int) -> Option<
    int,
>
    decreases attrs.len() - from,
{
    if from < 0 || from >= attrs.len() {
        Option::None
    } else if attrs[from].name@ == name {
        Option::Some(from)
    } else {
        first_named_from(attrs, name, from + 1)
    }
}

/// The byte-content handle a node's first `data` attribute resolves to, if
/// it is one.
pub open spec fn data_handle_of(node: Node) -> Option<FileHandle> {
    match first_named_from(node.attributes@, "data"@, 0) {
        Option::None => Option::None,
        Option::Some(i) => match node.attributes@[i].value {
            AttrValue::File(h) => Option::Some(h),
            _ => Option::None,
        },
    }
}

/// Whether a whole-file byte-regex search matches a node: its `data` handle
/// opens to bytes and some chunk within the declared size matches.
pub open spec fn node_data_regex_match(pattern: Seq<char>, node: Node) -> bool {
    match data_handle_of(node) {
        Option::Some(h) => match h.source {
            FileSource::Bytes(b) => chunk_scan_from(pattern, b@, h.size as int, 0),
            FileSource::Unavailable => false,
        },
        Option::None => false,
    }
}

/// Whether a line search matches a node: its `data` handle opens to bytes
/// and some line matches before any over-long line is met.
pub open spec fn node_data_line_match(pattern: Seq<char>, node: Node) -> bool {
    match data_handle_of(node) {
        Option::Some(h) => match h.source {
            FileSource::Bytes(b) => line_scan_from(pattern, b@, 0),
            FileSource::Unavailable => false,
        },
        Option::None => false,
    }
}

/// Which pattern language a data method uses, and whether it accepts the
/// pattern.
pub open spec fn data_compiles(method: DataMethod, pattern: Seq<char>) -> bool {
    match method {
        DataMethod::Regex => bytes_regex_compiles(pattern),
        DataMethod::Text => line_regex_compiles(pattern),
    }
}

/// What a data search under `method` decides for one node.
pub open spec fn node_data_match(method: DataMethod, pattern: Seq<char>, node: Node) -> bool {
    match method {
        DataMethod::Regex => node_data_regex_match(pattern, node),
        DataMethod::Text => node_data_line_match(pattern, node),
    }
}

/// Borrows the byte-content handle of a node's first `data` attribute, if it
/// is one.
fn find_data_handle(node: &Node) -> (r: Option<&FileHandle>)
    ensures
        match data_handle_of(*node) {
            Option::Some(h) => r matches Some(rh) && *rh == h,
            Option::None => r is None,
        },
{
    let dname = String::from_str("data");
    let mut j: usize = 0;
    while j < node.attributes.len()
        invariant
            j <= node.attributes@.len(),
            dname@ == "data"@,
            first_named_from(node.attributes@, "data"@, 0) == first_named_from(
                node.attributes@,
                "data"@,
                j as int,
            ),
        decreases node.attributes@.len() - j,
    {
        if node.attributes[j].name == dname {
            match &node.attributes[j].value {
                AttrValue::File(h) => {
                    return Some(h);
                },
                _ => {
                    return None;
                },
            }
        }
        j += 1;
    }
    None
}

/// Scans the delivered bytes chunk by chunk, up to the declared size,
/// testing the byte regular expression against each chunk independently.
#[verifier::loop_isolation(false)]
fn scan_chunks(h: &BytesRegexHandle, content: &Vec<u8>, declared: usize) -> (r: bool)
    ensures
        r == chunk_scan_from(h.pattern(), content@, declared as int, 0),
{
    let mut off: usize = 0;
    loop
        invariant
            off <= declared,
            chunk_scan_from(h.pattern(), content@, declared as int, 0) == chunk_scan_from(
                h.pattern(),
                content@,
                declared as int,
                off as int,
            ),
        decreases declared - off,
    {
        if off >= declared {
            return false;
        }
        if off >= content.len() {
            return false;
        }
        let remaining = content.len() - off;
        let take = if remaining < CHUNK_SIZE {
            remaining
        } else {
            CHUNK_SIZE
        };
        let end = off + take;
        let chunk = slice_subrange(content.as_slice(), off, end);
        if bytes_regex_run(h, chunk) {
            return true;
        }
        off = if end <= declared {
            end
        } else {
            declared
        };
    }
}

/// The position of the first newline byte at or after `pos`, or the content
/// length.
fn find_newline(content: &Vec<u8>, pos: usize) -> (r: usize)
    requires
        pos <= content@.len(),
    ensures
        r == next_newline(content@, pos as int),
        pos <= r <= content@.len(),
{
    let mut i: usize = pos;
    while i < content.len()
        invariant
            pos <= i <= content@.len(),
            next_newline(content@, pos as int) == next_newline(content@, i as int),
        decreases content@.len() - i,
    {
        if content[i] == 10 {
            return i;
        }
        i += 1;
    }
    content.len()
}

/// Scans the delivered bytes line by line, stopping at the first match or at
/// the first line longer than the cap.
#[verifier::loop_isolation(false)]
fn scan_lines(h: &LineRegexHandle, content: &Vec<u8>) -> (r: bool)
    ensures
        r == line_scan_from(h.pattern(), content@, 0),
{
    let mut pos: usize = 0;
    loop
        invariant
            pos <= content@.len(),
            line_scan_from(h.pattern(), content@, 0) == line_scan_from(
                h.pattern(),
                content@,
                pos as int,
            ),
        decreases content@.len() - pos,
    {
        if pos >= content.len() {
            return false;
        }
        let e = find_newline(content, pos);
        let line = slice_subrange(content.as_slice(), pos, e);
        if line.len() > LINE_CAP {
            return false;
        }
        if line_regex_run(h, line) {
            return true;
        }
        if e >= content.len() {
            return false;
        }
        pos = e + 1;
    }
}

/// Tests one node for a whole-file byte-regex match; any failure to deliver
/// content is a non-match.
fn match_data_regex(node: &Node, query_compiled: &BytesRegexHandle) -> (r: bool)
    ensures
        r == node_data_regex_match(query_compiled.pattern(), *node),
{
    match find_data_handle(node) {
        None => false,
        Some(handle) => match &handle.source {
            FileSource::Bytes(b) => scan_chunks(query_compiled, b, handle.size),
            FileSource::Unavailable => false,
        },
    }
}

/// Tests one node for a line match; any failure to deliver content is a
/// non-match.
fn match_data_line(node: &Node, query_compiled: &LineRegexHandle) -> (r: bool)
    ensures
        r == node_data_line_match(query_compiled.pattern(), *node),
{
    match find_data_handle(node) {
        None => false,
        Some(handle) => match &handle.source {
            FileSource::Bytes(b) => scan_lines(query_compiled, b),
            FileSource::Unavailable => false,
        },
    }
}

/// Whole-file byte-regex search over `nodes`, unicode aware, dot matching
/// newlines, case insensitive.  Returns the matching ids in canonical form;
/// fails exactly when the pattern does not compile.
pub fn query_data_regex(tree: &Tree, nodes: &Vec<usize>, query_value: &str) -> (r: Result<
    Vec<usize>,
    QueryError,
>)
    ensures
        (r is Ok) == bytes_regex_compiles(query_value@),
        r matches Err(e) ==> e == QueryError::InvalidPattern,
        r matches Ok(ids) ==> strictly_sorted(ids@) && (forall|x: usize|
            #[trigger] ids@.contains(x) <==> nodes@.contains(x) && x < tree.nodes@.len()
                && node_data_regex_match(query_value@, tree.nodes@[x as int])),
{
    let query_compiled = match bytes_regex_compile(query_value) {
        Some(h) => h,
        None => {
            return Err(QueryError::InvalidPattern);
        },
    };
    let ghost cond = |x: usize|
        x < tree.nodes@.len() && node_data_regex_match(query_value@, tree.nodes@[x as int]);
    let mut result: Vec<usize> = Vec::new();
    let mut i: usize = 0;
    while i < nodes.len()
        invariant
            i <= nodes@.len(),
            query_compiled.pattern() == query_value@,
            strictly_sorted(result@),
            cond == (|x: usize|
                x < tree.nodes@.len() && node_data_regex_match(
                    query_value@,
                    tree.nodes@[x as int],
                )),
            forall|x: usize|
                #[trigger] result@.contains(x) <==> nodes@.take(i as int).contains(x) && cond(x),
        decreases nodes@.len() - i,
    {
        let id = nodes[i];
        proof {
            crate::filter::lemma_take_push_contains(nodes@, i as int);
        }
        let hit = match tree.get_node_from_id(id) {
            None => false,
            Some(node) => match_data_regex(node, &query_compiled),
        };
        if hit {
            insert_sorted_unique(&mut result, id);
            assert(cond(id));
        } else {
            assert(!cond(id));
        }
        i += 1;
    }
    proof {
        assert(nodes@.take(nodes@.len() as int) == nodes@);
    }
    Ok(result)
}

/// Line-oriented text search over `nodes`: each delivered line is tested
/// against a line regular expression, with a cap on line length.  Returns
/// the matching ids in canonical form; fails exactly when the pattern does
/// not compile.
pub fn query_data_line(tree: &Tree, nodes: &Vec<usize>, query_value: &str) -> (r: Result<
    Vec<usize>,
    QueryError,
>)
    ensures
        (r is Ok) == line_regex_compiles(query_value@),
        r matches Err(e) ==> e == QueryError::InvalidPattern,
        r matches Ok(ids) ==> strictly_sorted(ids@) && (forall|x: usize|
            #[trigger] ids@.contains(x) <==> nodes@.contains(x) && x < tree.nodes@.len()
                && node_data_line_match(query_value@, tree.nodes@[x as int])),
{
    let query_compiled = match line_regex_compile(query_value) {
        Some(h) => h,
        None => {
            return Err(QueryError::InvalidPattern);
        },
    };
    let ghost cond = |x: usize|
        x < tree.nodes@.len() && node_data_line_match(query_value@, tree.nodes@[x as int]);
    let mut result: Vec<usize> = Vec::new();
    let mut i: usize = 0;
    while i < nodes.len()
        invariant
            i <= nodes@.len(),
            query_compiled.pattern() == query_value@,
            strictly_sorted(result@),
            cond == (|x: usize|
                x < tree.nodes@.len() && node_data_line_match(
                    query_value@,
                    tree.nodes@[x as int],
                )),
            forall|x: usize|
                #[trigger] result@.contains(x) <==> nodes@.take(i as int).contains(x) && cond(x),
        decreases nodes@.len() - i,
    {
        let id = nodes[i];
        proof {
            crate::filter::lemma_take_push_contains(nodes@, i as int);
        }
        let hit = match tree.get_node_from_id(id) {
            None => false,
            Some(node) => match_data_line(node, &query_compiled),
        };
        if hit {
            insert_sorted_unique(&mut result, id);
            assert(cond(id));
        } else {
            assert(!cond(id));
        }
        i += 1;
    }
    proof {
        assert(nodes@.take(nodes@.len() as int) == nodes@);
    }
    Ok(result)
}

/// Searches byte content under the chosen method.
pub fn query_data(tree: &Tree, nodes: &Vec<usize>, query_value: &str, data_method: DataMethod)
    -> (r: Result<Vec<usize>, QueryError>)
    ensures
        (r is Ok) == data_compiles(data_method, query_value@),
        r matches Err(e) ==> e == QueryError::InvalidPattern,
        r matches Ok(ids) ==> strictly_sorted(ids@) && (forall|x: usize|
            #[trigger] ids@.contains(x) <==> nodes@.contains(x) && x < tree.nodes@.len()
                && node_data_match(data_method, query_value@, tree.nodes@[x as int])),
{
    match data_method {
        DataMethod::Regex => query_data_regex(tree, nodes, query_value),
        DataMethod::Text => query_data_line(tree, nodes, query_value),
    }
}

} // verus!
