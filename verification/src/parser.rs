use vstd::prelude::*;

use crate::error::Error;
use crate::text::{copy_range, from_chars, is_ws, is_ws_char, to_chars, trim_of, trim_range};
use crate::value::{ident_at, lemma_ident_at_len, read_ident};

verus! {

/// Deepest rule nesting (and, in the resolver, import chaining) accepted
/// before the compile fails with [`Error::DepthExceeded`].
pub const MAX_DEPTH: usize = 64;

/// One construct of the stylesheet tree.
pub enum Node {
    /// `$name: value;` — a variable declaration.
    VarDecl { name: String, value: String },
    /// `property: value;` — a plain declaration.
    Decl { prop: String, value: String },
    /// `selector, selector { ... }` — a nested rule with its body.
    Rule { selectors: Vec<String>, body: Vec<Node> },
    /// Any other at-sign construct, captured verbatim.
    RawAt { text: String },
}

/// The parsed stylesheet: its top-level nodes in document order.
pub struct Ast {
    pub nodes: Vec<Node>,
}

/// The mathematical value of one node: its texts as character sequences.
pub enum NodeSpec {
    VarDecl { name: Seq<char>, value: Seq<char> },
    Decl { prop: Seq<char>, value: Seq<char> },
    Rule { selectors: Seq<Seq<char>>, body: Seq<NodeSpec> },
    RawAt { text: Seq<char> },
}

/// The mathematical value of a node.
pub open spec fn node_view(n: Node) -> NodeSpec
    decreases n,
        via node_view_decreases
{
    match n {
        Node::VarDecl { name, value } => NodeSpec::VarDecl { name: name@, value: value@ },
        Node::Decl { prop, value } => NodeSpec::Decl { prop: prop@, value: value@ },
        Node::Rule { selectors, body } => NodeSpec::Rule {
            selectors: selectors.deep_view(),
            body: nodes_view(body@),
        },
        Node::RawAt { text } => NodeSpec::RawAt { text: text@ },
    }
}

#[via_fn]
proof fn node_view_decreases(n: Node) {
    match n {
        Node::Rule { selectors, body } => {
            assert(decreases_to!(n => body));
            assert(decreases_to!(body => body@));
        },
        _ => {},
    }
}

/// The mathematical values of a whole node list, in order.
pub open spec fn nodes_view(s: Seq<Node>) -> Seq<NodeSpec>
    decreases s,
{
    if s.len() == 0 {
        Seq::empty()
    } else {
        seq![node_view(s[0])] + nodes_view(s.drop_first())
    }
}

/// Appending a node appends its value to the list's view.
proof fn lemma_nodes_view_push(s: Seq<Node>, n: Node)
    ensures
        nodes_view(s.push(n)) == nodes_view(s).push(node_view(n)),
    decreases s.len(),
{
    if s.len() > 0 {
        lemma_nodes_view_push(s.drop_first(), n);
        assert(s.push(n).drop_first() =~= s.drop_first().push(n));
        assert(s.push(n)[0] == s[0]);
        assert(nodes_view(s) == seq![node_view(s[0])] + nodes_view(s.drop_first()));
        assert(nodes_view(s.push(n)) == seq![node_view(s[0])] + nodes_view(
            s.drop_first().push(n),
        ));
        assert(seq![node_view(s[0])] + nodes_view(s.drop_first()).push(node_view(n))
            =~= (seq![node_view(s[0])] + nodes_view(s.drop_first())).push(node_view(n)));
    } else {
        assert(s.push(n).drop_first() =~= Seq::<Node>::empty());
        assert(s.push(n)[0] == n);
        assert(nodes_view(Seq::<Node>::empty()) =~= Seq::<NodeSpec>::empty());
        assert(nodes_view(s) =~= Seq::<NodeSpec>::empty());
        assert(seq![node_view(n)] + Seq::<NodeSpec>::empty() =~= Seq::<NodeSpec>::empty().push(
            node_view(n),
        ));
    }
}

/// A rule always carries at least one selector, recursively.
pub open spec fn node_wf(n: Node) -> bool
    decreases n,
        via node_wf_decreases
{
    match n {
        Node::Rule { selectors, body } => selectors@.len() > 0 && nodes_wf(body@),
        _ => true,
    }
}

#[via_fn]
proof fn node_wf_decreases(n: Node) {
    match n {
        Node::Rule { selectors, body } => {
            assert(decreases_to!(n => body));
            assert(decreases_to!(body => body@));
        },
        _ => {},
    }
}

/// [`node_wf`] over a whole list of nodes.
pub open spec fn nodes_wf(s: Seq<Node>) -> bool
    decreases s,
{
    s.len() == 0 || (node_wf(s[0]) && nodes_wf(s.drop_first()))
}

/// Appending a well-formed node keeps a list well-formed.
proof fn lemma_nodes_wf_push(s: Seq<Node>, n: Node)
    requires
        nodes_wf(s),
        node_wf(n),
    ensures
        nodes_wf(s.push(n)),
    decreases s.len(),
{
    if s.len() > 0 {
        assert(node_wf(s[0]) && nodes_wf(s.drop_first()));
        lemma_nodes_wf_push(s.drop_first(), n);
        assert(s.push(n).drop_first() =~= s.drop_first().push(n));
        assert(s.push(n)[0] == s[0]);
        assert(s.push(n).len() > 0);
        assert(node_wf(s.push(n)[0]) && nodes_wf(s.push(n).drop_first()));
    } else {
        assert(s.push(n).drop_first() =~= Seq::<Node>::empty());
        assert(s.push(n)[0] == n);
        assert(nodes_wf(Seq::<Node>::empty()));
        assert(node_wf(s.push(n)[0]) && nodes_wf(s.push(n).drop_first()));
    }
}

/// First index at or past `k` where a block comment closes (the `*` of
/// `*/`), or the length when it never does.
pub open spec fn block_comment_end(s: Seq<char>, k: int) -> int
    decreases s.len() - k,
{
    if k < 0 || k >= s.len() {
        s.len() as int
    } else if s[k] == '*' && k + 1 < s.len() && s[k + 1] == '/' {
        k
    } else {
        block_comment_end(s, k + 1)
    }
}

proof fn lemma_block_comment_end_bounds(s: Seq<char>, k: int)
    requires
        0 <= k && k <= s.len(),
    ensures
        k <= block_comment_end(s, k) && block_comment_end(s, k) <= s.len(),
        block_comment_end(s, k) < s.len() ==> block_comment_end(s, k) + 2 <= s.len(),
    decreases s.len() - k,
{
    if k < s.len() && !(s[k] == '*' && k + 1 < s.len() && s[k + 1] == '/') {
        lemma_block_comment_end_bounds(s, k + 1);
    }
}

/// First index at or past `k` holding a line break, or the length.
pub open spec fn line_comment_end(s: Seq<char>, k: int) -> int
    decreases s.len() - k,
{
    if k < 0 || k >= s.len() {
        s.len() as int
    } else if s[k] == '\n' {
        k
    } else {
        line_comment_end(s, k + 1)
    }
}

proof fn lemma_line_comment_end_bounds(s: Seq<char>, k: int)
    requires
        0 <= k && k <= s.len(),
    ensures
        k <= line_comment_end(s, k) && line_comment_end(s, k) <= s.len(),
    decreases s.len() - k,
{
    if k < s.len() && s[k] != '\n' {
        lemma_line_comment_end_bounds(s, k + 1);
    }
}

/// First index at or past `i` that is neither whitespace nor inside a
/// comment (`/* ... */` or `//` to end of line).
pub open spec fn skip_spec(s: Seq<char>, i: int) -> int
    decreases s.len() - i,
        via skip_spec_decreases
{
    if i < 0 || i >= s.len() {
        i
    } else if is_ws_char(s[i]) {
        skip_spec(s, i + 1)
    } else if s[i] == '/' && i + 1 < s.len() && s[i + 1] == '*' {
        let k = block_comment_end(s, i + 2);
        if k < s.len() {
            skip_spec(s, k + 2)
        } else {
            s.len() as int
        }
    } else if s[i] == '/' && i + 1 < s.len() && s[i + 1] == '/' {
        skip_spec(s, line_comment_end(s, i + 2))
    } else {
        i
    }
}

#[via_fn]
proof fn skip_spec_decreases(s: Seq<char>, i: int) {
    if 0 <= i && i < s.len() {
        if s[i] == '/' && i + 1 < s.len() && s[i + 1] == '*' {
            lemma_block_comment_end_bounds(s, i + 2);
        }
        if s[i] == '/' && i + 1 < s.len() && s[i + 1] == '/' {
            lemma_line_comment_end_bounds(s, i + 2);
        }
    }
}

proof fn lemma_skip_spec_bounds(s: Seq<char>, i: int)
    requires
        0 <= i && i <= s.len(),
    ensures
        i <= skip_spec(s, i) && skip_spec(s, i) <= s.len(),
    decreases s.len() - i,
{
    if i < s.len() {
        if is_ws_char(s[i]) {
            lemma_skip_spec_bounds(s, i + 1);
        } else if s[i] == '/' && i + 1 < s.len() && s[i + 1] == '*' {
            lemma_block_comment_end_bounds(s, i + 2);
            let k = block_comment_end(s, i + 2);
            if k < s.len() {
                lemma_skip_spec_bounds(s, k + 2);
            }
        } else if s[i] == '/' && i + 1 < s.len() && s[i + 1] == '/' {
            lemma_line_comment_end_bounds(s, i + 2);
            lemma_skip_spec_bounds(s, line_comment_end(s, i + 2));
        }
    }
}

/// Computes [`skip_spec`]: whitespace and comments between tokens.
#[verifier::loop_isolation(false)]
fn skip_ws_comments(cs: &Vec<char>, i: usize) -> (r: usize)
    requires
        i <= cs@.len(),
    ensures
        i <= r && r <= cs@.len(),
        r == skip_spec(cs@, i as int),
{
    let len = cs.len();
    let mut j = i;
    loop
        invariant
            i <= j && j <= cs@.len(),
            len == cs@.len(),
            skip_spec(cs@, i as int) == skip_spec(cs@, j as int),
        decreases cs@.len() - j,
    {
        if j >= len {
            return j;
        }
        let c = cs[j];
        if is_ws(c) {
            j = j + 1;
        } else if c == '/' && j + 1 < len && cs[j + 1] == '*' {
            let mut k = j + 2;
            while k < len && !(cs[k] == '*' && k + 1 < len && cs[k + 1] == '/')
                invariant
                    j + 2 <= k && k <= cs@.len(),
                    len == cs@.len(),
                    block_comment_end(cs@, j + 2) == block_comment_end(cs@, k as int),
                decreases cs@.len() - k,
            {
                k = k + 1;
            }
            if k < len {
                j = k + 2;
                proof {
                    lemma_block_comment_end_bounds(cs@, j as int);
                }
            } else {
                proof {
                    assert(block_comment_end(cs@, k as int) == cs@.len());
                }
                j = len;
            }
        } else if c == '/' && j + 1 < len && cs[j + 1] == '/' {
            let mut k = j + 2;
            while k < len && cs[k] != '\n'
                invariant
                    j + 2 <= k && k <= cs@.len(),
                    len == cs@.len(),
                    line_comment_end(cs@, j + 2) == line_comment_end(cs@, k as int),
                decreases cs@.len() - k,
            {
                k = k + 1;
            }
            proof {
                assert(line_comment_end(cs@, k as int) == k);
            }
            j = k;
        } else {
            return j;
        }
    }
}

/// First index at or past `j` holding `;` or `{`, or the length.
pub open spec fn scan_stop_at(s: Seq<char>, j: int) -> int
    decreases s.len() - j,
{
    if j < 0 || j >= s.len() {
        s.len() as int
    } else if s[j] == ';' || s[j] == '{' {
        j
    } else {
        scan_stop_at(s, j + 1)
    }
}

proof fn lemma_scan_stop_at_bounds(s: Seq<char>, j: int)
    requires
        0 <= j && j <= s.len(),
    ensures
        j <= scan_stop_at(s, j) && scan_stop_at(s, j) <= s.len(),
    decreases s.len() - j,
{
    if j < s.len() && !(s[j] == ';' || s[j] == '{') {
        lemma_scan_stop_at_bounds(s, j + 1);
    }
}

#[verifier::loop_isolation(false)]
fn find_stop_at(cs: &Vec<char>, j: usize) -> (r: usize)
    requires
        j <= cs@.len(),
    ensures
        r == scan_stop_at(cs@, j as int),
        j <= r && r <= cs@.len(),
{
    proof {
        lemma_scan_stop_at_bounds(cs@, j as int);
    }
    let mut k = j;
    while k < cs.len() && cs[k] != ';' && cs[k] != '{'
        invariant
            j <= k && k <= cs@.len(),
            scan_stop_at(cs@, j as int) == scan_stop_at(cs@, k as int),
        decreases cs@.len() - k,
    {
        k = k + 1;
    }
    k
}

/// First index at or past `j` holding `;`, `{` or `}`, or the length.
pub open spec fn scan_stop_decl(s: Seq<char>, j: int) -> int
    decreases s.len() - j,
{
    if j < 0 || j >= s.len() {
        s.len() as int
    } else if s[j] == ';' || s[j] == '{' || s[j] == '}' {
        j
    } else {
        scan_stop_decl(s, j + 1)
    }
}

proof fn lemma_scan_stop_decl_bounds(s: Seq<char>, j: int)
    requires
        0 <= j && j <= s.len(),
    ensures
        j <= scan_stop_decl(s, j) && scan_stop_decl(s, j) <= s.len(),
    decreases s.len() - j,
{
    if j < s.len() && !(s[j] == ';' || s[j] == '{' || s[j] == '}') {
        lemma_scan_stop_decl_bounds(s, j + 1);
    }
}

#[verifier::loop_isolation(false)]
fn find_stop_decl(cs: &Vec<char>, j: usize) -> (r: usize)
    requires
        j <= cs@.len(),
    ensures
        r == scan_stop_decl(cs@, j as int),
        j <= r && r <= cs@.len(),
{
    proof {
        lemma_scan_stop_decl_bounds(cs@, j as int);
    }
    let mut k = j;
    while k < cs.len() && cs[k] != ';' && cs[k] != '{' && cs[k] != '}'
        invariant
            j <= k && k <= cs@.len(),
            scan_stop_decl(cs@, j as int) == scan_stop_decl(cs@, k as int),
        decreases cs@.len() - k,
    {
        k = k + 1;
    }
    k
}

/// First index at or past `j` holding `;`, or the length.
pub open spec fn scan_semi(s: Seq<char>, j: int) -> int
    decreases s.len() - j,
{
    if j < 0 || j >= s.len() {
        s.len() as int
    } else if s[j] == ';' {
        j
    } else {
        scan_semi(s, j + 1)
    }
}

proof fn lemma_scan_semi_bounds(s: Seq<char>, j: int)
    requires
        0 <= j && j <= s.len(),
    ensures
        j <= scan_semi(s, j) && scan_semi(s, j) <= s.len(),
    decreases s.len() - j,
{
    if j < s.len() && s[j] != ';' {
        lemma_scan_semi_bounds(s, j + 1);
    }
}

#[verifier::loop_isolation(false)]
fn find_semi(cs: &Vec<char>, j: usize) -> (r: usize)
    requires
        j <= cs@.len(),
    ensures
        r == scan_semi(cs@, j as int),
        j <= r && r <= cs@.len(),
{
    proof {
        lemma_scan_semi_bounds(cs@, j as int);
    }
    let mut k = j;
    while k < cs.len() && cs[k] != ';'
        invariant
            j <= k && k <= cs@.len(),
            scan_semi(cs@, j as int) == scan_semi(cs@, k as int),
        decreases cs@.len() - k,
    {
        k = k + 1;
    }
    k
}

/// First index of `:` in `[j, end)`, or `end`.
pub open spec fn scan_colon(s: Seq<char>, j: int, end: int) -> int
    decreases end - j,
{
    if j < 0 || j >= end || j >= s.len() {
        end
    } else if s[j] == ':' {
        j
    } else {
        scan_colon(s, j + 1, end)
    }
}

proof fn lemma_scan_colon_bounds(s: Seq<char>, j: int, end: int)
    requires
        0 <= j && j <= end,
    ensures
        j <= scan_colon(s, j, end) && scan_colon(s, j, end) <= end,
    decreases end - j,
{
    if j < end && j < s.len() && s[j] != ':' {
        lemma_scan_colon_bounds(s, j + 1, end);
    }
}

#[verifier::loop_isolation(false)]
fn find_colon(cs: &Vec<char>, j: usize, end: usize) -> (r: usize)
    requires
        j <= end && end <= cs@.len(),
    ensures
        r == scan_colon(cs@, j as int, end as int),
        j <= r && r <= end,
{
    proof {
        lemma_scan_colon_bounds(cs@, j as int, end as int);
    }
    let mut k = j;
    while k < end && cs[k] != ':'
        invariant
            j <= k && k <= end && end <= cs@.len(),
            scan_colon(cs@, j as int, end as int) == scan_colon(cs@, k as int, end as int),
        decreases end - k,
    {
        k = k + 1;
    }
    k
}

/// Index of the brace that closes the block opened at or after `k` when
/// the running depth is `d`, or the length when it never closes.
pub open spec fn brace_end(s: Seq<char>, k: int, d: int) -> int
    decreases s.len() - k,
{
    if k < 0 || k >= s.len() {
        s.len() as int
    } else if s[k] == '{' {
        brace_end(s, k + 1, d + 1)
    } else if s[k] == '}' {
        if d <= 1 {
            k
        } else {
            brace_end(s, k + 1, d - 1)
        }
    } else {
        brace_end(s, k + 1, d)
    }
}

proof fn lemma_brace_end_bounds(s: Seq<char>, k: int, d: int)
    requires
        0 <= k && k <= s.len(),
    ensures
        k <= brace_end(s, k, d) && brace_end(s, k, d) <= s.len(),
    decreases s.len() - k,
{
    if k < s.len() {
        if s[k] == '{' {
            lemma_brace_end_bounds(s, k + 1, d + 1);
        } else if s[k] == '}' {
            if d > 1 {
                lemma_brace_end_bounds(s, k + 1, d - 1);
            }
        } else {
            lemma_brace_end_bounds(s, k + 1, d);
        }
    }
}

#[verifier::loop_isolation(false)]
fn find_brace_end(cs: &Vec<char>, j: usize) -> (r: usize)
    requires
        j <= cs@.len(),
    ensures
        r == brace_end(cs@, j as int, 0),
        j <= r && r <= cs@.len(),
{
    proof {
        lemma_brace_end_bounds(cs@, j as int, 0);
    }
    let mut k = j;
    let mut d: usize = 0;
    loop
        invariant
            j <= k && k <= cs@.len(),
            d <= k,
            brace_end(cs@, j as int, 0) == brace_end(cs@, k as int, d as int),
        decreases cs@.len() - k,
    {
        if k >= cs.len() {
            return k;
        }
        let ck = cs[k];
        if ck == '{' {
            d = d + 1;
        } else if ck == '}' {
            if d <= 1 {
                return k;
            }
            d = d - 1;
        }
        k = k + 1;
    }
}

/// The selector list of a rule header slice `[seg, b)` being split from
/// index `k` on: top-level commas (parenthesis depth `d` zero) separate
/// selectors, and each selector is trimmed.
pub open spec fn split_sel_from(s: Seq<char>, seg: int, k: int, b: int, d: int) -> Seq<Seq<char>>
    decreases b - k,
{
    if k < 0 || k >= b || k >= s.len() {
        seq![trim_of(s, seg, b)]
    } else if s[k] == '(' {
        split_sel_from(s, seg, k + 1, b, d + 1)
    } else if s[k] == ')' {
        split_sel_from(
            s,
            seg,
            k + 1,
            b,
            if d > 0 {
                d - 1
            } else {
                0
            },
        )
    } else if s[k] == ',' && d == 0 {
        seq![trim_of(s, seg, k)] + split_sel_from(s, k + 1, k + 1, b, 0)
    } else {
        split_sel_from(s, seg, k + 1, b, d)
    }
}

/// The selector list of the header slice `[a, b)`: split on top-level
/// commas only, each selector trimmed.
pub open spec fn split_selectors_spec(s: Seq<char>, a: int, b: int) -> Seq<Seq<char>> {
    split_sel_from(s, a, a, b, 0)
}

/// Splits a rule header into its selector list on top-level commas only
/// (commas inside parentheses do not split); each selector is trimmed.
#[verifier::loop_isolation(false)]
pub fn split_selectors(cs: &Vec<char>, a: usize, b: usize) -> (r: Vec<String>)
    requires
        a <= b && b <= cs@.len(),
    ensures
        r.deep_view() == split_selectors_spec(cs@, a as int, b as int),
        r@.len() > 0,
{
    let mut out: Vec<String> = Vec::new();
    let mut depth: usize = 0;
    let mut seg: usize = a;
    let mut k = a;
    while k < b
        invariant
            a <= seg && seg <= k && k <= b && b <= cs@.len(),
            depth <= k,
            split_selectors_spec(cs@, a as int, b as int) == out.deep_view() + split_sel_from(
                cs@,
                seg as int,
                k as int,
                b as int,
                depth as int,
            ),
        decreases b - k,
    {
        let c = cs[k];
        if c == '(' {
            depth = depth + 1;
        } else if c == ')' {
            if depth > 0 {
                depth = depth - 1;
            }
        } else if c == ',' && depth == 0 {
            let s = from_chars(&trim_range(cs, seg, k));
            let ghost pre = out@;
            let ghost predv = out.deep_view();
            out.push(s);
            proof {
                let ghost rhs = predv.push(trim_of(cs@, seg as int, k as int));
                assert forall|t: int| 0 <= t && t < out@.len() implies out.deep_view()[t]
                    == rhs[t] by {
                    assert(out.deep_view()[t] == out@[t].deep_view());
                    if t < pre.len() {
                        assert(out@[t] == pre[t]);
                    }
                }
                assert(out.deep_view() =~= rhs);
                assert((predv + (seq![trim_of(cs@, seg as int, k as int)] + split_sel_from(
                    cs@,
                    k + 1,
                    k + 1,
                    b as int,
                    0,
                ))) =~= rhs + split_sel_from(cs@, k + 1, k + 1, b as int, 0));
            }
            seg = k + 1;
        }
        k = k + 1;
    }
    let s = from_chars(&trim_range(cs, seg, b));
    let ghost pre = out@;
    let ghost predv = out.deep_view();
    out.push(s);
    proof {
        let ghost rhs = predv.push(trim_of(cs@, seg as int, b as int));
        assert forall|t: int| 0 <= t && t < out@.len() implies out.deep_view()[t] == rhs[t] by {
            assert(out.deep_view()[t] == out@[t].deep_view());
            if t < pre.len() {
                assert(out@[t] == pre[t]);
            }
        }
        assert(out.deep_view() =~= rhs);
        assert(predv + seq![trim_of(cs@, seg as int, b as int)] =~= rhs);
    }
    out
}

/// The outcome of parsing one block scope: the node values and the index
/// just past the scope, or the error.
pub enum ParsedSpec {
    Nodes { nodes: Seq<NodeSpec>, next: int },
    Fault { err: Error },
}

/// Prepends one parsed item to a scope's remaining outcome.
pub open spec fn with_item(nd: NodeSpec, rest: ParsedSpec) -> ParsedSpec {
    match rest {
        ParsedSpec::Nodes { nodes, next } => ParsedSpec::Nodes { nodes: seq![nd] + nodes, next },
        ParsedSpec::Fault { err } => ParsedSpec::Fault { err },
    }
}

/// Prepends already-parsed items to a scope's remaining outcome.
pub open spec fn append_rest(pre: Seq<NodeSpec>, rest: ParsedSpec) -> ParsedSpec {
    match rest {
        ParsedSpec::Nodes { nodes, next } => ParsedSpec::Nodes { nodes: pre + nodes, next },
        ParsedSpec::Fault { err } => ParsedSpec::Fault { err },
    }
}

proof fn lemma_append_rest_empty(rest: ParsedSpec)
    ensures
        append_rest(Seq::empty(), rest) == rest,
{
    if rest is Nodes {
        assert(Seq::<NodeSpec>::empty() + rest->Nodes_nodes =~= rest->Nodes_nodes);
    }
}

proof fn lemma_append_rest_step(pre: Seq<NodeSpec>, nd: NodeSpec, rest: ParsedSpec)
    ensures
        append_rest(pre, with_item(nd, rest)) == append_rest(pre.push(nd), rest),
{
    if rest is Nodes {
        assert(pre + (seq![nd] + rest->Nodes_nodes) =~= pre.push(nd) + rest->Nodes_nodes);
    }
}

/// The grammar of one block scope from `start` on, written as a function
/// of the text: variable declarations (`$name: value;`), plain
/// declarations (`property: value;`), nested rules (header, brace-
/// delimited body with the same grammar), and raw at-rule blocks (any
/// at-sign construct, captured verbatim through its terminator or its
/// matching closing brace), in any order, with whitespace and comments
/// between them.  At the top level the scope ends at end of input, else
/// at the closing brace.  Unterminated statements or blocks and
/// unrecognized constructs are faults with an approximate offset.
pub open spec fn parse_block_spec(s: Seq<char>, start: int, depth: int, top: bool) -> ParsedSpec
    decreases s.len() - start,
        via parse_block_spec_decreases
{
    if depth > MAX_DEPTH as int {
        ParsedSpec::Fault { err: Error::DepthExceeded }
    } else if start < 0 || start > s.len() {
        ParsedSpec::Fault { err: Error::Syntax { offset: 0 } }
    } else {
        let i = skip_spec(s, start);
        if i >= s.len() {
            if top {
                ParsedSpec::Nodes { nodes: Seq::empty(), next: i }
            } else {
                ParsedSpec::Fault { err: Error::Syntax { offset: i as usize } }
            }
        } else if s[i] == '}' {
            if top {
                ParsedSpec::Fault { err: Error::Syntax { offset: i as usize } }
            } else {
                ParsedSpec::Nodes { nodes: Seq::empty(), next: i + 1 }
            }
        } else if s[i] == '@' {
            let j = scan_stop_at(s, i);
            if j >= s.len() {
                ParsedSpec::Fault { err: Error::Syntax { offset: i as usize } }
            } else if s[j] == ';' {
                with_item(
                    NodeSpec::RawAt { text: s.subrange(i, j + 1) },
                    parse_block_spec(s, j + 1, depth, top),
                )
            } else {
                let k = brace_end(s, j, 0);
                if k >= s.len() {
                    ParsedSpec::Fault { err: Error::Syntax { offset: i as usize } }
                } else {
                    with_item(
                        NodeSpec::RawAt { text: s.subrange(i, k + 1) },
                        parse_block_spec(s, k + 1, depth, top),
                    )
                }
            }
        } else if s[i] == '$' {
            let name = ident_at(s, i + 1);
            if name.len() == 0 {
                ParsedSpec::Fault { err: Error::Syntax { offset: i as usize } }
            } else {
                let p = skip_spec(s, i + 1 + name.len());
                if p >= s.len() || s[p] != ':' {
                    ParsedSpec::Fault { err: Error::Syntax { offset: p as usize } }
                } else {
                    let q = scan_semi(s, p + 1);
                    if q >= s.len() {
                        ParsedSpec::Fault { err: Error::Syntax { offset: i as usize } }
                    } else {
                        with_item(
                            NodeSpec::VarDecl { name, value: trim_of(s, p + 1, q) },
                            parse_block_spec(s, q + 1, depth, top),
                        )
                    }
                }
            }
        } else {
            let j = scan_stop_decl(s, i);
            if j >= s.len() || s[j] == '}' {
                ParsedSpec::Fault { err: Error::Syntax { offset: i as usize } }
            } else if s[j] == ';' {
                let m = scan_colon(s, i, j);
                if m >= j {
                    ParsedSpec::Fault { err: Error::Syntax { offset: i as usize } }
                } else {
                    with_item(
                        NodeSpec::Decl { prop: trim_of(s, i, m), value: trim_of(s, m + 1, j) },
                        parse_block_spec(s, j + 1, depth, top),
                    )
                }
            } else {
                let sels = split_selectors_spec(s, i, j);
                match parse_block_spec(s, j + 1, depth + 1, false) {
                    ParsedSpec::Fault { err } => ParsedSpec::Fault { err },
                    ParsedSpec::Nodes { nodes: bn, next: bnext } => {
                        let c = if j + 2 <= bnext && bnext <= s.len() {
                            bnext
                        } else {
                            s.len() as int
                        };
                        with_item(
                            NodeSpec::Rule { selectors: sels, body: bn },
                            parse_block_spec(s, c, depth, top),
                        )
                    },
                }
            }
        }
    }
}

#[via_fn]
proof fn parse_block_spec_decreases(s: Seq<char>, start: int, depth: int, top: bool) {
    if depth <= MAX_DEPTH as int && 0 <= start && start <= s.len() {
        lemma_skip_spec_bounds(s, start);
        let i = skip_spec(s, start);
        if i < s.len() {
            lemma_scan_stop_at_bounds(s, i);
            lemma_scan_stop_decl_bounds(s, i);
            lemma_brace_end_bounds(s, scan_stop_at(s, i), 0);
            if s[i] == '$' {
                lemma_ident_at_len(s, i + 1);
                let name = ident_at(s, i + 1);
                if name.len() > 0 {
                    lemma_skip_spec_bounds(s, i + 1 + name.len());
                    let p = skip_spec(s, i + 1 + name.len());
                    if 0 <= p + 1 && p + 1 <= s.len() {
                        lemma_scan_semi_bounds(s, p + 1);
                    }
                }
            }
        }
    }
}

/// The parse of a whole source text: its top-level nodes, or the fault.
pub open spec fn parse_spec(s: Seq<char>) -> ParsedSpec {
    parse_block_spec(s, 0, 0, true)
}

/// Parses one block scope from `start` on, exactly as
/// [`parse_block_spec`] describes.  Returns the nodes and the index just
/// past the scope.
#[verifier::loop_isolation(false)]
#[verifier::rlimit(100)]
pub fn parse_block(cs: &Vec<char>, start: usize, depth: usize, top: bool) -> (r: Result<
    (Vec<Node>, usize),
    Error,
>)
    requires
        start <= cs@.len(),
    ensures
        r matches Ok(t) ==> start <= t.1 && t.1 <= cs@.len() && nodes_wf(t.0@),
        r matches Ok(t) ==> parse_block_spec(cs@, start as int, depth as int, top) == (
        ParsedSpec::Nodes { nodes: nodes_view(t.0@), next: t.1 as int }),
        r matches Err(e) ==> parse_block_spec(cs@, start as int, depth as int, top) == (
        ParsedSpec::Fault { err: e }),
        r matches Err(e) ==> (e is Syntax || e is DepthExceeded),
        r matches Err(e) ==> (e matches Error::Syntax { offset } ==> offset <= cs@.len()),
        !top ==> (r matches Ok(t) ==> t.1 > start),
    decreases cs@.len() - start,
{
    if depth > MAX_DEPTH {
        return Err(Error::DepthExceeded);
    }
    let len = cs.len();
    let mut i = start;
    let mut nodes: Vec<Node> = Vec::new();
    proof {
        assert(nodes_view(nodes@) =~= Seq::<NodeSpec>::empty());
        lemma_append_rest_empty(parse_block_spec(cs@, start as int, depth as int, top));
    }
    loop
        invariant
            start <= i && i <= cs@.len(),
            len == cs@.len(),
            nodes_wf(nodes@),
            depth <= MAX_DEPTH,
            start == cs@.len() ==> nodes@.len() == 0,
            parse_block_spec(cs@, start as int, depth as int, top) == append_rest(
                nodes_view(nodes@),
                parse_block_spec(cs@, i as int, depth as int, top),
            ),
        decreases cs@.len() - i,
    {
        let ghost i_pre = i as int;
        i = skip_ws_comments(cs, i);
        proof {
            assert(i as int == skip_spec(cs@, i_pre));
        }
        if i >= len {
            if top {
                proof {
                    assert(nodes_view(nodes@) + Seq::<NodeSpec>::empty() =~= nodes_view(nodes@));
                }
                return Ok((nodes, i));
            } else {
                return Err(Error::Syntax { offset: i });
            }
        }
        let c = cs[i];
        if c == '}' {
            if top {
                return Err(Error::Syntax { offset: i });
            } else {
                proof {
                    assert(nodes_view(nodes@) + Seq::<NodeSpec>::empty() =~= nodes_view(nodes@));
                }
                return Ok((nodes, i + 1));
            }
        } else if c == '@' {
            let j = find_stop_at(cs, i);
            if j >= len {
                return Err(Error::Syntax { offset: i });
            }
            if cs[j] == ';' {
                let text = from_chars(&copy_range(cs, i, j + 1));
                proof {
                    lemma_nodes_wf_push(nodes@, Node::RawAt { text });
                    lemma_nodes_view_push(nodes@, Node::RawAt { text });
                    lemma_append_rest_step(
                        nodes_view(nodes@),
                        node_view(Node::RawAt { text }),
                        parse_block_spec(cs@, j + 1, depth as int, top),
                    );
                }
                nodes.push(Node::RawAt { text });
                i = j + 1;
            } else {
                let k = find_brace_end(cs, j);
                if k >= len {
                    return Err(Error::Syntax { offset: i });
                }
                let text = from_chars(&copy_range(cs, i, k + 1));
                proof {
                    lemma_nodes_wf_push(nodes@, Node::RawAt { text });
                    lemma_nodes_view_push(nodes@, Node::RawAt { text });
                    lemma_append_rest_step(
                        nodes_view(nodes@),
                        node_view(Node::RawAt { text }),
                        parse_block_spec(cs@, k + 1, depth as int, top),
                    );
                }
                nodes.push(Node::RawAt { text });
                i = k + 1;
            }
        } else if c == '$' {
            let (name_cs, after) = read_ident(cs, i + 1);
            if name_cs.len() == 0 {
                return Err(Error::Syntax { offset: i });
            }
            proof {
                lemma_ident_at_len(cs@, i + 1);
            }
            let p = skip_ws_comments(cs, after);
            if p >= len || cs[p] != ':' {
                return Err(Error::Syntax { offset: p });
            }
            let q = find_semi(cs, p + 1);
            if q >= len {
                return Err(Error::Syntax { offset: i });
            }
            let name = from_chars(&name_cs);
            let value = from_chars(&trim_range(cs, p + 1, q));
            proof {
                lemma_nodes_wf_push(nodes@, Node::VarDecl { name, value });
                lemma_nodes_view_push(nodes@, Node::VarDecl { name, value });
                lemma_append_rest_step(
                    nodes_view(nodes@),
                    node_view(Node::VarDecl { name, value }),
                    parse_block_spec(cs@, q + 1, depth as int, top),
                );
            }
            nodes.push(Node::VarDecl { name, value });
            i = q + 1;
        } else {
            let j = find_stop_decl(cs, i);
            if j >= len || cs[j] == '}' {
                return Err(Error::Syntax { offset: i });
            }
            if cs[j] == ';' {
                let m = find_colon(cs, i, j);
                if m >= j {
                    return Err(Error::Syntax { offset: i });
                }
                let prop = from_chars(&trim_range(cs, i, m));
                let value = from_chars(&trim_range(cs, m + 1, j));
                proof {
                    lemma_nodes_wf_push(nodes@, Node::Decl { prop, value });
                    lemma_nodes_view_push(nodes@, Node::Decl { prop, value });
                    lemma_append_rest_step(
                        nodes_view(nodes@),
                        node_view(Node::Decl { prop, value }),
                        parse_block_spec(cs@, j + 1, depth as int, top),
                    );
                }
                nodes.push(Node::Decl { prop, value });
                i = j + 1;
            } else {
                let selectors = split_selectors(cs, i, j);
                match parse_block(cs, j + 1, depth + 1, false) {
                    Ok((body, next)) => {
                        proof {
                            assert(nodes_view(body@) == parse_block_spec(
                                cs@,
                                j + 1,
                                depth as int + 1,
                                false,
                            )->Nodes_nodes);
                            lemma_nodes_wf_push(nodes@, Node::Rule { selectors, body });
                            lemma_nodes_view_push(nodes@, Node::Rule { selectors, body });
                            lemma_append_rest_step(
                                nodes_view(nodes@),
                                node_view(Node::Rule { selectors, body }),
                                parse_block_spec(cs@, next as int, depth as int, top),
                            );
                        }
                        nodes.push(Node::Rule { selectors, body });
                        i = next;
                    },
                    Err(e) => {
                        return Err(e);
                    },
                }
            }
        }
    }
}

/// Parses merged source text into the stylesheet tree, exactly as
/// [`parse_spec`] describes: `Ok` if and only if the whole text parses,
/// else the fault with its approximate offset.
pub fn parse_scss(src: &str) -> (r: Result<Ast, Error>)
    ensures
        r matches Ok(ast) ==> nodes_wf(ast.nodes@),
        r is Ok <==> parse_spec(src@) is Nodes,
        r matches Ok(ast) ==> nodes_view(ast.nodes@) == parse_spec(src@)->Nodes_nodes,
        r matches Err(e) ==> parse_spec(src@) == (ParsedSpec::Fault { err: e }),
        r matches Err(e) ==> (e is Syntax || e is DepthExceeded),
        r matches Err(e) ==> (e matches Error::Syntax { offset } ==> offset <= src@.len()),
        src@.len() == 0 ==> (r matches Ok(ast) && ast.nodes@.len() == 0),
{
    let cs = to_chars(src);
    match parse_block(&cs, 0, 0, true) {
        Ok((nodes, _end)) => {
            proof {
                if src@.len() == 0 {
                    assert(nodes_view(nodes@).len() == 0);
                    assert(nodes@.len() == 0) by {
                        if nodes@.len() > 0 {
                            assert(nodes_view(nodes@).len() > 0);
                        }
                    }
                }
            }
            Ok(Ast { nodes })
        },
        Err(e) => Err(e),
    }
}

} // verus!
