use vstd::prelude::*;

use crate::error::Error;
use crate::parser::{Ast, Node};
use crate::selector::{merge_selectors, merge_spec};
use crate::text::{clone_strings, from_chars, push_all, to_chars};
use crate::value::{resolve_from, Vars};

verus! {

/// The mathematical shape of one output block: either a list of
/// declarations under a selector list, or a raw at-rule's verbatim text.
pub enum FlatSpec {
    Block { selectors: Seq<Seq<char>>, decls: Seq<(Seq<char>, Seq<char>)> },
    Raw { text: Seq<char> },
}

/// One flattened rule, consumed immediately by the renderer.
pub enum FlatRule {
    Block { selectors: Vec<String>, decls: Vec<(String, String)> },
    Raw { text: String },
}

/// The declaration list as pairs of character sequences.
pub open spec fn decls_view(d: Seq<(String, String)>) -> Seq<(Seq<char>, Seq<char>)> {
    Seq::new(d.len(), |i: int| (d[i].0@, d[i].1@))
}

impl FlatRule {
    /// The mathematical value of this flattened rule.
    pub open spec fn model(&self) -> FlatSpec {
        match self {
            FlatRule::Block { selectors, decls } => FlatSpec::Block {
                selectors: selectors.deep_view(),
                decls: decls_view(decls@),
            },
            FlatRule::Raw { text } => FlatSpec::Raw { text: text@ },
        }
    }
}

/// The models of a whole list of flattened rules.
pub open spec fn flat_view(v: Seq<FlatRule>) -> Seq<FlatSpec> {
    Seq::new(v.len(), |i: int| v[i].model())
}

proof fn lemma_flat_view_push(v: Seq<FlatRule>, r: FlatRule)
    ensures
        flat_view(v.push(r)) == flat_view(v).push(r.model()),
{
    assert forall|t: int| 0 <= t && t < v.push(r).len() implies flat_view(v.push(r))[t]
        == flat_view(v).push(r.model())[t] by {
        if t < v.len() {
            assert(v.push(r)[t] == v[t]);
        } else {
            assert(v.push(r)[t] == r);
        }
    }
    assert(flat_view(v.push(r)) =~= flat_view(v).push(r.model()));
}

/// The selector list a pending buffer is flushed under: the ancestor
/// chain, or the root pseudo-selector when there is none.
pub open spec fn root_or(parents: Seq<Seq<char>>) -> Seq<Seq<char>> {
    if parents.len() == 0 {
        seq![":root"@]
    } else {
        parents
    }
}

/// Flushing a pending declaration buffer: one block, or nothing when the
/// buffer is empty.
pub open spec fn flush(pending: Seq<(Seq<char>, Seq<char>)>, parents: Seq<Seq<char>>) -> Seq<
    FlatSpec,
> {
    if pending.len() == 0 {
        Seq::empty()
    } else {
        seq![FlatSpec::Block { selectors: root_or(parents), decls: pending }]
    }
}

/// Depth-first flattening of a node list: variable declarations update
/// the one global table; plain declarations accumulate, with their values
/// substituted, in the pending buffer; a raw at-rule is emitted at once;
/// a nested rule first flushes the pending buffer, then contributes its
/// own blocks under the merged selector chain.  Whatever is pending at
/// the end is flushed last.  Returns the emitted blocks and the table
/// after the walk.
pub open spec fn flatten_spec(
    nodes: Seq<Node>,
    vars: Map<Seq<char>, Seq<char>>,
    parents: Seq<Seq<char>>,
    pending: Seq<(Seq<char>, Seq<char>)>,
) -> (Seq<FlatSpec>, Map<Seq<char>, Seq<char>>)
    decreases nodes,
        via flatten_spec_decreases
{
    if nodes.len() == 0 {
        (flush(pending, parents), vars)
    } else {
        match nodes[0] {
            Node::VarDecl { name, value } => flatten_spec(
                nodes.drop_first(),
                vars.insert(name@, value@),
                parents,
                pending,
            ),
            Node::Decl { prop, value } => flatten_spec(
                nodes.drop_first(),
                vars,
                parents,
                pending.push((prop@, resolve_from(vars, value@, 0))),
            ),
            Node::RawAt { text } => {
                let rest = flatten_spec(nodes.drop_first(), vars, parents, Seq::empty());
                (flush(pending, parents) + seq![FlatSpec::Raw { text: text@ }] + rest.0, rest.1)
            },
            Node::Rule { selectors, body } => {
                let merged = merge_spec(parents, selectors.deep_view());
                let inner = flatten_spec(body@, vars, merged, Seq::empty());
                let rest = flatten_spec(nodes.drop_first(), inner.1, parents, Seq::empty());
                (flush(pending, parents) + inner.0 + rest.0, rest.1)
            },
        }
    }
}

#[via_fn]
proof fn flatten_spec_decreases(
    nodes: Seq<Node>,
    vars: Map<Seq<char>, Seq<char>>,
    parents: Seq<Seq<char>>,
    pending: Seq<(Seq<char>, Seq<char>)>,
) {
    if nodes.len() > 0 {
        assert(decreases_to!(nodes => nodes.drop_first()));
        assert(decreases_to!(nodes => nodes[0]));
        match nodes[0] {
            Node::Rule { selectors, body } => {
                assert(decreases_to!(nodes[0] => body));
                assert(decreases_to!(body => body@));
            },
            _ => {},
        }
    }
}

/// Flushes the pending declaration buffer as one output block under the
/// current ancestor chain, or under the root pseudo-selector.
fn flush_decls(out: &mut Vec<FlatRule>, decls: Vec<(String, String)>, parents: &Vec<String>)
    ensures
        flat_view(final(out)@) == flat_view(old(out)@) + flush(
            decls_view(decls@),
            parents.deep_view(),
        ),
{
    if decls.len() == 0 {
        proof {
            assert(decls_view(decls@).len() == 0);
            assert(flat_view(out@) =~= flat_view(out@) + flush(
                decls_view(decls@),
                parents.deep_view(),
            ));
        }
        return ;
    }
    let sel: Vec<String> = if parents.len() == 0 {
        let mut v: Vec<String> = Vec::new();
        v.push(":root".to_owned());
        proof {
            assert forall|t: int| 0 <= t && t < v.deep_view().len() implies v.deep_view()[t]
                == root_or(parents.deep_view())[t] by {
                assert(v.deep_view()[t] == v@[t].deep_view());
            }
            assert(v.deep_view() =~= root_or(parents.deep_view()));
        }
        v
    } else {
        clone_strings(parents)
    };
    let ghost pre = out@;
    let rule = FlatRule::Block { selectors: sel, decls };
    out.push(rule);
    proof {
        lemma_flat_view_push(pre, rule);
        assert(flat_view(out@) =~= flat_view(pre) + flush(
            decls_view(rule->Block_decls@),
            parents.deep_view(),
        ));
    }
}

/// Walks the nodes depth first, threading the one global variable table,
/// and appends the flattened blocks to `out` exactly as
/// [`flatten_spec`] describes.
pub fn flatten_nodes(
    nodes: &Vec<Node>,
    vars: &mut Vars,
    out: &mut Vec<FlatRule>,
    parents: &Vec<String>,
)
    ensures
        flat_view(final(out)@) == flat_view(old(out)@) + flatten_spec(
            nodes@,
            old(vars)@,
            parents.deep_view(),
            Seq::empty(),
        ).0,
        final(vars)@ == flatten_spec(nodes@, old(vars)@, parents.deep_view(), Seq::empty()).1,
    decreases nodes@,
{
    let ghost pdv = parents.deep_view();
    let ghost vars0 = vars@;
    let ghost out0 = out@;
    let mut decls: Vec<(String, String)> = Vec::new();
    let mut i: usize = 0;
    proof {
        assert(nodes@.skip(0) =~= nodes@);
        assert(decls_view(decls@) =~= Seq::<(Seq<char>, Seq<char>)>::empty());
    }
    while i < nodes.len()
        invariant
            i <= nodes@.len(),
            pdv == parents.deep_view(),
            flat_view(out@) + flatten_spec(nodes@.skip(i as int), vars@, pdv, decls_view(decls@)).0
                == flat_view(out0) + flatten_spec(nodes@, vars0, pdv, Seq::empty()).0,
            flatten_spec(nodes@.skip(i as int), vars@, pdv, decls_view(decls@)).1 == flatten_spec(
                nodes@,
                vars0,
                pdv,
                Seq::empty(),
            ).1,
        decreases nodes@.len() - i,
    {
        proof {
            assert(nodes@.skip(i as int)[0] == nodes@[i as int]);
            assert(nodes@.skip(i as int).drop_first() =~= nodes@.skip(i + 1));
        }
        let n = &nodes[i];
        match n {
            Node::VarDecl { name, value } => {
                vars.set(name.as_str(), value.as_str());
            },
            Node::Decl { prop, value } => {
                let v = vars.resolve_value(value.as_str());
                let pair = (prop.clone(), v);
                let ghost dpre = decls@;
                decls.push(pair);
                proof {
                    assert forall|t: int| 0 <= t && t < decls@.len() implies decls_view(decls@)[t]
                        == decls_view(dpre).push(
                        (pair.0@, pair.1@),
                    )[t] by {
                        if t < dpre.len() {
                            assert(decls@[t] == dpre[t]);
                        } else {
                            assert(decls@[t] == pair);
                        }
                    }
                    assert(decls_view(decls@) =~= decls_view(dpre).push((pair.0@, pair.1@)));
                }
            },
            Node::RawAt { text } => {
                let d = decls;
                decls = Vec::new();
                let ghost flushed = flush(decls_view(d@), pdv);
                let ghost pre = out@;
                flush_decls(out, d, parents);
                let ghost mid = out@;
                let rule = FlatRule::Raw { text: text.clone() };
                out.push(rule);
                proof {
                    lemma_flat_view_push(mid, rule);
                    let rest = flatten_spec(nodes@.skip(i + 1), vars@, pdv, decls_view(decls@)).0;
                    assert(decls_view(decls@) =~= Seq::<(Seq<char>, Seq<char>)>::empty());
                    assert(flat_view(mid).push(rule.model()) =~= flat_view(mid) + seq![
                        FlatSpec::Raw { text: text@ },
                    ]);
                    assert(flat_view(out@) =~= (flat_view(pre) + flushed) + seq![
                        FlatSpec::Raw { text: text@ },
                    ]);
                    assert(((flat_view(pre) + flushed) + seq![FlatSpec::Raw { text: text@ }])
                        + rest =~= flat_view(pre) + (flushed + seq![FlatSpec::Raw { text: text@ }]
                        + rest));
                }
            },
            Node::Rule { selectors, body } => {
                let d = decls;
                decls = Vec::new();
                let ghost flushed = flush(decls_view(d@), pdv);
                let ghost pre = out@;
                flush_decls(out, d, parents);
                let merged = merge_selectors(parents, selectors);
                let ghost inner = flatten_spec(
                    body@,
                    vars@,
                    merge_spec(pdv, selectors.deep_view()),
                    Seq::empty(),
                );
                let ghost mid = out@;
                proof {
                    assert(decreases_to!(nodes@ => nodes@[i as int]));
                    assert(decreases_to!(nodes@[i as int] => *body));
                    assert(decreases_to!(*body => body@));
                }
                flatten_nodes(body, vars, out, &merged);
                proof {
                    let rest = flatten_spec(nodes@.skip(i + 1), inner.1, pdv, Seq::empty());
                    assert(decls_view(decls@) =~= Seq::<(Seq<char>, Seq<char>)>::empty());
                    assert(flat_view(out@) =~= flat_view(mid) + inner.0);
                    assert(flat_view(mid) =~= flat_view(pre) + flushed);
                    assert((flat_view(pre) + flushed + inner.0) + rest.0 =~= flat_view(pre) + (
                    flushed + inner.0 + rest.0));
                }
            },
        }
        i = i + 1;
    }
    proof {
        assert(nodes@.skip(nodes@.len() as int) =~= Seq::<Node>::empty());
    }
    let d = decls;
    flush_decls(out, d, parents);
}

/// Selectors joined by a comma and a space.
pub open spec fn join_sel(sels: Seq<Seq<char>>, i: int) -> Seq<char>
    decreases sels.len() - i,
{
    if i < 0 || i >= sels.len() {
        Seq::empty()
    } else if i == sels.len() - 1 {
        sels[i]
    } else {
        sels[i] + seq![',', ' '] + join_sel(sels, i + 1)
    }
}

/// Declarations rendered as two-space-indented `property: value;` lines.
pub open spec fn render_decls(decls: Seq<(Seq<char>, Seq<char>)>, i: int) -> Seq<char>
    decreases decls.len() - i,
{
    if i < 0 || i >= decls.len() {
        Seq::empty()
    } else {
        seq![' ', ' '] + decls[i].0 + seq![':', ' '] + decls[i].1 + seq![';', '\n'] + render_decls(
            decls,
            i + 1,
        )
    }
}

/// One rendered output block: raw text goes out verbatim with an ensured
/// trailing newline and a blank separator line; an empty block renders
/// as nothing; any other block is its joined selectors, a brace-wrapped
/// declaration list, and a blank separator line.
pub open spec fn render_item(item: FlatSpec) -> Seq<char> {
    match item {
        FlatSpec::Raw { text } => text + (if text.len() > 0 && text[text.len() - 1] == '\n' {
            Seq::<char>::empty()
        } else {
            seq!['\n']
        }) + seq!['\n'],
        FlatSpec::Block { selectors, decls } => {
            if decls.len() == 0 {
                Seq::empty()
            } else {
                join_sel(selectors, 0) + seq![' ', '{', '\n'] + render_decls(decls, 0) + seq![
                    '}',
                    '\n',
                    '\n',
                ]
            }
        },
    }
}

/// All blocks from index `i` on, rendered in document order.
pub open spec fn render_flat(items: Seq<FlatSpec>, i: int) -> Seq<char>
    decreases items.len() - i,
{
    if i < 0 || i >= items.len() {
        Seq::empty()
    } else {
        render_item(items[i]) + render_flat(items, i + 1)
    }
}

/// Renders one raw at-rule block into `out`.
fn render_raw(out: &mut Vec<char>, text: &String)
    ensures
        final(out)@ == old(out)@ + render_item(FlatSpec::Raw { text: text@ }),
{
    let tc = to_chars(text.as_str());
    push_all(out, &tc);
    if tc.len() == 0 || tc[tc.len() - 1] != '\n' {
        out.push('\n');
        proof {
            assert((old(out)@ + text@).push('\n').push('\n') =~= old(out)@ + (text@ + seq!['\n']
                + seq!['\n']));
        }
    } else {
        proof {
            assert((old(out)@ + text@).push('\n') =~= old(out)@ + (text@ + Seq::<char>::empty()
                + seq!['\n']));
        }
    }
    out.push('\n');
}

/// Renders one declaration block into `out`.
fn render_block(out: &mut Vec<char>, selectors: &Vec<String>, decls: &Vec<(String, String)>)
    ensures
        final(out)@ == old(out)@ + render_item(
            FlatSpec::Block { selectors: selectors.deep_view(), decls: decls_view(decls@) },
        ),
{
    let ghost sdv = selectors.deep_view();
    let ghost ddv = decls_view(decls@);
    if decls.len() == 0 {
        proof {
            assert(ddv.len() == 0);
            assert(old(out)@ + render_item(FlatSpec::Block { selectors: sdv, decls: ddv })
                =~= old(out)@);
        }
        return ;
    }
    let mut k: usize = 0;
    while k < selectors.len()
        invariant
            k <= selectors@.len(),
            sdv == selectors.deep_view(),
            out@ + join_sel(sdv, k as int) == old(out)@ + join_sel(sdv, 0),
        decreases selectors@.len() - k,
    {
        let sc = to_chars(selectors[k].as_str());
        proof {
            assert(sc@ == sdv[k as int]);
        }
        push_all(out, &sc);
        if k + 1 < selectors.len() {
            proof {
                assert(((out@ + sdv[k as int]).push(',')).push(' ') + join_sel(sdv, k + 1)
                    =~= out@ + (sdv[k as int] + seq![',', ' '] + join_sel(sdv, k + 1)));
            }
            out.push(',');
            out.push(' ');
        } else {
            proof {
                assert((out@ + sdv[k as int]) + Seq::<char>::empty() =~= out@ + sdv[k as int]);
                assert(join_sel(sdv, k + 1) =~= Seq::<char>::empty());
            }
        }
        k = k + 1;
    }
    proof {
        assert(join_sel(sdv, k as int) =~= Seq::<char>::empty());
        assert(out@ + Seq::<char>::empty() =~= out@);
    }
    out.push(' ');
    out.push('{');
    out.push('\n');
    proof {
        assert(out@ =~= old(out)@ + join_sel(sdv, 0) + seq![' ', '{', '\n']);
    }
    let ghost mid = out@;
    let mut t: usize = 0;
    while t < decls.len()
        invariant
            t <= decls@.len(),
            ddv == decls_view(decls@),
            out@ + render_decls(ddv, t as int) == mid + render_decls(ddv, 0),
        decreases decls@.len() - t,
    {
        proof {
            assert(ddv[t as int] == (decls@[t as int].0@, decls@[t as int].1@));
        }
        out.push(' ');
        out.push(' ');
        let pc = to_chars(decls[t].0.as_str());
        push_all(out, &pc);
        out.push(':');
        out.push(' ');
        let vc = to_chars(decls[t].1.as_str());
        push_all(out, &vc);
        proof {
            assert(((out@.push(';')).push('\n')) + render_decls(ddv, t + 1) =~= out@ + (seq![
                ';',
                '\n',
            ] + render_decls(ddv, t + 1)));
            assert(out@ + (seq![';', '\n'] + render_decls(ddv, t + 1)) =~= (out@ + seq![';', '\n'])
                + render_decls(ddv, t + 1));
        }
        out.push(';');
        out.push('\n');
        proof {
            let before = mid + render_decls(ddv, 0);
            assert(seq![' ', ' '] + ddv[t as int].0 + seq![':', ' '] + ddv[t as int].1 + seq![
                ';',
                '\n',
            ] + render_decls(ddv, t + 1) =~= render_decls(ddv, t as int));
        }
        t = t + 1;
    }
    proof {
        assert(render_decls(ddv, t as int) =~= Seq::<char>::empty());
        assert(out@ + Seq::<char>::empty() =~= out@);
    }
    out.push('}');
    out.push('\n');
    out.push('\n');
    proof {
        assert(out@ =~= old(out)@ + (join_sel(sdv, 0) + seq![' ', '{', '\n'] + render_decls(ddv, 0)
            + seq!['}', '\n', '\n']));
    }
}

/// Renders the whole stylesheet: flattens the tree with one fresh global
/// variable table, then emits every non-empty block, blank-line
/// separated, in document order.
pub fn render_css(ast: Ast) -> (r: Result<String, Error>)
    ensures
        r is Ok,
        r matches Ok(css) ==> css@ == render_flat(
            flatten_spec(ast.nodes@, Map::empty(), Seq::empty(), Seq::empty()).0,
            0,
        ),
{
    let mut vars = Vars::new();
    let mut flat: Vec<FlatRule> = Vec::new();
    let empty_parents: Vec<String> = Vec::new();
    proof {
        assert(empty_parents.deep_view() =~= Seq::<Seq<char>>::empty());
        assert(flat_view(flat@) =~= Seq::<FlatSpec>::empty());
    }
    flatten_nodes(&ast.nodes, &mut vars, &mut flat, &empty_parents);
    let ghost items = flatten_spec(ast.nodes@, Map::empty(), Seq::empty(), Seq::empty()).0;
    proof {
        assert(Seq::<FlatSpec>::empty() + items =~= items);
        assert(flat_view(flat@) == items);
    }
    let mut out: Vec<char> = Vec::new();
    let mut i: usize = 0;
    while i < flat.len()
        invariant
            i <= flat@.len(),
            items == flat_view(flat@),
            render_flat(items, 0) == out@ + render_flat(items, i as int),
        decreases flat@.len() - i,
    {
        proof {
            assert(items[i as int] == flat@[i as int].model());
        }
        let ghost pre = out@;
        match &flat[i] {
            FlatRule::Raw { text } => {
                render_raw(&mut out, text);
            },
            FlatRule::Block { selectors, decls } => {
                render_block(&mut out, selectors, decls);
            },
        }
        proof {
            assert((pre + render_item(items[i as int])) + render_flat(items, i + 1) =~= pre + (
            render_item(items[i as int]) + render_flat(items, i + 1)));
        }
        i = i + 1;
    }
    proof {
        assert(render_flat(items, i as int) =~= Seq::<char>::empty());
        assert(out@ + Seq::<char>::empty() =~= out@);
    }
    Ok(from_chars(&out))
}

} // verus!
