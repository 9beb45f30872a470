use vstd::prelude::*;

use crate::text::{from_chars, to_chars};

verus! {

/// `child` from index `i` on, with every parent-reference token `&`
/// replaced by `parent`.
pub open spec fn expand_at(parent: Seq<char>, child: Seq<char>, i: int) -> Seq<char>
    decreases child.len() - i,
{
    if i < 0 || i >= child.len() {
        Seq::empty()
    } else if child[i] == '&' {
        parent + expand_at(parent, child, i + 1)
    } else {
        seq![child[i]] + expand_at(parent, child, i + 1)
    }
}

/// Whether a selector contains the parent-reference token.
pub open spec fn has_parent_ref(child: Seq<char>) -> bool {
    exists|j: int| 0 <= j && j < child.len() && child[j] == '&'
}

/// One flattened selector: the parent-reference token is substituted when
/// present, else parent and child are joined by a single descendant
/// combinator space.
pub open spec fn expand_parent_spec(parent: Seq<char>, child: Seq<char>) -> Seq<char> {
    if has_parent_ref(child) {
        expand_at(parent, child, 0)
    } else {
        parent + seq![' '] + child
    }
}

/// Flattens one child selector against one ancestor selector.
pub fn expand_parent(parent: &str, child: &str) -> (r: String)
    ensures
        r@ == expand_parent_spec(parent@, child@),
{
    let pc = to_chars(parent);
    let cc = to_chars(child);
    let mut found = false;
    let mut i: usize = 0;
    while i < cc.len()
        invariant
            i <= cc@.len(),
            cc@ == child@,
            found == exists|j: int| 0 <= j && j < i && child@[j] == '&',
        decreases cc@.len() - i,
    {
        if cc[i] == '&' {
            found = true;
        }
        i = i + 1;
    }
    if found {
        let mut out: Vec<char> = Vec::new();
        let mut k: usize = 0;
        while k < cc.len()
            invariant
                k <= cc@.len(),
                cc@ == child@,
                pc@ == parent@,
                expand_at(parent@, child@, 0) == out@ + expand_at(parent@, child@, k as int),
            decreases cc@.len() - k,
        {
            let c = cc[k];
            if c == '&' {
                proof {
                    assert((out@ + parent@) + expand_at(parent@, child@, k + 1) =~= out@ + (parent@
                        + expand_at(parent@, child@, k + 1)));
                }
                crate::text::push_all(&mut out, &pc);
            } else {
                proof {
                    assert(out@.push(c) + expand_at(parent@, child@, k + 1) =~= out@ + (seq![c]
                        + expand_at(parent@, child@, k + 1)));
                }
                out.push(c);
            }
            k = k + 1;
        }
        proof {
            assert(out@ + expand_at(parent@, child@, k as int) =~= out@);
        }
        from_chars(&out)
    } else {
        let mut out: Vec<char> = Vec::new();
        crate::text::push_all(&mut out, &pc);
        out.push(' ');
        crate::text::push_all(&mut out, &cc);
        proof {
            assert((parent@.push(' ')) + child@ =~= parent@ + seq![' '] + child@);
        }
        from_chars(&out)
    }
}

/// One row of the cartesian product: one ancestor against every child.
pub open spec fn merge_row(parent: Seq<char>, children: Seq<Seq<char>>) -> Seq<Seq<char>> {
    Seq::new(children.len(), |j: int| expand_parent_spec(parent, children[j]))
}

/// The cartesian product of ancestor selectors and child selectors, row
/// by row in ancestor order.
pub open spec fn merge_rows(parents: Seq<Seq<char>>, children: Seq<Seq<char>>) -> Seq<Seq<char>>
    decreases parents.len(),
{
    if parents.len() == 0 {
        Seq::empty()
    } else {
        merge_row(parents[0], children) + merge_rows(parents.drop_first(), children)
    }
}

/// The flattened selector list of a nested rule: the children unchanged
/// when there is no ancestor, else the full cartesian product.
pub open spec fn merge_spec(parents: Seq<Seq<char>>, children: Seq<Seq<char>>) -> Seq<Seq<char>> {
    if parents.len() == 0 {
        children
    } else {
        merge_rows(parents, children)
    }
}

/// Flattens a nested rule's selector list against the ancestor chain.
pub fn merge_selectors(parents: &Vec<String>, children: &Vec<String>) -> (r: Vec<String>)
    ensures
        r.deep_view() == merge_spec(parents.deep_view(), children.deep_view()),
{
    if parents.len() == 0 {
        let mut out: Vec<String> = Vec::new();
        let mut j: usize = 0;
        while j < children.len()
            invariant
                j <= children@.len(),
                out@.len() == j,
                out.deep_view() == children.deep_view().take(j as int),
            decreases children@.len() - j,
        {
            let s = children[j].clone();
            proof {
                assert(s@ == children.deep_view()[j as int]);
            }
            let ghost pre = out@;
            let ghost predv = out.deep_view();
            out.push(s);
            proof {
                assert(out@.len() == pre.len() + 1);
                assert forall|t: int| 0 <= t && t < out@.len() implies out.deep_view()[t]
                    == children.deep_view().take(j + 1 as int)[t] by {
                    assert(out.deep_view()[t] == out@[t].deep_view());
                    if t < pre.len() {
                        assert(out@[t] == pre[t]);
                        assert(predv[t] == children.deep_view().take(j as int)[t]);
                    }
                }
                assert(out.deep_view() =~= children.deep_view().take(j + 1 as int));
            }
            j = j + 1;
        }
        proof {
            assert(children.deep_view().take(children@.len() as int) =~~= children.deep_view());
        }
        out
    } else {
        let mut out: Vec<String> = Vec::new();
        let mut i: usize = 0;
        while i < parents.len()
            invariant
                i <= parents@.len(),
                out.deep_view() == merge_rows(parents.deep_view().take(i as int),
                children.deep_view()),
            decreases parents@.len() - i,
        {
            let mut j: usize = 0;
            while j < children.len()
                invariant
                    i < parents@.len(),
                    j <= children@.len(),
                    out@.len() == merge_rows(
                        parents.deep_view().take(i as int),
                        children.deep_view(),
                    ).len() + j,
                    out.deep_view() == merge_rows(parents.deep_view().take(i as int),
                    children.deep_view()) + merge_row(parents.deep_view()[i as int],
                    children.deep_view()).take(j as int),
                decreases children@.len() - j,
            {
                let s = expand_parent(parents[i].as_str(), children[j].as_str());
                proof {
                    assert(s@ == merge_row(parents.deep_view()[i as int], children.deep_view())[j
                        as int]);
                }
                let ghost pre = out@;
                let ghost predv = out.deep_view();
                let ghost rhs = merge_rows(parents.deep_view().take(i as int), children.deep_view())
                    + merge_row(parents.deep_view()[i as int], children.deep_view()).take(
                    j + 1 as int,
                );
                out.push(s);
                proof {
                    assert forall|t: int| 0 <= t && t < out@.len() implies out.deep_view()[t]
                        == rhs[t] by {
                        assert(out.deep_view()[t] == out@[t].deep_view());
                        if t < pre.len() {
                            assert(out@[t] == pre[t]);
                            assert(predv[t] == (merge_rows(
                                parents.deep_view().take(i as int),
                                children.deep_view(),
                            ) + merge_row(parents.deep_view()[i as int], children.deep_view()).take(
                                j as int,
                            ))[t]);
                        }
                    }
                    assert(out.deep_view() =~= rhs);
                }
                j = j + 1;
            }
            proof {
                lemma_merge_rows_step(parents.deep_view(), children.deep_view(), i as int);
                assert(merge_row(parents.deep_view()[i as int], children.deep_view()).take(
                    children.deep_view().len() as int,
                ) =~= merge_row(parents.deep_view()[i as int], children.deep_view()));
            }
            i = i + 1;
        }
        proof {
            assert(parents.deep_view().take(parents@.len() as int) =~= parents.deep_view());
        }
        out
    }
}

/// Appending one ancestor to a prefix of the ancestor list appends its
/// row to the product.
proof fn lemma_merge_rows_step(parents: Seq<Seq<char>>, children: Seq<Seq<char>>, i: int)
    requires
        0 <= i && i < parents.len(),
    ensures
        merge_rows(parents.take(i + 1), children) == merge_rows(parents.take(i), children)
            + merge_row(parents[i], children),
    decreases i,
{
    if i == 0 {
        assert(parents.take(1).drop_first() =~= Seq::<Seq<char>>::empty());
        assert(parents.take(0) =~= Seq::<Seq<char>>::empty());
        assert(merge_rows(parents.take(1), children) =~= merge_row(parents[0], children)
            + merge_rows(Seq::empty(), children));
        assert(merge_rows(parents.take(1), children) =~= merge_rows(parents.take(0), children)
            + merge_row(parents[0], children));
    } else {
        lemma_merge_rows_step(parents.drop_first(), children, i - 1);
        assert(parents.take(i + 1).drop_first() =~= parents.drop_first().take(i));
        assert(parents.take(i).drop_first() =~= parents.drop_first().take(i - 1));
        assert(parents.take(i + 1)[0] == parents[0]);
        assert(parents.take(i)[0] == parents[0]);
        assert(merge_rows(parents.take(i + 1), children) == merge_row(parents[0], children)
            + merge_rows(parents.drop_first().take(i), children));
        assert(merge_rows(parents.take(i), children) == merge_row(parents[0], children)
            + merge_rows(parents.drop_first().take(i - 1), children));
        assert(parents.drop_first()[i - 1] == parents[i]);
        assert(merge_row(parents[0], children) + (merge_rows(
            parents.drop_first().take(i - 1),
            children,
        ) + merge_row(parents[i], children)) =~= (merge_row(parents[0], children) + merge_rows(
            parents.drop_first().take(i - 1),
            children,
        )) + merge_row(parents[i], children));
    }
}

} // verus!
