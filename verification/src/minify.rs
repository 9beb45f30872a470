use vstd::prelude::*;

use crate::text::{from_chars, is_ws, is_ws_char, to_chars};

verus! {

/// Markers whose following space is removed by the minifier.
pub open spec fn drop_after(c: char) -> bool {
    c == '{' || c == '}' || c == ';' || c == ':' || c == ','
}

/// Markers whose preceding space is removed by the minifier.
pub open spec fn drop_before(c: char) -> bool {
    c == '{' || c == '}'
}

/// First minifier pass from index `i` on: every whitespace run becomes a
/// single space; `prev_ws` says whether a run is already open.
pub open spec fn collapse_from(s: Seq<char>, i: int, prev_ws: bool) -> Seq<char>
    decreases s.len() - i,
{
    if i < 0 || i >= s.len() {
        Seq::empty()
    } else if is_ws_char(s[i]) {
        if prev_ws {
            collapse_from(s, i + 1, true)
        } else {
            seq![' '] + collapse_from(s, i + 1, true)
        }
    } else {
        seq![s[i]] + collapse_from(s, i + 1, false)
    }
}

/// Whether the second pass removes the space at index `i`: a space next
/// to a structural marker, on that marker's documented side.
pub open spec fn drop_space_at(s: Seq<char>, i: int) -> bool {
    &&& 0 <= i && i < s.len()
    &&& s[i] == ' '
    &&& ((i > 0 && drop_after(s[i - 1])) || (i + 1 < s.len() && drop_before(s[i + 1])))
}

/// Second minifier pass from index `i` on: keeps every character whose
/// space is not adjacent to a marker.
pub open spec fn strip_from(s: Seq<char>, i: int) -> Seq<char>
    decreases s.len() - i,
{
    if i < 0 || i >= s.len() {
        Seq::empty()
    } else if drop_space_at(s, i) {
        strip_from(s, i + 1)
    } else {
        seq![s[i]] + strip_from(s, i + 1)
    }
}

/// The whole minifier: collapse whitespace runs, then remove the spaces
/// that sit against structural markers.
pub open spec fn minify_spec(s: Seq<char>) -> Seq<char> {
    strip_from(collapse_from(s, 0, false), 0)
}

/// Executable test for [`drop_after`].
fn is_drop_after(c: char) -> (r: bool)
    ensures
        r == drop_after(c),
{
    c == '{' || c == '}' || c == ';' || c == ':' || c == ','
}

/// Executable test for [`drop_before`].
fn is_drop_before(c: char) -> (r: bool)
    ensures
        r == drop_before(c),
{
    c == '{' || c == '}'
}

/// Compacts CSS text: whitespace runs become one space, and the space
/// next to each structural marker (`{`, `}`, `;`, `:`, `,`) on its
/// documented side is removed.  Idempotent; see
/// [`lemma_minify_idempotent`].
pub fn minify_css(css: &str) -> (r: String)
    ensures
        r@ == minify_spec(css@),
{
    let cs = to_chars(css);
    let mut col: Vec<char> = Vec::new();
    let mut prev_ws = false;
    let mut i: usize = 0;
    while i < cs.len()
        invariant
            i <= cs@.len(),
            cs@ == css@,
            collapse_from(css@, 0, false) == col@ + collapse_from(css@, i as int, prev_ws),
        decreases cs@.len() - i,
    {
        let c = cs[i];
        if is_ws(c) {
            if !prev_ws {
                proof {
                    assert(col@ + (seq![' '] + collapse_from(css@, i + 1, true)) =~= col@.push(' ')
                        + collapse_from(css@, i + 1, true));
                }
                col.push(' ');
                prev_ws = true;
            }
        } else {
            proof {
                assert(col@ + (seq![c] + collapse_from(css@, i + 1, false)) =~= col@.push(c)
                    + collapse_from(css@, i + 1, false));
            }
            col.push(c);
            prev_ws = false;
        }
        i = i + 1;
    }
    proof {
        assert(col@ + collapse_from(css@, i as int, prev_ws) =~= col@);
    }
    let mut out: Vec<char> = Vec::new();
    let mut j: usize = 0;
    while j < col.len()
        invariant
            j <= col@.len(),
            strip_from(col@, 0) == out@ + strip_from(col@, j as int),
        decreases col@.len() - j,
    {
        let c = col[j];
        let mut dropped = false;
        if c == ' ' {
            if j > 0 && is_drop_after(col[j - 1]) {
                dropped = true;
            } else if j + 1 < col.len() && is_drop_before(col[j + 1]) {
                dropped = true;
            }
        }
        if !dropped {
            proof {
                assert(out@ + (seq![c] + strip_from(col@, j + 1)) =~= out@.push(c) + strip_from(
                    col@,
                    j + 1,
                ));
            }
            out.push(c);
        }
        j = j + 1;
    }
    proof {
        assert(out@ + strip_from(col@, j as int) =~= out@);
    }
    from_chars(&out)
}

/// Whitespace-normal form: every whitespace character is a plain space,
/// and no two spaces are adjacent.
pub open spec fn space_normal(t: Seq<char>) -> bool {
    &&& forall|j: int| 0 <= j && j < t.len() && is_ws_char(#[trigger] t[j]) ==> t[j] == ' '
    &&& forall|j: int| 0 <= j && j + 1 < t.len() ==> !(#[trigger] t[j] == ' ' && t[j + 1] == ' ')
}

/// No space that the second minifier pass would remove.
pub open spec fn no_droppable(t: Seq<char>) -> bool {
    forall|j: int| 0 <= j && j < t.len() ==> !drop_space_at(t, j)
}

/// The first pass leaves text in whitespace-normal form, and opens no
/// run when one is already open.
proof fn lemma_collapse_normal(s: Seq<char>, i: int, prev_ws: bool)
    ensures
        space_normal(collapse_from(s, i, prev_ws)),
        prev_ws && collapse_from(s, i, prev_ws).len() > 0 ==> !is_ws_char(
            collapse_from(s, i, prev_ws)[0],
        ),
    decreases s.len() - i,
{
    if i < 0 || i >= s.len() {
    } else if is_ws_char(s[i]) {
        lemma_collapse_normal(s, i + 1, true);
        if !prev_ws {
            let rest = collapse_from(s, i + 1, true);
            let r = seq![' '] + rest;
            assert forall|j: int| 0 <= j && j < r.len() && is_ws_char(#[trigger] r[j]) implies r[j]
                == ' ' by {
                if j > 0 {
                    assert(r[j] == rest[j - 1]);
                }
            }
            assert forall|j: int| 0 <= j && j + 1 < r.len() implies !(#[trigger] r[j] == ' '
                && r[j + 1] == ' ') by {
                if j == 0 {
                    assert(r[1] == rest[0]);
                    assert(!is_ws_char(rest[0]));
                } else {
                    assert(r[j] == rest[j - 1]);
                    assert(r[j + 1] == rest[j]);
                }
            }
        }
    } else {
        lemma_collapse_normal(s, i + 1, false);
        let rest = collapse_from(s, i + 1, false);
        let r = seq![s[i]] + rest;
        assert forall|j: int| 0 <= j && j < r.len() && is_ws_char(#[trigger] r[j]) implies r[j]
            == ' ' by {
            if j > 0 {
                assert(r[j] == rest[j - 1]);
            }
        }
        assert forall|j: int| 0 <= j && j + 1 < r.len() implies !(#[trigger] r[j] == ' ' && r[j
            + 1] == ' ') by {
            if j == 0 {
                assert(r[0] == s[i] && !is_ws_char(s[i]));
            } else {
                assert(r[j] == rest[j - 1]);
                assert(r[j + 1] == rest[j]);
            }
        }
    }
}

/// The first pass changes nothing on whitespace-normal text.
proof fn lemma_collapse_fixed(t: Seq<char>, i: int, prev_ws: bool)
    requires
        space_normal(t),
        0 <= i && i <= t.len(),
        prev_ws ==> (i == t.len() || !is_ws_char(t[i])),
    ensures
        collapse_from(t, i, prev_ws) == t.subrange(i, t.len() as int),
    decreases t.len() - i,
{
    if i == t.len() {
        assert(t.subrange(i, t.len() as int) =~= Seq::<char>::empty());
    } else if is_ws_char(t[i]) {
        assert(t[i] == ' ');
        if i + 1 < t.len() {
            assert(!(t[i] == ' ' && t[i + 1] == ' '));
            assert(is_ws_char(t[i + 1]) ==> t[i + 1] == ' ');
        }
        lemma_collapse_fixed(t, i + 1, true);
        assert(seq![' '] + t.subrange(i + 1, t.len() as int) =~= t.subrange(i, t.len() as int));
    } else {
        lemma_collapse_fixed(t, i + 1, false);
        assert(seq![t[i]] + t.subrange(i + 1, t.len() as int) =~= t.subrange(i, t.len() as int));
    }
}

/// The second pass, on whitespace-normal text, keeps the text normal,
/// leaves no droppable space behind, and keeps a surviving character's
/// immediate neighbours: the head of the output is the first surviving
/// character of the input.
proof fn lemma_strip_props(t: Seq<char>, i: int)
    requires
        space_normal(t),
        0 <= i && i <= t.len(),
    ensures
        space_normal(strip_from(t, i)),
        no_droppable(strip_from(t, i)),
        i < t.len() && !is_ws_char(t[i]) ==> strip_from(t, i).len() > 0 && strip_from(t, i)[0]
            == t[i],
        i < t.len() && t[i] == ' ' && !drop_space_at(t, i) ==> strip_from(t, i).len() > 0
            && strip_from(t, i)[0] == ' ' && (i + 1 < t.len() ==> strip_from(t, i).len() > 1
            && strip_from(t, i)[1] == t[i + 1]),
        i < t.len() && t[i] == ' ' && drop_space_at(t, i) && i + 1 < t.len() ==> strip_from(
            t,
            i,
        ).len() > 0 && strip_from(t, i)[0] == t[i + 1],
    decreases t.len() - i,
{
    if i == t.len() {
        return ;
    }
    lemma_strip_props(t, i + 1);
    let u1 = strip_from(t, i + 1);
    if i + 1 < t.len() && t[i] == ' ' {
        assert(!(t[i] == ' ' && t[i + 1] == ' '));
        assert(is_ws_char(t[i + 1]) ==> t[i + 1] == ' ');
        assert(!is_ws_char(t[i + 1]));
    }
    if drop_space_at(t, i) {
        assert(strip_from(t, i) == u1);
    } else {
        let u = seq![t[i]] + u1;
        assert(strip_from(t, i) == u);
        // u1's head, when it is a space, is a kept space of t at i + 1
        assert(u1.len() > 0 && u1[0] == ' ' ==> i + 1 < t.len() && t[i + 1] == ' '
            && !drop_space_at(t, i + 1)) by {
            if u1.len() > 0 && u1[0] == ' ' {
                assert(i + 1 < t.len());
                if !is_ws_char(t[i + 1]) {
                    assert(u1[0] == t[i + 1]);
                    assert(false);
                } else {
                    assert(t[i + 1] == ' ');
                    if drop_space_at(t, i + 1) {
                        if i + 2 < t.len() {
                            assert(!(t[i + 1] == ' ' && t[i + 2] == ' '));
                            assert(is_ws_char(t[i + 2]) ==> t[i + 2] == ' ');
                            assert(u1[0] == t[i + 2]);
                            assert(!is_ws_char(t[i + 2]));
                            assert(false);
                        } else {
                            assert(u1 == strip_from(t, i + 2));
                            assert(u1.len() == 0);
                        }
                    }
                }
            }
        }
        assert forall|j: int| 0 <= j && j < u.len() && is_ws_char(#[trigger] u[j]) implies u[j]
            == ' ' by {
            if j > 0 {
                assert(u[j] == u1[j - 1]);
            }
        }
        assert forall|j: int| 0 <= j && j + 1 < u.len() implies !(#[trigger] u[j] == ' ' && u[j
            + 1] == ' ') by {
            if j == 0 {
                assert(u[1] == u1[0]);
                if t[i] == ' ' && u1[0] == ' ' {
                    assert(t[i + 1] == ' ');
                    assert(false);
                }
            } else {
                assert(u[j] == u1[j - 1]);
                assert(u[j + 1] == u1[j]);
            }
        }
        assert forall|j: int| 0 <= j && j < u.len() implies !drop_space_at(u, j) by {
            if u[j] == ' ' {
                if j == 0 {
                    assert(t[i] == ' ' && !drop_space_at(t, i));
                    if 1 < u.len() {
                        assert(u[1] == u1[0]);
                        assert(u1[0] == t[i + 1]);
                        assert(!(i + 1 < t.len() && drop_before(t[i + 1])));
                    }
                } else if j == 1 {
                    assert(u[1] == u1[0]);
                    assert(t[i + 1] == ' ' && !drop_space_at(t, i + 1));
                    assert(!drop_after(t[i]));
                    if j + 1 < u.len() {
                        assert(u[2] == u1[1]);
                        if i + 2 < t.len() {
                            assert(u1.len() > 1 && u1[1] == t[i + 2]);
                            assert(!(i + 2 < t.len() && drop_before(t[i + 2])));
                        } else {
                            assert(u1 == seq![t[i + 1]] + strip_from(t, i + 2));
                            assert(strip_from(t, i + 2) =~= Seq::<char>::empty());
                            assert(u1.len() == 1);
                            assert(false);
                        }
                    }
                } else {
                    assert(u[j] == u1[j - 1]);
                    assert(u[j - 1] == u1[j - 2]);
                    if j + 1 < u.len() {
                        assert(u[j + 1] == u1[j]);
                    }
                    assert(!drop_space_at(u1, j - 1));
                }
            }
        }
    }
}

/// The second pass changes nothing when no space is droppable.
proof fn lemma_strip_fixed(u: Seq<char>, i: int)
    requires
        no_droppable(u),
        0 <= i && i <= u.len(),
    ensures
        strip_from(u, i) == u.subrange(i, u.len() as int),
    decreases u.len() - i,
{
    if i == u.len() {
        assert(u.subrange(i, u.len() as int) =~= Seq::<char>::empty());
    } else {
        assert(!drop_space_at(u, i));
        lemma_strip_fixed(u, i + 1);
        assert(seq![u[i]] + u.subrange(i + 1, u.len() as int) =~= u.subrange(i, u.len() as int));
    }
}

/// Law: the minifier is idempotent — minifying already-minified text
/// changes nothing.
pub proof fn lemma_minify_idempotent(s: Seq<char>)
    ensures
        minify_spec(minify_spec(s)) == minify_spec(s),
{
    let t = collapse_from(s, 0, false);
    lemma_collapse_normal(s, 0, false);
    lemma_strip_props(t, 0);
    let u = strip_from(t, 0);
    lemma_collapse_fixed(u, 0, false);
    assert(u.subrange(0, u.len() as int) =~= u);
    lemma_strip_fixed(u, 0);
}

} // verus!
