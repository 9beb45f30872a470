use vstd::prelude::*;

use crate::error::Error;
use crate::text::{copy_range, from_chars, is_ident, is_ident_char, push_all, to_chars, trim_of,
    trim_range};

verus! {

/// The keyword `kw` stands at index `i` of `s`, not preceded by an
/// identifier character.
pub open spec fn kw_at(s: Seq<char>, i: int, kw: Seq<char>) -> bool {
    &&& 0 <= i && i + kw.len() <= s.len()
    &&& s.subrange(i, i + kw.len()) == kw
    &&& (i == 0 || !is_ident_char(s[i - 1]))
}

/// Whether the keyword starts at index `i`, on an identifier boundary.
#[verifier::loop_isolation(false)]
pub fn starts_with_kw(s: &Vec<char>, i: usize, kw: &Vec<char>) -> (r: bool)
    requires
        i <= s@.len(),
    ensures
        r == kw_at(s@, i as int, kw@),
{
    if kw.len() > s.len() - i {
        return false;
    }
    if i > 0 && is_ident(s[i - 1]) {
        return false;
    }
    let mut j: usize = 0;
    while j < kw.len()
        invariant
            j <= kw@.len(),
            i + kw@.len() <= s@.len(),
            forall|t: int| 0 <= t && t < j ==> s@[i + t] == kw@[t],
        decreases kw@.len() - j,
    {
        if s[i + j] != kw[j] {
            proof {
                assert(s@.subrange(i as int, i + kw@.len())[j as int] != kw@[j as int]);
            }
            return false;
        }
        j = j + 1;
    }
    proof {
        assert(s@.subrange(i as int, i + kw@.len()) =~= kw@);
    }
    true
}

/// A statement terminator at index `k` that is not escaped: a `;` whose
/// preceding character is no backslash.
pub open spec fn unescaped_semi_at(s: Seq<char>, start: int, k: int) -> bool {
    &&& start <= k && k < s.len()
    &&& s[k] == ';'
    &&& (k == start || s[k - 1] != '\\')
}

/// Reads from `start` through the first unescaped statement terminator
/// `;`, returning the statement text (terminator included) and the index
/// just past it; fails with [`Error::MalformedImport`] when no
/// unescaped terminator remains.
pub fn read_until_semicolon(s: &Vec<char>, start: usize) -> (r: Result<(Vec<char>, usize), Error>)
    requires
        start <= s@.len(),
    ensures
        r matches Ok(t) ==> {
            &&& start < t.1 && t.1 <= s@.len()
            &&& t.0@ == s@.subrange(start as int, t.1 as int)
            &&& unescaped_semi_at(s@, start as int, t.1 - 1)
            &&& forall|k: int| start <= k && k < t.1 - 1 ==> !unescaped_semi_at(
                s@,
                start as int,
                k,
            )
        },
        r matches Err(e) ==> e == (Error::MalformedImport { offset: start }) && (forall|k: int|
            !unescaped_semi_at(s@, start as int, k)),
{
    let mut i = start;
    while i < s.len()
        invariant
            start <= i && i <= s@.len(),
            forall|k: int| start <= k && k < i ==> !unescaped_semi_at(s@, start as int, k),
        decreases s@.len() - i,
    {
        if s[i] == ';' && (i == start || s[i - 1] != '\\') {
            return Ok((copy_range(s, start, i + 1), i + 1));
        }
        i = i + 1;
    }
    Err(Error::MalformedImport { offset: start })
}

/// The statement without its trailing terminator, if one is there.
pub open spec fn strip_semi(t: Seq<char>) -> Seq<char> {
    if t.len() > 0 && t[t.len() - 1] == ';' {
        t.drop_last()
    } else {
        t
    }
}

/// The quoted text without its quotes, when the text is wrapped in a
/// matching pair of single or double quotes.
pub open spec fn unquote(t: Seq<char>) -> Option<Seq<char>> {
    if t.len() >= 2 && ((t[0] == '"' && t[t.len() - 1] == '"') || (t[0] == '\'' && t[t.len() - 1]
        == '\'')) {
        Some(t.subrange(1, t.len() - 1))
    } else {
        None
    }
}

/// The imported name inside an `@import` statement: the statement is
/// trimmed, must start with the keyword, loses its terminator, and must
/// hold a single- or double-quoted name; anything else is malformed.
pub open spec fn import_path_spec(stmt: Seq<char>) -> Option<Seq<char>> {
    let t0 = trim_of(stmt, 0, stmt.len() as int);
    if t0.len() < 7 || t0.subrange(0, 7) != "@import"@ {
        None
    } else {
        let t1 = trim_of(t0, 7, t0.len() as int);
        let t2 = strip_semi(t1);
        unquote(trim_of(t2, 0, t2.len() as int))
    }
}

/// Extracts the quoted import name from one `@import` statement.
#[verifier::loop_isolation(false)]
pub fn parse_import_path(stmt: &str) -> (r: Result<String, Error>)
    ensures
        import_path_spec(stmt@) matches Some(p) ==> (r matches Ok(s) && s@ == p),
        import_path_spec(stmt@) is None ==> r == Err::<String, Error>(
            Error::MalformedImport { offset: 0 },
        ),
{
    let cs = to_chars(stmt);
    let t0 = trim_range(&cs, 0, cs.len());
    let kw = to_chars("@import");
    proof {
        reveal_strlit("@import");
        assert(kw@.len() == 7);
    }
    if t0.len() < 7 {
        return Err(Error::MalformedImport { offset: 0 });
    }
    let mut j: usize = 0;
    while j < 7
        invariant
            j <= 7,
            7 <= t0@.len(),
            kw@ == "@import"@,
            kw@.len() == 7,
            forall|t: int| 0 <= t && t < j ==> t0@[t] == kw@[t],
        decreases 7 - j,
    {
        if t0[j] != kw[j] {
            proof {
                assert(t0@.subrange(0, 7)[j as int] != kw@[j as int]);
            }
            return Err(Error::MalformedImport { offset: 0 });
        }
        j = j + 1;
    }
    proof {
        assert(t0@.subrange(0, 7) =~= kw@);
    }
    let mut t1 = trim_range(&t0, 7, t0.len());
    if t1.len() > 0 && t1[t1.len() - 1] == ';' {
        t1.pop();
        proof {
            assert(t1@ == strip_semi(trim_of(t0@, 7, t0@.len() as int)));
        }
    }
    let t2 = trim_range(&t1, 0, t1.len());
    if t2.len() >= 2 && ((t2[0] == '"' && t2[t2.len() - 1] == '"') || (t2[0] == '\''
        && t2[t2.len() - 1] == '\'')) {
        Ok(from_chars(&copy_range(&t2, 1, t2.len() - 1)))
    } else {
        Err(Error::MalformedImport { offset: 0 })
    }
}

/// Index just past the last path separator of `s`, or zero.
pub open spec fn base_split(s: Seq<char>) -> int
    decreases s.len(),
{
    if s.len() == 0 {
        0
    } else if s[s.len() - 1] == '/' {
        s.len() as int
    } else {
        base_split(s.drop_last())
    }
}

/// The name with a partial's underscore prefixed to its final path
/// component.
pub open spec fn underscored(s: Seq<char>) -> Seq<char> {
    s.subrange(0, base_split(s)) + seq!['_'] + s.subrange(base_split(s), s.len() as int)
}

/// Whether the name already carries the stylesheet extension.
pub open spec fn has_ext(s: Seq<char>) -> bool {
    s.len() >= 5 && s.subrange(s.len() - 5, s.len() as int) == ".scss"@
}

/// The documented candidate order for one imported name: the literal
/// name, the name with the extension added, the partial (underscore on
/// the final component), and the partial with the extension; names that
/// already end in the extension get only the literal and partial forms.
pub open spec fn candidate_names(p: Seq<char>) -> Seq<Seq<char>> {
    if has_ext(p) {
        seq![p, underscored(p)]
    } else {
        seq![p, p + ".scss"@, underscored(p), underscored(p) + ".scss"@]
    }
}

/// Computes [`base_split`].
#[verifier::loop_isolation(false)]
pub fn find_base_split(cs: &Vec<char>) -> (r: usize)
    ensures
        r == base_split(cs@),
        r <= cs@.len(),
{
    let mut j = cs.len();
    proof {
        assert(cs@.take(j as int) =~= cs@);
    }
    while j > 0
        invariant
            j <= cs@.len(),
            base_split(cs@) == base_split(cs@.take(j as int)),
        decreases j,
    {
        if cs[j - 1] == '/' {
            proof {
                assert(cs@.take(j as int)[j - 1] == '/');
            }
            return j;
        }
        proof {
            assert(cs@.take(j as int).drop_last() =~= cs@.take(j - 1 as int));
        }
        j = j - 1;
    }
    proof {
        assert(cs@.take(0) =~= Seq::<char>::empty());
    }
    0
}

/// Builds the candidate file names for one imported name, in the
/// documented order.
#[verifier::loop_isolation(false)]
pub fn import_candidates(path: &str) -> (r: Vec<String>)
    ensures
        r.deep_view() == candidate_names(path@),
        r@.len() >= 2,
{
    let cs = to_chars(path);
    let ext = to_chars(".scss");
    proof {
        reveal_strlit(".scss");
        assert(ext@.len() == 5);
    }
    let mut with_ext = false;
    if cs.len() >= 5 {
        let mut ok = true;
        let mut j: usize = 0;
        while j < 5
            invariant
                j <= 5,
                5 <= cs@.len(),
                ext@ == ".scss"@,
                ext@.len() == 5,
                ok == (forall|t: int| 0 <= t && t < j ==> cs@[cs@.len() - 5 + t] == ext@[t]),
            decreases 5 - j,
        {
            if cs[cs.len() - 5 + j] != ext[j] {
                ok = false;
            }
            j = j + 1;
        }
        with_ext = ok;
        proof {
            if ok {
                assert(cs@.subrange(cs@.len() - 5, cs@.len() as int) =~= ext@);
            } else {
                assert(cs@.subrange(cs@.len() - 5, cs@.len() as int) != ext@) by {
                    let t = choose|t: int| 0 <= t && t < 5 && cs@[cs@.len() - 5 + t] != ext@[t];
                    assert(cs@.subrange(cs@.len() - 5, cs@.len() as int)[t] != ext@[t]);
                }
            }
        }
    }
    let split = find_base_split(&cs);
    let us = {
        let mut v: Vec<char> = Vec::new();
        push_all(&mut v, &copy_range(&cs, 0, split));
        v.push('_');
        push_all(&mut v, &copy_range(&cs, split, cs.len()));
        proof {
            assert((cs@.subrange(0, split as int).push('_')) + cs@.subrange(
                split as int,
                cs@.len() as int,
            ) =~= underscored(cs@));
        }
        v
    };
    let mut out: Vec<String> = Vec::new();
    if with_ext {
        out.push(from_chars(&cs));
        out.push(from_chars(&us));
        proof {
            assert(out.deep_view() =~= candidate_names(path@));
        }
    } else {
        let withext = {
            let mut v: Vec<char> = Vec::new();
            push_all(&mut v, &cs);
            push_all(&mut v, &ext);
            v
        };
        let us_ext = {
            let mut v: Vec<char> = Vec::new();
            push_all(&mut v, &us);
            push_all(&mut v, &ext);
            v
        };
        out.push(from_chars(&cs));
        out.push(from_chars(&withext));
        out.push(from_chars(&us));
        out.push(from_chars(&us_ext));
        proof {
            assert(out.deep_view() =~= candidate_names(path@));
        }
    }
    out
}

/// One directory joined with one file name by the path separator.
pub open spec fn join_path(dir: Seq<char>, name: Seq<char>) -> Seq<char> {
    if dir.len() == 0 {
        name
    } else if dir[dir.len() - 1] == '/' {
        dir + name
    } else {
        dir + seq!['/'] + name
    }
}

/// Joins one directory and one candidate name.
pub fn join_dir(dir: &str, name: &String) -> (r: String)
    ensures
        r@ == join_path(dir@, name@),
{
    let dc = to_chars(dir);
    let nc = to_chars(name.as_str());
    let mut v: Vec<char> = Vec::new();
    if dc.len() == 0 {
        push_all(&mut v, &nc);
    } else if dc[dc.len() - 1] == '/' {
        push_all(&mut v, &dc);
        push_all(&mut v, &nc);
    } else {
        push_all(&mut v, &dc);
        v.push('/');
        push_all(&mut v, &nc);
        proof {
            assert((dir@.push('/')) + name@ =~= dir@ + seq!['/'] + name@);
        }
    }
    from_chars(&v)
}

/// Candidate probes against the include directories, in caller order.
pub open spec fn inc_probes(p: Seq<char>, incs: Seq<Seq<char>>) -> Seq<Seq<char>>
    decreases incs.len(),
{
    if incs.len() == 0 {
        Seq::empty()
    } else {
        candidate_names(p).map_values(|c: Seq<char>| join_path(incs[0], c)) + inc_probes(
            p,
            incs.drop_first(),
        )
    }
}

/// The full ordered probe list for one import: every candidate relative
/// to the importing file's directory first, then every candidate against
/// each include path in caller order.  The first existing probe wins.
pub open spec fn probe_list(p: Seq<char>, base: Seq<char>, incs: Seq<Seq<char>>) -> Seq<Seq<char>> {
    candidate_names(p).map_values(|c: Seq<char>| join_path(base, c)) + inc_probes(p, incs)
}

/// Every relative candidate stands before every include-path candidate
/// in the probe order, so when a probe loop takes the first existing
/// path, a relative candidate always beats an include-path one.
pub proof fn lemma_relative_candidates_first(p: Seq<char>, base: Seq<char>, incs: Seq<Seq<char>>)
    ensures
        forall|k: int|
            0 <= k && k < candidate_names(p).len() ==> probe_list(p, base, incs)[k] == join_path(
                base,
                candidate_names(p)[k],
            ),
        forall|k: int|
            candidate_names(p).len() <= k && k < probe_list(p, base, incs).len() ==> probe_list(
                p,
                base,
                incs,
            )[k] == inc_probes(p, incs)[k - candidate_names(p).len()],
{
}

/// Builds the full ordered probe list for one import: candidates joined
/// to the importing file's directory first, then to each include path in
/// caller order.
#[verifier::loop_isolation(false)]
pub fn resolve_import(path_str: &str, base: &str, include_paths: &Vec<String>) -> (r: Vec<String>)
    ensures
        r.deep_view() == probe_list(path_str@, base@, include_paths.deep_view()),
        r@.len() >= 2,
{
    let cands = import_candidates(path_str);
    let mut out: Vec<String> = Vec::new();
    let ghost rel = candidate_names(path_str@).map_values(
        |c: Seq<char>| join_path(base@, c),
    );
    let mut j: usize = 0;
    while j < cands.len()
        invariant
            j <= cands@.len(),
            out@.len() == j,
            cands.deep_view() == candidate_names(path_str@),
            rel == candidate_names(path_str@).map_values(|c: Seq<char>| join_path(base@, c)),
            out.deep_view() == rel.take(j as int),
        decreases cands@.len() - j,
    {
        let s = join_dir(base, &cands[j]);
        let ghost pre = out@;
        let ghost predv = out.deep_view();
        out.push(s);
        proof {
            assert(cands@[j as int]@ == cands.deep_view()[j as int]);
            assert forall|t: int| 0 <= t && t < out@.len() implies out.deep_view()[t] == rel.take(
                j + 1 as int,
            )[t] by {
                assert(out.deep_view()[t] == out@[t].deep_view());
                if t < pre.len() {
                    assert(out@[t] == pre[t]);
                    assert(predv[t] == rel.take(j as int)[t]);
                } else {
                    assert(out@[t] == s);
                    assert(rel[t] == join_path(base@, candidate_names(path_str@)[t]));
                }
            }
            assert(out.deep_view() =~= rel.take(j + 1 as int));
        }
        j = j + 1;
    }
    proof {
        assert(rel.take(rel.len() as int) =~= rel);
    }
    let mut i: usize = 0;
    while i < include_paths.len()
        invariant
            i <= include_paths@.len(),
            cands.deep_view() == candidate_names(path_str@),
            out.deep_view() == probe_list(
                path_str@,
                base@,
                include_paths.deep_view().take(i as int),
            ),
            out@.len() >= 2,
        decreases include_paths@.len() - i,
    {
        let ghost incs_i = include_paths.deep_view().take(i as int);
        let ghost row = candidate_names(path_str@).map_values(
            |c: Seq<char>| join_path(include_paths.deep_view()[i as int], c),
        );
        let mut j2: usize = 0;
        while j2 < cands.len()
            invariant
                j2 <= cands@.len(),
                i < include_paths@.len(),
                cands.deep_view() == candidate_names(path_str@),
                row == candidate_names(path_str@).map_values(
                    |c: Seq<char>| join_path(include_paths.deep_view()[i as int], c),
                ),
                out.deep_view() == probe_list(
                    path_str@,
                    base@,
                    include_paths.deep_view().take(i as int),
                ) + row.take(j2 as int),
                out@.len() >= 2,
            decreases cands@.len() - j2,
        {
            let s = join_dir(include_paths[i].as_str(), &cands[j2]);
            let ghost pre = out@;
            let ghost predv = out.deep_view();
            out.push(s);
            proof {
                let ghost rhs = probe_list(path_str@, base@, incs_i) + row.take(j2 + 1 as int);
                assert(cands@[j2 as int]@ == cands.deep_view()[j2 as int]);
                assert(include_paths@[i as int]@ == include_paths.deep_view()[i as int]);
                assert forall|t: int| 0 <= t && t < out@.len() implies out.deep_view()[t]
                    == rhs[t] by {
                    assert(out.deep_view()[t] == out@[t].deep_view());
                    if t < pre.len() {
                        assert(out@[t] == pre[t]);
                        assert(predv[t] == (probe_list(path_str@, base@, incs_i) + row.take(
                            j2 as int,
                        ))[t]);
                    } else {
                        assert(out@[t] == s);
                        assert(row[j2 as int] == join_path(
                            include_paths.deep_view()[i as int],
                            candidate_names(path_str@)[j2 as int],
                        ));
                    }
                }
                assert(out.deep_view() =~= rhs);
            }
            j2 = j2 + 1;
        }
        proof {
            assert(row.take(row.len() as int) =~= row);
            lemma_inc_probes_step(path_str@, include_paths.deep_view(), i as int);
            assert(out.deep_view() =~= probe_list(
                path_str@,
                base@,
                include_paths.deep_view().take(i + 1 as int),
            ));
        }
        i = i + 1;
    }
    proof {
        assert(include_paths.deep_view().take(include_paths@.len() as int)
            =~= include_paths.deep_view());
    }
    out
}

/// Extending the include list by one directory appends that directory's
/// candidate row to the probe list.
proof fn lemma_inc_probes_step(p: Seq<char>, incs: Seq<Seq<char>>, i: int)
    requires
        0 <= i && i < incs.len(),
    ensures
        inc_probes(p, incs.take(i + 1)) == inc_probes(p, incs.take(i)) + candidate_names(
            p,
        ).map_values(|c: Seq<char>| join_path(incs[i], c)),
    decreases i,
{
    if i == 0 {
        assert(incs.take(1).drop_first() =~= Seq::<Seq<char>>::empty());
        assert(incs.take(0) =~= Seq::<Seq<char>>::empty());
        assert(incs.take(1)[0] == incs[0]);
        assert(inc_probes(p, incs.take(1)) =~= inc_probes(p, incs.take(0)) + candidate_names(
            p,
        ).map_values(|c: Seq<char>| join_path(incs[0], c)));
    } else {
        lemma_inc_probes_step(p, incs.drop_first(), i - 1);
        assert(incs.take(i + 1).drop_first() =~= incs.drop_first().take(i));
        assert(incs.take(i).drop_first() =~= incs.drop_first().take(i - 1));
        assert(incs.take(i + 1)[0] == incs[0]);
        assert(incs.take(i)[0] == incs[0]);
        assert(incs.drop_first()[i - 1] == incs[i]);
        let row0 = candidate_names(p).map_values(|c: Seq<char>| join_path(incs[0], c));
        let rowi = candidate_names(p).map_values(|c: Seq<char>| join_path(incs[i], c));
        assert(row0 + (inc_probes(p, incs.drop_first().take(i - 1)) + rowi) =~= (row0 + inc_probes(
            p,
            incs.drop_first().take(i - 1),
        )) + rowi);
    }
}

} // verus!
