use vstd::prelude::*;

use crate::text::{from_chars, is_ident, is_ident_char, push_all, to_chars};

verus! {

/// Longest run of identifier characters in `s` starting at index `i`.
pub open spec fn ident_at(s: Seq<char>, i: int) -> Seq<char>
    decreases s.len() - i,
{
    if 0 <= i && i < s.len() && is_ident_char(s[i]) {
        seq![s[i]] + ident_at(s, i + 1)
    } else {
        Seq::empty()
    }
}

/// The identifier run starting at `i` never reaches past the end of `s`.
pub proof fn lemma_ident_at_len(s: Seq<char>, i: int)
    ensures
        0 <= i && i <= s.len() ==> i + ident_at(s, i).len() <= s.len(),
    decreases s.len() - i,
{
    if 0 <= i && i < s.len() && is_ident_char(s[i]) {
        lemma_ident_at_len(s, i + 1);
    }
}

/// Reads the maximal identifier starting at `i`, returning its characters
/// and the index just past it.
pub fn read_ident(s: &Vec<char>, i: usize) -> (r: (Vec<char>, usize))
    requires
        i <= s@.len(),
    ensures
        r.0@ == ident_at(s@, i as int),
        r.1 == i + r.0@.len(),
{
    let mut j: usize = i;
    let mut out: Vec<char> = Vec::new();
    while j < s.len()
        invariant
            i <= j && j <= s@.len(),
            j == i + out@.len(),
            ident_at(s@, i as int) == out@ + ident_at(s@, j as int),
        ensures
            j == s@.len() || !is_ident_char(s@[j as int]),
        decreases s@.len() - j,
    {
        let c = s[j];
        if !is_ident(c) {
            break ;
        }
        proof {
            assert(ident_at(s@, j as int) == seq![s@[j as int]] + ident_at(s@, j + 1));
            assert(out@ + (seq![s@[j as int]] + ident_at(s@, j + 1)) =~= out@.push(s@[j as int])
                + ident_at(s@, j + 1));
        }
        out.push(c);
        j = j + 1;
    }
    proof {
        assert(ident_at(s@, j as int) =~= Seq::<char>::empty());
        assert(out@ + Seq::<char>::empty() =~= out@);
    }
    (out, j)
}

/// The name-to-value table built from a list of bindings, later bindings
/// winning.
pub open spec fn map_of(pairs: Seq<(String, String)>) -> Map<Seq<char>, Seq<char>>
    decreases pairs.len(),
{
    if pairs.len() == 0 {
        Map::empty()
    } else {
        map_of(pairs.drop_last()).insert(pairs.last().0@, pairs.last().1@)
    }
}

/// Substitution of variable references in `s` from index `i` on: each `$`
/// followed by a maximal identifier is replaced by its bound value if one
/// is defined, else kept as the literal sigil plus identifier.  A
/// substituted value is not re-scanned.
pub open spec fn resolve_from(m: Map<Seq<char>, Seq<char>>, s: Seq<char>, i: int) -> Seq<char>
    decreases s.len() - i,
        via resolve_from_decreases
{
    if i < 0 || i >= s.len() {
        Seq::empty()
    } else if s[i] == '$' && ident_at(s, i + 1).len() > 0 {
        let name = ident_at(s, i + 1);
        (if m.contains_key(name) {
            m[name]
        } else {
            seq!['$'] + name
        }) + resolve_from(m, s, i + 1 + name.len())
    } else {
        seq![s[i]] + resolve_from(m, s, i + 1)
    }
}

#[via_fn]
proof fn resolve_from_decreases(m: Map<Seq<char>, Seq<char>>, s: Seq<char>, i: int) {
    if 0 <= i && i < s.len() {
        lemma_ident_at_len(s, i + 1);
    }
}

/// The identifier run starting at `i` is exactly that slice of `s`.
pub proof fn lemma_ident_at_is_slice(s: Seq<char>, i: int)
    requires
        0 <= i && i <= s.len(),
    ensures
        ident_at(s, i) == s.subrange(i, i + ident_at(s, i).len()),
    decreases s.len() - i,
{
    lemma_ident_at_len(s, i);
    if i < s.len() && is_ident_char(s[i]) {
        lemma_ident_at_is_slice(s, i + 1);
        lemma_ident_at_len(s, i + 1);
        assert(seq![s[i]] + s.subrange(i + 1, i + 1 + ident_at(s, i + 1).len()) =~= s.subrange(
            i,
            i + 1 + ident_at(s, i + 1).len(),
        ));
    } else {
        assert(s.subrange(i, i) =~= Seq::<char>::empty());
    }
}

/// Law: with no bindings at all, substitution leaves any text exactly as
/// written — an undefined reference is never an error.
pub proof fn lemma_resolve_empty_identity(s: Seq<char>, i: int)
    requires
        0 <= i && i <= s.len(),
    ensures
        resolve_from(Map::empty(), s, i) == s.subrange(i, s.len() as int),
    decreases s.len() - i,
{
    if i == s.len() {
        assert(s.subrange(i, s.len() as int) =~= Seq::<char>::empty());
    } else if s[i] == '$' && ident_at(s, i + 1).len() > 0 {
        let name = ident_at(s, i + 1);
        lemma_ident_at_len(s, i + 1);
        lemma_ident_at_is_slice(s, i + 1);
        lemma_resolve_empty_identity(s, i + 1 + name.len() as int);
        assert(!Map::<Seq<char>, Seq<char>>::empty().contains_key(name));
        assert((seq!['$'] + s.subrange(i + 1, i + 1 + name.len() as int)) + s.subrange(
            i + 1 + name.len() as int,
            s.len() as int,
        ) =~= s.subrange(i, s.len() as int));
    } else {
        lemma_resolve_empty_identity(s, i + 1);
        assert(seq![s[i]] + s.subrange(i + 1, s.len() as int) =~= s.subrange(i, s.len() as int));
    }
}

/// The global variable table: name to last-written value, never deleted,
/// visible to the whole traversal of one compile call.
#[derive(Clone, Debug)]
pub struct Vars {
    pairs: Vec<(String, String)>,
}

impl View for Vars {
    type V = Map<Seq<char>, Seq<char>>;

    closed spec fn view(&self) -> Map<Seq<char>, Seq<char>> {
        map_of(self.pairs@)
    }
}

impl Vars {
    /// An empty table.
    pub fn new() -> (r: Vars)
        ensures
            r@ == Map::<Seq<char>, Seq<char>>::empty(),
    {
        Vars { pairs: Vec::new() }
    }

    /// Raw overwrite of one binding; no evaluation happens here.
    pub fn set(&mut self, k: &str, v: &str)
        ensures
            final(self)@ == old(self)@.insert(k@, v@),
    {
        let pair = (k.to_owned(), v.to_owned());
        proof {
            assert(old(self).pairs@.push((pair.0, pair.1)).drop_last() =~= old(self).pairs@);
        }
        self.pairs.push(pair);
    }

    /// Looks a name up; `Some` exactly when the name is bound, with the
    /// last value written for it.
    pub fn get(&self, k: &str) -> (r: Option<&String>)
        ensures
            match r {
                Some(v) => self@.contains_key(k@) && v@ == self@[k@],
                None => !self@.contains_key(k@),
            },
    {
        let ks = k.to_owned();
        let mut j: usize = self.pairs.len();
        proof {
            assert(self.pairs@.take(j as int) =~= self.pairs@);
        }
        while j > 0
            invariant
                j <= self.pairs@.len(),
                ks@ == k@,
                map_of(self.pairs@).contains_key(k@) == map_of(
                    self.pairs@.take(j as int),
                ).contains_key(k@),
                map_of(self.pairs@).contains_key(k@) ==> map_of(self.pairs@.take(j as int)).index(
                    k@,
                ) == map_of(self.pairs@).index(k@),
            decreases j,
        {
            j = j - 1;
            proof {
                assert(self.pairs@.take(j + 1 as int).drop_last() =~= self.pairs@.take(j as int));
                assert(self.pairs@.take(j + 1 as int).last() == self.pairs@[j as int]);
            }
            if self.pairs[j].0 == ks {
                return Some(&self.pairs[j].1);
            }
        }
        proof {
            assert(self.pairs@.take(0) =~= Seq::<(String, String)>::empty());
        }
        None
    }

    /// Left-to-right, single-pass substitution of variable references, an
    /// undefined reference staying as written.
    pub fn resolve_value(&self, s: &str) -> (r: String)
        ensures
            r@ == resolve_from(self@, s@, 0),
    {
        let cs = to_chars(s);
        let mut out: Vec<char> = Vec::new();
        let mut i: usize = 0;
        while i < cs.len()
            invariant
                i <= cs@.len(),
                cs@ == s@,
                resolve_from(self@, s@, 0) == out@ + resolve_from(self@, s@, i as int),
            decreases cs@.len() - i,
        {
            let c = cs[i];
            let mut plain = true;
            if c == '$' {
                let (name, next) = read_ident(&cs, i + 1);
                if name.len() > 0 {
                    proof {
                        lemma_ident_at_len(s@, i + 1);
                    }
                    match self.get(from_chars(&name).as_str()) {
                        Some(v) => {
                            let vc = to_chars(v.as_str());
                            proof {
                                assert((out@ + self@.index(name@)) + resolve_from(
                                    self@,
                                    s@,
                                    next as int,
                                ) =~= out@ + (self@.index(name@) + resolve_from(
                                    self@,
                                    s@,
                                    next as int,
                                )));
                            }
                            push_all(&mut out, &vc);
                        },
                        None => {
                            proof {
                                assert(((out@.push('$')) + name@) + resolve_from(
                                    self@,
                                    s@,
                                    next as int,
                                ) =~= out@ + ((seq!['$'] + name@) + resolve_from(
                                    self@,
                                    s@,
                                    next as int,
                                )));
                            }
                            out.push('$');
                            push_all(&mut out, &name);
                        },
                    }
                    i = next;
                    plain = false;
                }
            }
            if plain {
                proof {
                    assert(out@ + (seq![s@[i as int]] + resolve_from(self@, s@, i + 1))
                        =~= out@.push(s@[i as int]) + resolve_from(self@, s@, i + 1));
                }
                out.push(c);
                i = i + 1;
            }
        }
        proof {
            assert(out@ + resolve_from(self@, s@, i as int) =~= out@);
        }
        from_chars(&out)
    }
}

} // verus!
