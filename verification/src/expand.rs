use vstd::prelude::*;

use crate::error::Error;
use crate::parser::{nodes_view, parse_scss, parse_spec, ParsedSpec, MAX_DEPTH};
use crate::render::render_css;
use crate::scan::{base_split, find_base_split, kw_at, parse_import_path, read_until_semicolon,
    resolve_import, starts_with_kw};
use crate::text::{clone_strings, copy_range, from_chars, push_all, to_chars};

verus! {

/// What the import resolver asks its driver to do next.  The driver
/// performs the one filesystem action and hands the outcome back.
pub enum Request {
    /// Canonicalize this path.
    Canonicalize { path: String },
    /// Read this file as UTF-8 text.
    ReadFile { path: String },
    /// Say whether a file exists at this path.
    Probe { path: String },
}

/// The driver's answer to the last [`Request`].
pub enum Reply {
    /// The canonical form of the requested path.
    CanonOk { path: String },
    /// The path could not be canonicalized.
    CanonFail,
    /// The file's text.
    ReadOk { text: String },
    /// The file could not be read.
    ReadFail,
    /// Whether the probed path exists.
    ProbeResult { exists: bool },
}

/// One turn of the resolver: another request, the finished merged
/// source, or a failure.
pub enum Step {
    Ask { req: Request },
    Done { text: String },
    Fail { err: Error },
}

/// One partly scanned source file.
struct Frame {
    content: Vec<char>,
    pos: usize,
    base: String,
}

/// What the resolver is waiting for.
enum Mode {
    AwaitCanon { path: String },
    AwaitRead { path: String, base: String },
    AwaitProbe { cands: Vec<String>, idx: usize, orig: String },
    Finished,
}

/// The directory part of a canonical path: everything before the last
/// separator (the lone root separator is kept).
pub open spec fn dir_of(s: Seq<char>) -> Seq<char> {
    if base_split(s) > 1 {
        s.subrange(0, base_split(s) - 1)
    } else {
        s.subrange(0, base_split(s))
    }
}

/// Computes [`dir_of`].
fn dirname(p: &String) -> (r: String)
    ensures
        r@ == dir_of(p@),
{
    let cs = to_chars(p.as_str());
    let split = find_base_split(&cs);
    if split > 1 {
        from_chars(&copy_range(&cs, 0, split - 1))
    } else {
        from_chars(&copy_range(&cs, 0, split))
    }
}

/// No `@import` keyword stands anywhere in the text.
pub open spec fn no_import_kw(s: Seq<char>) -> bool {
    forall|i: int| !kw_at(s, i, "@import"@)
}

/// Whether one of the strings reads as `p`.
pub open spec fn contains_path(v: Seq<String>, p: Seq<char>) -> bool {
    exists|k: int| 0 <= k && k < v.len() && v[k]@ == p
}

fn visited_contains(v: &Vec<String>, p: &String) -> (r: bool)
    ensures
        r == contains_path(v@, p@),
{
    let mut k: usize = 0;
    while k < v.len()
        invariant
            k <= v@.len(),
            forall|t: int| 0 <= t && t < k ==> v@[t]@ != p@,
        decreases v@.len() - k,
    {
        if v[k] == *p {
            return true;
        }
        k = k + 1;
    }
    false
}

/// The import resolver as a state machine.  It owns the visited set, the
/// scan stack and the output; the driver owns the filesystem.  Each
/// canonical path is read at most once per compile: a path is marked
/// visited before its read is requested, and a visited path contributes
/// nothing again, which both breaks import cycles and deduplicates
/// imports by resolved identity.
pub struct Expander {
    include_paths: Vec<String>,
    visited: Vec<String>,
    frames: Vec<Frame>,
    out: Vec<char>,
    mode: Mode,
}

impl Expander {
    /// Internal consistency: scan positions stay inside their frames and
    /// a probe cursor stays inside its candidate list.
    pub closed spec fn inv(&self) -> bool {
        &&& forall|k: int|
            0 <= k && k < self.frames@.len() ==> (#[trigger] self.frames@[k]).pos
                <= self.frames@[k].content@.len()
        &&& match self.mode {
            Mode::AwaitProbe { cands, idx, orig } => idx < cands@.len(),
            _ => true,
        }
    }

    /// Whether this canonical path was already inlined.
    pub closed spec fn has_visited(&self, p: Seq<char>) -> bool {
        contains_path(self.visited@, p)
    }

    /// How many canonical paths were inlined so far.
    pub closed spec fn visited_len(&self) -> nat {
        self.visited@.len()
    }

    /// How many files are open mid-scan.
    pub closed spec fn depth(&self) -> nat {
        self.frames@.len()
    }

    /// The merged text produced so far.
    pub closed spec fn output(&self) -> Seq<char> {
        self.out@
    }

    /// The resolver waits for a canonicalization answer.
    pub closed spec fn awaits_canon(&self) -> bool {
        self.mode is AwaitCanon
    }

    /// The resolver waits for a file read answer.
    pub closed spec fn awaits_read(&self) -> bool {
        self.mode is AwaitRead
    }

    /// The resolver waits for a probe answer.
    pub closed spec fn awaits_probe(&self) -> bool {
        self.mode is AwaitProbe
    }

    /// The resolver has answered `Done` or `Fail` and takes no reply.
    pub closed spec fn is_finished(&self) -> bool {
        self.mode is Finished
    }

    /// How many candidate paths are still unprobed for the pending import.
    pub closed spec fn probes_left(&self) -> nat {
        match self.mode {
            Mode::AwaitProbe { cands, idx, orig } => (cands@.len() - idx) as nat,
            _ => 0,
        }
    }

    /// The imported name the pending probes are for.
    pub closed spec fn probing_for(&self) -> Seq<char> {
        match self.mode {
            Mode::AwaitProbe { cands, idx, orig } => orig@,
            _ => Seq::empty(),
        }
    }

    /// The candidate paths of the pending import, in probe order.
    pub closed spec fn pending_cands(&self) -> Seq<Seq<char>> {
        match self.mode {
            Mode::AwaitProbe { cands, idx, orig } => Seq::new(
                cands@.len(),
                |k: int| cands@[k]@,
            ),
            _ => Seq::empty(),
        }
    }

    /// The index of the candidate probed next.
    pub closed spec fn next_probe_index(&self) -> nat {
        match self.mode {
            Mode::AwaitProbe { cands, idx, orig } => idx as nat,
            _ => 0,
        }
    }

    /// The include directories, as given to [`Expander::new`].
    pub closed spec fn includes(&self) -> Seq<Seq<char>> {
        self.include_paths.deep_view()
    }

    /// The path whose canonicalization or read is pending.
    pub closed spec fn pending_path(&self) -> Seq<char> {
        match self.mode {
            Mode::AwaitCanon { path } => path@,
            Mode::AwaitRead { path, base } => path@,
            _ => Seq::empty(),
        }
    }

    /// Starts a compile of `entry`: the first request canonicalizes the
    /// entry path itself.
    pub fn new(entry: &str, include_paths: &Vec<String>) -> (r: (Expander, Request))
        ensures
            r.0.inv(),
            r.0.awaits_canon(),
            r.0.visited_len() == 0,
            r.0.depth() == 0,
            r.0.output() == Seq::<char>::empty(),
            r.0.includes() == include_paths.deep_view(),
            r.1 matches Request::Canonicalize { path } && path@ == entry@,
    {
        let e = Expander {
            include_paths: clone_strings(include_paths),
            visited: Vec::new(),
            frames: Vec::new(),
            out: Vec::new(),
            mode: Mode::AwaitCanon { path: entry.to_owned() },
        };
        let req = Request::Canonicalize { path: entry.to_owned() };
        (e, req)
    }

    /// Scans the stacked frames: copies literal text to the output,
    /// stops at the next `@import` statement with a probe request, pops
    /// finished frames (each inlined file is followed by one newline),
    /// and finishes when no frame is left.
    fn scan_frames(&mut self) -> (r: Step)
        requires
            old(self).inv(),
        ensures
            final(self).inv(),
            final(self).visited == old(self).visited,
            r matches Step::Ask { req } ==> (req matches Request::Probe { .. }
                && final(self).awaits_probe()),
            r matches Step::Ask { req } ==> (req matches Request::Probe { path } ==> (final(self)
                .next_probe_index() == 0 && final(self).pending_cands().len() >= 2 && path@
                == final(self).pending_cands()[0] && (exists|b: Seq<char>|
                final(self).pending_cands() == crate::scan::probe_list(
                    final(self).probing_for(),
                    b,
                    final(self).includes(),
                )))),
            final(self).includes() == old(self).includes(),
            r matches Step::Done { text } ==> (final(self).is_finished() && text@ == final(self)
                .output() && final(self).depth() == 0),
            r matches Step::Fail { .. } ==> final(self).is_finished(),
            old(self).frames@.len() == 1 && old(self).frames@[0].pos == 0 && no_import_kw(
                old(self).frames@[0].content@,
            ) ==> (r matches Step::Done { text } && text@ == old(self).out@
                + old(self).frames@[0].content@),
    {
        let ghost special = old(self).frames@.len() == 1 && old(self).frames@[0].pos == 0
            && no_import_kw(old(self).frames@[0].content@);
        let ghost c0 = if old(self).frames@.len() >= 1 {
            old(self).frames@[0].content@
        } else {
            Seq::<char>::empty()
        };
        let kw = to_chars("@import");
        loop
            invariant
                self.inv(),
                self.visited == old(self).visited,
                self.include_paths == old(self).include_paths,
                self.mode == old(self).mode,
                kw@ == "@import"@,
                special == (old(self).frames@.len() == 1 && old(self).frames@[0].pos == 0
                    && no_import_kw(old(self).frames@[0].content@)),
                c0 == (if old(self).frames@.len() >= 1 {
                    old(self).frames@[0].content@
                } else {
                    Seq::<char>::empty()
                }),
                special ==> ((self.frames@ == old(self).frames@ && self.out@ == old(self).out@)
                    || (self.frames@.len() == 0 && self.out@ == old(self).out@ + c0)),
            decreases self.frames@.len(),
        {
            let popped = self.frames.pop();
            let mut fr = match popped {
                Some(f) => f,
                None => {
                    self.mode = Mode::Finished;
                    return Step::Done { text: from_chars(&self.out) };
                },
            };
            let ghost fsnap = self.frames@;
            let ghost nokw_f = no_import_kw(fr.content@);
            let ghost base_out = self.out@;
            let ghost i0 = fr.pos;
            let len = fr.content.len();
            let mut i = fr.pos;
            let mut found = false;
            proof {
                assert(fr.content@.subrange(i0 as int, i0 as int) =~= Seq::<char>::empty());
                assert(base_out + Seq::<char>::empty() =~= base_out);
            }
            while i < len
                invariant
                    i0 <= i && i <= len,
                    len == fr.content@.len(),
                    self.inv(),
                    self.visited == old(self).visited,
                    self.include_paths == old(self).include_paths,
                    self.mode == old(self).mode,
                    self.frames@ == fsnap,
                    kw@ == "@import"@,
                    nokw_f == no_import_kw(fr.content@),
                    self.out@ == base_out + fr.content@.subrange(i0 as int, i as int),
                    nokw_f ==> !found,
                ensures
                    found || i == len,
                decreases len - i,
            {
                if starts_with_kw(&fr.content, i, &kw) {
                    proof {
                        if nokw_f {
                            assert(!kw_at(fr.content@, i as int, "@import"@));
                            assert(false);
                        }
                    }
                    found = true;
                    break ;
                }
                proof {
                    assert((base_out + fr.content@.subrange(i0 as int, i as int)).push(
                        fr.content@[i as int],
                    ) =~= base_out + fr.content@.subrange(i0 as int, i + 1 as int));
                }
                self.out.push(fr.content[i]);
                i = i + 1;
            }
            if !found {
                proof {
                    if special && fsnap.len() == 0 {
                        assert(fr.content@.subrange(0, len as int) =~= fr.content@);
                    }
                }
                // frame finished; an inlined file is followed by a newline
                if self.frames.len() > 0 {
                    self.out.push('\n');
                }
                continue ;
            }
            // an @import statement starts at i
            match read_until_semicolon(&fr.content, i) {
                Err(e) => {
                    self.mode = Mode::Finished;
                    return Step::Fail { err: e };
                },
                Ok((stmt, next)) => {
                    fr.pos = next;
                    let stmt_s = from_chars(&stmt);
                    match parse_import_path(stmt_s.as_str()) {
                        Err(_e) => {
                            // rebase the malformed statement's offset onto
                            // its position in the importing file
                            self.mode = Mode::Finished;
                            return Step::Fail { err: Error::MalformedImport { offset: i } };
                        },
                        Ok(p) => {
                            let cands = resolve_import(
                                p.as_str(),
                                fr.base.as_str(),
                                &self.include_paths,
                            );
                            let first = cands[0].clone();
                            let ghost fpre = self.frames@;
                            self.frames.push(fr);
                            proof {
                                assert forall|k: int|
                                    0 <= k && k < self.frames@.len() implies (
                                #[trigger] self.frames@[k]).pos
                                    <= self.frames@[k].content@.len() by {
                                    if k < fpre.len() {
                                        assert(self.frames@[k] == fpre[k]);
                                    }
                                }
                            }
                            proof {
                                assert forall|k: int|
                                    0 <= k && k < cands@.len() implies Seq::new(
                                    cands@.len(),
                                    |t: int| cands@[t]@,
                                )[k] == cands.deep_view()[k] by {
                                    assert(cands.deep_view()[k] == cands@[k].deep_view());
                                }
                                assert(Seq::new(cands@.len(), |t: int| cands@[t]@)
                                    =~= cands.deep_view());
                            }
                            self.mode = Mode::AwaitProbe { cands, idx: 0, orig: p };
                            proof {
                                assert(self.pending_cands() == cands.deep_view());
                                assert(self.pending_cands()[0] == cands@[0]@);
                                assert(self.probing_for() == p@);
                                assert(self.pending_cands() == crate::scan::probe_list(
                                    self.probing_for(),
                                    fr.base@,
                                    self.includes(),
                                ));
                            }
                            return Step::Ask { req: Request::Probe { path: first } };
                        },
                    }
                },
            }
        }
    }

    /// Feeds the answer to the last request and advances to the next
    /// one.  A `ReadFile` request is made only for a path that was not
    /// yet visited, and the path is visited from then on: no file is
    /// ever read twice in one compile.
    pub fn step(&mut self, reply: Reply) -> (r: Step)
        requires
            old(self).inv(),
            !old(self).is_finished(),
            (reply is CanonOk || reply is CanonFail) ==> old(self).awaits_canon(),
            (reply is ReadOk || reply is ReadFail) ==> old(self).awaits_read(),
            reply is ProbeResult ==> old(self).awaits_probe(),
            old(self).awaits_probe() ==> (exists|b: Seq<char>|
                old(self).pending_cands() == crate::scan::probe_list(
                    old(self).probing_for(),
                    b,
                    old(self).includes(),
                )),
            (reply is CanonOk || reply is CanonFail) || (reply is ReadOk || reply is ReadFail) || (
            reply is ProbeResult),
        ensures
            reply matches Reply::ReadOk { text } ==> (old(self).depth() == 0 && no_import_kw(
                text@,
            ) ==> (r matches Step::Done { text: done } && done@ == old(self).output() + text@)),
            final(self).inv(),
            forall|p: Seq<char>|
                (#[trigger] old(self).has_visited(p)) ==> final(self).has_visited(p),
            r matches Step::Done { text } ==> text@ == final(self).output(),
            reply is CanonFail ==> (r matches Step::Fail { err } && err matches Error::Io { path }
                && path@ == old(self).pending_path()),
            reply is ReadFail ==> (r matches Step::Fail { err } && err matches Error::Io { path }
                && path@ == old(self).pending_path()),
            (reply matches Reply::ProbeResult { exists } && !exists && old(self).probes_left()
                <= 1) ==> (r matches Step::Fail { err } && err matches Error::ImportNotFound {
                path,
            } && path@ == old(self).probing_for()),
            r matches Step::Ask { req } ==> (req matches Request::ReadFile { path } ==> (!old(self)
                .has_visited(path@) && final(self).has_visited(path@))),
            r matches Step::Ask { req } ==> (req matches Request::Canonicalize { .. } ==> final(self)
                .awaits_canon()),
            r matches Step::Ask { req } ==> (req matches Request::ReadFile { .. } ==> final(self)
                .awaits_read()),
            r matches Step::Ask { req } ==> (req matches Request::Probe { .. } ==> final(self)
                .awaits_probe()),
            r matches Step::Ask { req } ==> (req matches Request::Probe { path } ==> path@
                == final(self).pending_cands()[final(self).next_probe_index() as int]),
            r matches Step::Ask { req } ==> (req matches Request::ReadFile { .. } ==> final(self)
                .visited_len() == old(self).visited_len() + 1),
            final(self).awaits_probe() ==> (exists|b: Seq<char>|
                final(self).pending_cands() == crate::scan::probe_list(
                    final(self).probing_for(),
                    b,
                    final(self).includes(),
                )),
            (reply matches Reply::ProbeResult { exists } && exists) ==> (r matches Step::Ask { req }
                && req matches Request::Canonicalize { path } && path@ == old(self).pending_cands()[old(self).next_probe_index() as int]),
            (reply matches Reply::ProbeResult { exists } && !exists && old(self).probes_left() > 1)
                ==> (final(self).pending_cands() == old(self).pending_cands() && final(self)
                .next_probe_index() == old(self).next_probe_index() + 1 && final(self).probes_left()
                == old(self).probes_left() - 1 && (r matches Step::Ask { req } && (req matches
                Request::Probe { .. }))),
            reply matches Reply::CanonOk { path } ==> (old(self).has_visited(path@) ==> final(self)
                .visited_len() == old(self).visited_len()),
            reply matches Reply::CanonOk { path } ==> (old(self).has_visited(path@) ==> !(r matches
            Step::Ask { req } && (req matches Request::ReadFile { .. }))),
            r matches Step::Done { .. } ==> final(self).depth() == 0,
            final(self).includes() == old(self).includes(),
            r matches Step::Done { .. } ==> final(self).is_finished(),
            r matches Step::Fail { .. } ==> final(self).is_finished(),
    {
        let mut m = Mode::Finished;
        core::mem::swap(&mut m, &mut self.mode);
        match m {
            Mode::AwaitCanon { path } => {
                match reply {
                    Reply::CanonOk { path: canon } => {
                        if visited_contains(&self.visited, &canon) {
                            // already inlined: contribute nothing but the
                            // separating newline of this import
                            if self.frames.len() == 0 {
                                self.mode = Mode::Finished;
                                return Step::Done { text: from_chars(&self.out) };
                            }
                            self.out.push('\n');
                            self.scan_frames()
                        } else {
                            if self.frames.len() >= MAX_DEPTH {
                                self.mode = Mode::Finished;
                                return Step::Fail { err: Error::DepthExceeded };
                            }
                            let ghost vpre = self.visited@;
                            self.visited.push(canon.clone());
                            proof {
                                assert(self.visited@[vpre.len() as int]@ == canon@);
                                assert(contains_path(self.visited@, canon@));
                                assert forall|p: Seq<char>| contains_path(
                                    vpre,
                                    p,
                                ) implies contains_path(self.visited@, p) by {
                                    let k = choose|k: int|
                                        0 <= k && k < vpre.len() && vpre[k]@ == p;
                                    assert(self.visited@[k] == vpre[k]);
                                }
                            }
                            let base = dirname(&canon);
                            self.mode = Mode::AwaitRead { path: canon.clone(), base };
                            Step::Ask { req: Request::ReadFile { path: canon } }
                        }
                    },
                    _ => {
                        // canonicalization failed: the file is unreadable
                        self.mode = Mode::Finished;
                        Step::Fail { err: Error::Io { path } }
                    },
                }
            },
            Mode::AwaitRead { path, base } => {
                match reply {
                    Reply::ReadOk { text } => {
                        let content = to_chars(text.as_str());
                        let ghost fpre = self.frames@;
                        let fr = Frame { content, pos: 0, base };
                        self.frames.push(fr);
                        proof {
                            assert forall|k: int|
                                0 <= k && k < self.frames@.len() implies (
                            #[trigger] self.frames@[k]).pos <= self.frames@[k].content@.len() by {
                                if k < fpre.len() {
                                    assert(self.frames@[k] == fpre[k]);
                                }
                            }
                        }
                        self.scan_frames()
                    },
                    _ => {
                        self.mode = Mode::Finished;
                        Step::Fail { err: Error::Io { path } }
                    },
                }
            },
            Mode::AwaitProbe { cands, idx, orig } => {
                match reply {
                    Reply::ProbeResult { exists } => {
                        proof {
                            assert(idx < cands@.len());
                        }
                        if exists {
                            let target = cands[idx].clone();
                            proof {
                                assert(old(self).pending_cands()[idx as int] == cands@[idx as int]@);
                            }
                            self.mode = Mode::AwaitCanon { path: target.clone() };
                            Step::Ask { req: Request::Canonicalize { path: target } }
                        } else {
                            let n = cands.len();
                            if idx + 1 < n {
                                let nextp = cands[idx + 1].clone();
                                self.mode = Mode::AwaitProbe { cands, idx: idx + 1, orig };
                                proof {
                                    assert(self.probing_for() == orig@);
                                    assert(old(self).probing_for() == orig@);
                                    assert(self.includes() == old(self).includes());
                                    assert(self.pending_cands() =~= old(self).pending_cands());
                                    let b0 = choose|b: Seq<char>|
                                        old(self).pending_cands() == crate::scan::probe_list(
                                            old(self).probing_for(),
                                            b,
                                            old(self).includes(),
                                        );
                                    assert(self.pending_cands() == crate::scan::probe_list(
                                        self.probing_for(),
                                        b0,
                                        self.includes(),
                                    ));
                                    assert(self.pending_cands()[idx + 1 as int] == cands@[idx
                                        + 1 as int]@);
                                }
                                Step::Ask { req: Request::Probe { path: nextp } }
                            } else {
                                self.mode = Mode::Finished;
                                Step::Fail { err: Error::ImportNotFound { path: orig } }
                            }
                        }
                    },
                    _ => {
                        self.mode = Mode::Finished;
                        Step::Fail { err: Error::ImportNotFound { path: orig } }
                    },
                }
            },
            Mode::Finished => {
                // unreachable under the stated requires
                Step::Fail { err: Error::DepthExceeded }
            },
        }
    }
}

/// Compiles already-merged source text: parse it, then flatten and
/// render it.  The whole pass is a pure function of the text — for a
/// source with no imports, the compile output depends on nothing else.
pub fn compile_source(src: &str) -> (r: Result<String, Error>)
    ensures
        r is Ok <==> parse_spec(src@) is Nodes,
        r matches Err(e) ==> parse_spec(src@) == (ParsedSpec::Fault { err: e }),
        r matches Err(e) ==> (e is Syntax || e is DepthExceeded),
        r matches Ok(css) ==> (exists|ns: Seq<crate::parser::Node>|
            nodes_view(ns) == parse_spec(src@)->Nodes_nodes && css@
                == crate::render::render_flat(
                crate::render::flatten_spec(ns, Map::empty(), Seq::empty(), Seq::empty()).0,
                0,
            )),
        src@.len() == 0 ==> (r matches Ok(css) && css@.len() == 0),
{
    match parse_scss(src) {
        Ok(ast) => {
            let ghost ns = ast.nodes@;
            let r = render_css(ast);
            proof {
                if r is Ok {
                    assert(nodes_view(ns) == parse_spec(src@)->Nodes_nodes && r->Ok_0@
                        == crate::render::render_flat(
                        crate::render::flatten_spec(ns, Map::empty(), Seq::empty(), Seq::empty()).0,
                        0,
                    ));
                }
            }
            proof {
                if ns.len() == 0 {
                    assert(crate::render::flatten_spec(
                        ns,
                        Map::empty(),
                        Seq::empty(),
                        Seq::empty(),
                    ).0 =~= Seq::<crate::render::FlatSpec>::empty());
                    assert(crate::render::render_flat(
                        Seq::<crate::render::FlatSpec>::empty(),
                        0,
                    ) =~= Seq::<char>::empty());
                }
            }
            r
        },
        Err(e) => Err(e),
    }
}

} // verus!
