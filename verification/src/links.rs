//! Where a link points. Relative targets resolve against the directory of
//! the file they appear in; absolute (`/x/y.md`) targets against the OKF
//! bundle root (then the literal filesystem path); URLs and same-file
//! anchors are recognised and not opened.
//!
//! Which candidate paths exist on disk is a fact the caller supplies: it
//! checks the paths [`link_candidates`] names and passes the ones that are
//! files to [`resolve_target`].

use vstd::prelude::*;
use crate::chars::{
    chars_eq, find_exec, find_from, from_chars, has_prefix, lemma_find_from_none, lemma_find_from_skip,
    occurs_at, starts_with, to_chars,
};
use crate::paths::{joined, path_join, path_parent, std_parent};

verus! {

// ---------------------------------------------------------------------
// Clamping bundle-absolute paths
// ---------------------------------------------------------------------

/// `s` scanned into finished `/`-separated segments and the segment being
/// read.
pub open spec fn scan_segments(s: Seq<char>) -> (Seq<Seq<char>>, Seq<char>)
    decreases s.len(),
{
    if s.len() == 0 {
        (Seq::empty(), Seq::empty())
    } else {
        let (done, cur) = scan_segments(s.drop_last());
        if s.last() == '/' {
            (done.push(cur), Seq::empty())
        } else {
            (done, cur.push(s.last()))
        }
    }
}

/// The pieces of `s` between `/`s (as `str::split('/')`), empty ones
/// included.
pub open spec fn segments(s: Seq<char>) -> Seq<Seq<char>> {
    let (done, cur) = scan_segments(s);
    done.push(cur)
}

/// The directory stack after walking `segs`: empty and `.` segments are
/// skipped, `..` leaves the current directory (never above the top), and
/// anything else enters a directory of that name.
pub open spec fn walk_segments(segs: Seq<Seq<char>>) -> Seq<Seq<char>>
    decreases segs.len(),
{
    if segs.len() == 0 {
        Seq::empty()
    } else {
        let st = walk_segments(segs.drop_last());
        let g = segs.last();
        if g.len() == 0 || g == seq!['.'] {
            st
        } else if g == seq!['.', '.'] {
            if st.len() > 0 { st.drop_last() } else { st }
        } else {
            st.push(g)
        }
    }
}

/// The segments `st` joined with `/`.
pub open spec fn join_segments(st: Seq<Seq<char>>) -> Seq<char>
    decreases st.len(),
{
    if st.len() == 0 {
        Seq::empty()
    } else if st.len() == 1 {
        st[0]
    } else {
        join_segments(st.drop_last()) + seq!['/'] + st.last()
    }
}

/// `path` as a relative path with `.` / `..` segments resolved and clamped
/// at the top.
pub open spec fn clamped(path: Seq<char>) -> Seq<char> {
    join_segments(walk_segments(segments(path)))
}

/// Whether `g` is a plain directory or file name: not empty, not `.` or
/// `..`, and without `/`.
pub open spec fn plain_segment(g: Seq<char>) -> bool {
    &&& g.len() > 0
    &&& g != seq!['.']
    &&& g != seq!['.', '.']
    &&& !g.contains('/')
}

proof fn lemma_scan_segments_no_slash(s: Seq<char>)
    ensures
        forall|i: int| 0 <= i < scan_segments(s).0.len() ==> !(#[trigger] scan_segments(s).0[i]).contains('/'),
        !scan_segments(s).1.contains('/'),
    decreases s.len(),
{
    if s.len() > 0 {
        lemma_scan_segments_no_slash(s.drop_last());
        let (done, cur) = scan_segments(s.drop_last());
        if s.last() != '/' {
            assert forall|j: int| 0 <= j < cur.push(s.last()).len() implies cur.push(s.last())[j] != '/' by {
                if j < cur.len() {
                    assert(cur.contains(cur[j]));
                }
            }
        } else {
            assert forall|i: int| 0 <= i < done.push(cur).len() implies !(#[trigger] done.push(cur)[i]).contains('/') by {
                if i < done.len() {
                    assert(done.push(cur)[i] == done[i]);
                }
            }
        }
    }
}

proof fn lemma_walk_plain(segs: Seq<Seq<char>>)
    requires
        forall|i: int| 0 <= i < segs.len() ==> !(#[trigger] segs[i]).contains('/'),
    ensures
        forall|i: int| 0 <= i < walk_segments(segs).len() ==> plain_segment(#[trigger] walk_segments(segs)[i]),
    decreases segs.len(),
{
    if segs.len() > 0 {
        assert forall|i: int| 0 <= i < segs.drop_last().len() implies !(#[trigger] segs.drop_last()[i]).contains('/') by {
            assert(segs.drop_last()[i] == segs[i]);
        }
        lemma_walk_plain(segs.drop_last());
        let st = walk_segments(segs.drop_last());
        assert(!segs[segs.len() - 1].contains('/'));
        assert forall|i: int| 0 <= i < walk_segments(segs).len() implies plain_segment(#[trigger] walk_segments(segs)[i]) by {
            if i < st.len() {
                assert(walk_segments(segs)[i] == st[i]);
            }
        }
    }
}

proof fn lemma_join_first(st: Seq<Seq<char>>)
    requires
        st.len() > 0,
        st[0].len() > 0,
    ensures
        join_segments(st).len() > 0,
        join_segments(st)[0] == st[0][0],
    decreases st.len(),
{
    if st.len() > 1 {
        lemma_join_first(st.drop_last());
    }
}

/// A clamped bundle-absolute path cannot leave the bundle root: it is
/// relative (no leading `/`), and made only of plain names, with every
/// `.`, `..` and empty segment resolved away.
pub proof fn lemma_clamped_stays_inside(path: Seq<char>)
    ensures
        forall|i: int|
            0 <= i < walk_segments(segments(path)).len() ==> plain_segment(
                #[trigger] walk_segments(segments(path))[i],
            ),
        clamped(path) == join_segments(walk_segments(segments(path))),
        clamped(path).len() > 0 ==> clamped(path)[0] != '/',
{
    lemma_scan_segments_no_slash(path);
    let (done, cur) = scan_segments(path);
    assert forall|i: int| 0 <= i < segments(path).len() implies !(#[trigger] segments(path)[i]).contains('/') by {
        if i < done.len() {
            assert(segments(path)[i] == done[i]);
        }
    }
    lemma_walk_plain(segments(path));
    let st = walk_segments(segments(path));
    if st.len() > 0 {
        assert(plain_segment(st[0]));
        lemma_join_first(st);
        assert(st[0].contains(st[0][0]));
    }
}

fn apply_segment(stack: &mut Vec<Vec<char>>, seg: Vec<char>)
    ensures
        final(stack)@.map_values(|v: Vec<char>| v@) == {
            let st = old(stack)@.map_values(|v: Vec<char>| v@);
            let g = seg@;
            if g.len() == 0 || g == seq!['.'] {
                st
            } else if g == seq!['.', '.'] {
                if st.len() > 0 { st.drop_last() } else { st }
            } else {
                st.push(g)
            }
        },
{
    let dot = ['.'];
    let dotdot = ['.', '.'];
    assert(dot@ == seq!['.']);
    assert(dotdot@ == seq!['.', '.']);
    let ghost st = stack@.map_values(|v: Vec<char>| v@);
    if seg.len() == 0 || chars_eq(seg.as_slice(), &dot) {
    } else if chars_eq(seg.as_slice(), &dotdot) {
        if stack.len() > 0 {
            stack.pop();
            assert(stack@.map_values(|v: Vec<char>| v@) =~= st.drop_last());
        }
    } else {
        let ghost g = seg@;
        stack.push(seg);
        assert(stack@.map_values(|v: Vec<char>| v@) =~= st.push(g));
    }
}

/// `path` as a relative path with `.`/`..` segments resolved and clamped at
/// the top, so a bundle-absolute `/../x.md` or `/a/../../x.md` still lands
/// inside the bundle root rather than beside it.
pub fn clamp_to_root(path: &str) -> (r: String)
    ensures
        r@ == clamped(path@),
{
    let cs = to_chars(path);
    let mut stack: Vec<Vec<char>> = Vec::new();
    let mut cur: Vec<char> = Vec::new();
    let ghost mut done: Seq<Seq<char>> = Seq::empty();
    let mut i: usize = 0;
    while i < cs.len()
        invariant
            i <= cs@.len(),
            cs@ == path@,
            scan_segments(cs@.subrange(0, i as int)) == (done, cur@),
            stack@.map_values(|v: Vec<char>| v@) == walk_segments(done),
        decreases cs.len() - i,
    {
        let c = cs[i];
        assert(cs@.subrange(0, i + 1).drop_last() == cs@.subrange(0, i as int));
        if c == '/' {
            let mut seg: Vec<char> = Vec::new();
            std::mem::swap(&mut seg, &mut cur);
            proof {
                assert(done.push(seg@).drop_last() == done);
                done = done.push(seg@);
            }
            apply_segment(&mut stack, seg);
        } else {
            cur.push(c);
        }
        i = i + 1;
    }
    assert(cs@.subrange(0, cs@.len() as int) == cs@);
    proof {
        assert(done.push(cur@).drop_last() == done);
    }
    apply_segment(&mut stack, cur);
    let ghost st = stack@.map_values(|v: Vec<char>| v@);
    assert(st == walk_segments(segments(path@)));
    let mut out: Vec<char> = Vec::new();
    let mut k: usize = 0;
    while k < stack.len()
        invariant
            k <= stack@.len(),
            st == stack@.map_values(|v: Vec<char>| v@),
            out@ == join_segments(st.take(k as int)),
        decreases stack.len() - k,
    {
        assert(st.take(k + 1).drop_last() == st.take(k as int));
        if k > 0 {
            out.push('/');
        }
        crate::chars::push_all(&mut out, stack[k].as_slice());
        proof {
            if k == 0 {
                assert(st.take(1) == seq![st[0]]);
                assert(out@ =~= st[0]);
            } else {
                assert(out@ =~= join_segments(st.take(k as int)) + seq!['/'] + st[k as int]);
            }
        }
        k = k + 1;
    }
    assert(st.take(stack@.len() as int) == st);
    from_chars(out.as_slice())
}

// ---------------------------------------------------------------------
// Location suffixes
// ---------------------------------------------------------------------

/// The last index of `c` in `s`.
pub open spec fn last_index(s: Seq<char>, c: char) -> Option<int>
    decreases s.len(),
{
    if s.len() == 0 {
        None
    } else if s.last() == c {
        Some(s.len() - 1)
    } else {
        last_index(s.drop_last(), c)
    }
}

/// Whether every character of `s` is an ASCII digit.
pub open spec fn all_digits(s: Seq<char>) -> bool {
    forall|i: int| 0 <= i < s.len() ==> '0' <= #[trigger] s[i] && s[i] <= '9'
}

/// `path` without a trailing `:<digits>` location suffix: the text before
/// the last `:`, when both it and the digits after it are non-empty.
pub open spec fn line_suffix_stripped(path: Seq<char>) -> Option<Seq<char>> {
    match last_index(path, ':') {
        None => None,
        Some(i) => {
            let head = path.take(i);
            let tail = path.skip(i + 1);
            if head.len() > 0 && tail.len() > 0 && all_digits(tail) {
                Some(head)
            } else {
                None
            }
        },
    }
}

proof fn lemma_last_index_bounds(s: Seq<char>, c: char)
    ensures
        last_index(s, c) matches Some(i) ==> 0 <= i < s.len() && s[i] == c,
    decreases s.len(),
{
    if s.len() > 0 && s.last() != c {
        lemma_last_index_bounds(s.drop_last(), c);
    }
}

/// `path` without a trailing `:<digits>` location suffix, or `None` when
/// there is no such suffix (so `foo:bar.md` and `a.go:` are left alone).
pub fn strip_line_suffix(path: &str) -> (r: Option<String>)
    ensures
        r matches Some(h) ==> line_suffix_stripped(path@) == Some(h@),
        r is None ==> line_suffix_stripped(path@) is None,
{
    let cs = to_chars(path);
    let mut i = cs.len();
    assert(cs@.take(i as int) == cs@);
    while i > 0 && cs[i - 1] != ':'
        invariant
            i <= cs@.len(),
            cs@ == path@,
            last_index(cs@, ':') == last_index(cs@.take(i as int), ':'),
        decreases i,
    {
        assert(cs@.take(i as int).drop_last() == cs@.take(i - 1));
        i = i - 1;
    }
    proof {
        lemma_last_index_bounds(cs@, ':');
    }
    if i == 0 {
        assert(cs@.take(0) == Seq::<char>::empty());
        return None;
    }
    let colon = i - 1;
    assert(cs@.take(i as int).last() == ':');
    assert(last_index(cs@, ':') == Some(colon as int));
    if colon == 0 || colon + 1 == cs.len() {
        assert(cs@.take(colon as int).len() == colon);
        assert(cs@.skip(colon + 1).len() == cs@.len() - colon - 1);
        return None;
    }
    let mut j = colon + 1;
    while j < cs.len()
        invariant
            colon + 1 <= j <= cs@.len(),
            cs@ == path@,
            last_index(cs@, ':') == Some(colon as int),
            forall|k: int| colon + 1 <= k < j ==> '0' <= #[trigger] cs@[k] && cs@[k] <= '9',
        decreases cs.len() - j,
    {
        if !('0' <= cs[j] && cs[j] <= '9') {
            assert(cs@.skip(colon + 1)[j - colon - 1] == cs@[j as int]);
            return None;
        }
        j = j + 1;
    }
    assert forall|k: int| 0 <= k < cs@.skip(colon + 1).len() implies '0' <= #[trigger] cs@.skip(
        colon + 1,
    )[k] && cs@.skip(colon + 1)[k] <= '9' by {
        assert(cs@.skip(colon + 1)[k] == cs@[colon + 1 + k]);
    }
    Some(from_chars(&cs.as_slice()[0..colon]))
}

// ---------------------------------------------------------------------
// Resolving targets
// ---------------------------------------------------------------------

/// Where a link points.
#[derive(Debug)]
pub enum Target {
    /// A file on disk that exists and can be navigated to.
    File(String),
    /// Has a URL scheme (http, mailto, ...) or is protocol-relative: not
    /// opened, just reported.
    External(String),
    /// A same-file `#fragment` anchor.
    Anchor(String),
    /// Resolved to a local path that doesn't exist.
    NotFound(String),
}

/// The value a [`Target`] denotes.
pub enum TargetView {
    File(Seq<char>),
    External(Seq<char>),
    Anchor(Seq<char>),
    NotFound(Seq<char>),
}

impl View for Target {
    type V = TargetView;

    open spec fn view(&self) -> TargetView {
        match self {
            Target::File(p) => TargetView::File(p@),
            Target::External(u) => TargetView::External(u@),
            Target::Anchor(f) => TargetView::Anchor(f@),
            Target::NotFound(p) => TargetView::NotFound(p@),
        }
    }
}

/// The two paths a link is resolved against: the file it appeared in (base
/// for relative targets) and the OKF bundle root (base for `/`-prefixed
/// targets).
#[derive(Clone, Copy)]
pub struct LinkBase<'a> {
    pub current_file: &'a str,
    pub bundle_root: &'a str,
}

/// How the candidate files for a path are formed.
pub enum CandidateRule {
    /// A bundle-absolute path: under the bundle root (clamped), then the
    /// literal filesystem path.
    BundleAbsolute(String),
    /// A relative path: under this directory.
    Relative(String),
}

/// The value a [`CandidateRule`] denotes.
pub enum RuleView {
    BundleAbsolute(Seq<char>),
    Relative(Seq<char>),
}

impl View for CandidateRule {
    type V = RuleView;

    open spec fn view(&self) -> RuleView {
        match self {
            CandidateRule::BundleAbsolute(r) => RuleView::BundleAbsolute(r@),
            CandidateRule::Relative(d) => RuleView::Relative(d@),
        }
    }
}

/// The candidate files for path `p`, in order of preference.
pub open spec fn rule_candidates(rule: RuleView, p: Seq<char>) -> Seq<Seq<char>> {
    match rule {
        RuleView::BundleAbsolute(root) => seq![joined(root, clamped(p)), p],
        RuleView::Relative(dir) => seq![joined(dir, p)],
    }
}

/// `p`, then `p` with its location suffix stripped, then with a second one
/// stripped, as far as there are suffixes to strip.
pub open spec fn attempt_paths(p: Seq<char>) -> Seq<Seq<char>> {
    match line_suffix_stripped(p) {
        None => seq![p],
        Some(a1) => match line_suffix_stripped(a1) {
            None => seq![p, a1],
            Some(a2) => seq![p, a1, a2],
        },
    }
}

/// Every candidate for every attempt, in the order they are tried.
pub open spec fn all_candidates(rule: RuleView, attempts: Seq<Seq<char>>) -> Seq<Seq<char>>
    decreases attempts.len(),
{
    if attempts.len() == 0 {
        Seq::empty()
    } else {
        all_candidates(rule, attempts.drop_last()) + rule_candidates(rule, attempts.last())
    }
}

/// The first of `cands` that is among `files`.
pub open spec fn first_file(cands: Seq<Seq<char>>, files: Seq<Seq<char>>) -> Option<Seq<char>>
    decreases cands.len(),
{
    if cands.len() == 0 {
        None
    } else if files.contains(cands[0]) {
        Some(cands[0])
    } else {
        first_file(cands.drop_first(), files)
    }
}

/// The outcome of probing path `p` with `rule`, given which paths are
/// `files`: the first existing candidate over all attempts, else not found
/// at the first candidate for `p` as written.
pub open spec fn probed(p: Seq<char>, rule: RuleView, files: Seq<Seq<char>>) -> TargetView {
    match first_file(all_candidates(rule, attempt_paths(p)), files) {
        Some(f) => TargetView::File(f),
        None => TargetView::NotFound(rule_candidates(rule, p)[0]),
    }
}

/// The values of a list of strings.
pub open spec fn strings_view(v: Seq<String>) -> Seq<Seq<char>> {
    v.map_values(|s: String| s@)
}

fn candidates_for(rule: &CandidateRule, p: &str) -> (r: Vec<String>)
    ensures
        strings_view(r@) == rule_candidates(rule@, p@),
        r@.len() >= 1,
{
    let mut r: Vec<String> = Vec::new();
    match rule {
        CandidateRule::BundleAbsolute(root) => {
            let c = clamp_to_root(p);
            r.push(path_join(root.as_str(), c.as_str()));
            r.push(p.to_owned());
        },
        CandidateRule::Relative(dir) => {
            r.push(path_join(dir.as_str(), p));
        },
    }
    assert(strings_view(r@) =~= rule_candidates(rule@, p@));
    r
}

fn attempts_for(p: &str) -> (r: Vec<String>)
    ensures
        strings_view(r@) == attempt_paths(p@),
{
    let mut r: Vec<String> = Vec::new();
    r.push(p.to_owned());
    if let Some(a1) = strip_line_suffix(p) {
        let a2 = strip_line_suffix(a1.as_str());
        r.push(a1);
        if let Some(a2) = a2 {
            r.push(a2);
        }
    }
    assert(strings_view(r@) =~= attempt_paths(p@));
    r
}

pub(crate) fn is_listed(files: &Vec<String>, c: &String) -> (r: bool)
    ensures
        r == strings_view(files@).contains(c@),
{
    let cc = to_chars(c.as_str());
    let mut i: usize = 0;
    while i < files.len()
        invariant
            i <= files@.len(),
            cc@ == c@,
            forall|k: int| 0 <= k < i ==> files@[k]@ != c@,
        decreases files.len() - i,
    {
        let f = to_chars(files[i].as_str());
        if chars_eq(f.as_slice(), cc.as_slice()) {
            assert(strings_view(files@)[i as int] == c@);
            return true;
        }
        i = i + 1;
    }
    assert forall|k: int| 0 <= k < strings_view(files@).len() implies strings_view(files@)[k] != c@ by {
    }
    false
}

proof fn lemma_all_candidates_concat(rule: RuleView, x: Seq<Seq<char>>, y: Seq<Seq<char>>)
    ensures
        all_candidates(rule, x + y) == all_candidates(rule, x) + all_candidates(rule, y),
    decreases y.len(),
{
    if y.len() == 0 {
        assert(x + y == x);
        assert(all_candidates(rule, x) + all_candidates(rule, y) == all_candidates(rule, x));
    } else {
        assert((x + y).drop_last() == x + y.drop_last());
        lemma_all_candidates_concat(rule, x, y.drop_last());
        assert(all_candidates(rule, x) + all_candidates(rule, y) == all_candidates(rule, x)
            + all_candidates(rule, y.drop_last()) + rule_candidates(rule, y.last()));
    }
}

proof fn lemma_first_file_append(a: Seq<Seq<char>>, b: Seq<Seq<char>>, files: Seq<Seq<char>>)
    ensures
        first_file(a + b, files) == match first_file(a, files) {
            Some(f) => Some(f),
            None => first_file(b, files),
        },
    decreases a.len(),
{
    if a.len() > 0 {
        assert((a + b).drop_first() == a.drop_first() + b);
        lemma_first_file_append(a.drop_first(), b, files);
    } else {
        assert(a + b == b);
    }
}

pub(crate) proof fn lemma_first_file_none(a: Seq<Seq<char>>, files: Seq<Seq<char>>)
    requires
        forall|k: int| 0 <= k < a.len() ==> !files.contains(#[trigger] a[k]),
    ensures
        first_file(a, files) is None,
    decreases a.len(),
{
    if a.len() > 0 {
        lemma_first_file_none(a.drop_first(), files);
    }
}

pub(crate) proof fn lemma_first_file_hit(a: Seq<Seq<char>>, files: Seq<Seq<char>>, j: int)
    requires
        0 <= j < a.len(),
        files.contains(a[j]),
        forall|k: int| 0 <= k < j ==> !files.contains(#[trigger] a[k]),
    ensures
        first_file(a, files) == Some(a[j]),
    decreases j,
{
    if j > 0 {
        lemma_first_file_hit(a.drop_first(), files, j - 1);
    }
}

/// The first existing file among the candidates of `path` under `rule`;
/// failing that, the same with a trailing `:LINE` (and then `:LINE:COL`)
/// stripped, since tool-generated links often carry a location suffix.
/// `NotFound` reports the first candidate for the path as written. Which
/// paths exist is given by `existing_files`.
pub fn probe(path: &str, rule: &CandidateRule, existing_files: &Vec<String>) -> (r: Target)
    ensures
        r@ == probed(path@, rule@, strings_view(existing_files@)),
{
    let attempts = attempts_for(path);
    let ghost files = strings_view(existing_files@);
    let ghost av = strings_view(attempts@);
    let mut a: usize = 0;
    while a < attempts.len()
        invariant
            a <= attempts@.len(),
            av == strings_view(attempts@),
            av == attempt_paths(path@),
            files == strings_view(existing_files@),
            first_file(all_candidates(rule@, av.take(a as int)), files) is None,
        decreases attempts.len() - a,
    {
        let cands = candidates_for(rule, attempts[a].as_str());
        let ghost cv = strings_view(cands@);
        let ghost rest = av.skip(a + 1);
        proof {
            assert(av.take(a + 1).drop_last() == av.take(a as int));
            assert(av.take(a + 1).last() == av[a as int]);
            assert(av =~= av.take(a + 1) + rest);
            lemma_all_candidates_concat(rule@, av.take(a + 1), rest);
            lemma_first_file_append(all_candidates(rule@, av.take(a as int)), cv, files);
            lemma_first_file_append(all_candidates(rule@, av.take(a + 1)), all_candidates(rule@, rest), files);
        }
        let mut k: usize = 0;
        while k < cands.len()
            invariant
                k <= cands@.len(),
                cv == strings_view(cands@),
                files == strings_view(existing_files@),
                av == attempt_paths(path@),
                first_file(all_candidates(rule@, av), files) == match first_file(cv, files) {
                    Some(f) => Some(f),
                    None => first_file(all_candidates(rule@, rest), files),
                },
                forall|j: int| 0 <= j < k ==> !files.contains(#[trigger] cv[j]),
            decreases cands.len() - k,
        {
            if is_listed(existing_files, &cands[k]) {
                proof {
                    lemma_first_file_hit(cv, files, k as int);
                }
                let hit = cands[k].clone();
                return Target::File(hit);
            }
            k = k + 1;
        }
        proof {
            lemma_first_file_none(cv, files);
        }
        a = a + 1;
    }
    assert(av.take(attempts@.len() as int) == av);
    let first = candidates_for(rule, path);
    Target::NotFound(first[0].clone())
}

/// The directory relative targets resolve against: the current file's
/// parent, or `.` when it has none.
pub open spec fn link_dir(current_file: Seq<char>) -> Seq<char> {
    match std_parent(current_file) {
        Some(d) => d,
        None => seq!['.'],
    }
}

/// `target` up to its first `#`.
pub open spec fn before_hash(target: Seq<char>) -> Seq<char> {
    match find_from(target, seq!['#'], 0) {
        Some(i) => target.take(i),
        None => target,
    }
}

/// Whether `s` contains `p` somewhere.
pub open spec fn contains_text(s: Seq<char>, p: Seq<char>) -> bool {
    find_from(s, p, 0) is Some
}

/// How a link target is classified before any file is looked up.
pub enum LinkKind {
    Anchor(Seq<char>),
    External,
    Probe(Seq<char>, RuleView),
}

/// The classification of `target` against `current_file` and
/// `bundle_root`: a bare `#fragment` is an anchor; a `://` or `mailto:`
/// scheme, or a protocol-relative `//host`, is external; a `/`-prefixed
/// path is probed under the bundle root (then literally); anything else
/// under the current file's directory. The fragment is dropped from paths.
pub open spec fn link_kind(current_file: Seq<char>, bundle_root: Seq<char>, target: Seq<char>) -> LinkKind {
    let path = before_hash(target);
    if target.len() > 0 && target[0] == '#' {
        LinkKind::Anchor(target.skip(1))
    } else if contains_text(path, seq![':', '/', '/']) || has_prefix(
        path,
        seq!['m', 'a', 'i', 'l', 't', 'o', ':'],
    ) {
        LinkKind::External
    } else if has_prefix(path, seq!['/', '/']) {
        LinkKind::External
    } else if has_prefix(path, seq!['/']) {
        LinkKind::Probe(path, RuleView::BundleAbsolute(bundle_root))
    } else {
        LinkKind::Probe(path, RuleView::Relative(link_dir(current_file)))
    }
}

/// Where `target` points from `current_file`, given the bundle root and
/// which paths are `files`.
pub open spec fn resolved_target(
    current_file: Seq<char>,
    bundle_root: Seq<char>,
    target: Seq<char>,
    files: Seq<Seq<char>>,
) -> TargetView {
    match link_kind(current_file, bundle_root, target) {
        LinkKind::Anchor(f) => TargetView::Anchor(f),
        LinkKind::External => TargetView::External(target),
        LinkKind::Probe(p, rule) => probed(p, rule, files),
    }
}

/// Every path resolving `target` may look up, in the order it would.
pub open spec fn candidates_of(current_file: Seq<char>, bundle_root: Seq<char>, target: Seq<char>) -> Seq<
    Seq<char>,
> {
    match link_kind(current_file, bundle_root, target) {
        LinkKind::Probe(p, rule) => all_candidates(rule, attempt_paths(p)),
        _ => Seq::empty(),
    }
}

enum Plan {
    Anchor(String),
    External,
    Probe(String, CandidateRule),
}

fn plan_link(base: LinkBase<'_>, target: &str) -> (r: Plan)
    ensures
        match r {
            Plan::Anchor(f) => link_kind(base.current_file@, base.bundle_root@, target@) == LinkKind::Anchor(f@),
            Plan::External => link_kind(base.current_file@, base.bundle_root@, target@) == LinkKind::External,
            Plan::Probe(p, rule) => link_kind(base.current_file@, base.bundle_root@, target@) == LinkKind::Probe(p@, rule@),
        },
{
    let cs = to_chars(target);
    let hash = ['#'];
    assert(hash@ == seq!['#']);
    let path_len = match find_exec(cs.as_slice(), &hash) {
        Some(i) => i,
        None => cs.len(),
    };
    let path = &cs.as_slice()[0..path_len];
    assert(path@ == before_hash(target@));
    if cs.len() > 0 && cs[0] == '#' {
        return Plan::Anchor(from_chars(&cs.as_slice()[1..cs.len()]));
    }
    let scheme_sep = [':', '/', '/'];
    let mailto = ['m', 'a', 'i', 'l', 't', 'o', ':'];
    let slash2 = ['/', '/'];
    let slash = ['/'];
    assert(scheme_sep@ == seq![':', '/', '/']);
    assert(mailto@ == seq!['m', 'a', 'i', 'l', 't', 'o', ':']);
    assert(slash2@ == seq!['/', '/']);
    assert(slash@ == seq!['/']);
    if find_exec(path, &scheme_sep).is_some() || starts_with(path, &mailto) {
        return Plan::External;
    }
    if starts_with(path, &slash2) {
        return Plan::External;
    }
    let p = from_chars(path);
    if starts_with(path, &slash) {
        Plan::Probe(p, CandidateRule::BundleAbsolute(base.bundle_root.to_owned()))
    } else {
        let dir = match path_parent(base.current_file) {
            Some(d) => d,
            None => from_chars(&['.']),
        };
        assert(dir@ == link_dir(base.current_file@));
        Plan::Probe(p, CandidateRule::Relative(dir))
    }
}

/// Every path resolving `target` from `base` may look up, in order; the
/// caller checks which are files before calling [`resolve_target`].
pub fn link_candidates(base: LinkBase<'_>, target: &str) -> (r: Vec<String>)
    ensures
        strings_view(r@) == candidates_of(base.current_file@, base.bundle_root@, target@),
{
    match plan_link(base, target) {
        Plan::Probe(p, rule) => {
            let attempts = attempts_for(p.as_str());
            let ghost av = strings_view(attempts@);
            let mut out: Vec<String> = Vec::new();
            let mut a: usize = 0;
            while a < attempts.len()
                invariant
                    a <= attempts@.len(),
                    av == strings_view(attempts@),
                    strings_view(out@) == all_candidates(rule@, av.take(a as int)),
                decreases attempts.len() - a,
            {
                let mut cands = candidates_for(&rule, attempts[a].as_str());
                let ghost before = strings_view(out@);
                let ghost cv = strings_view(cands@);
                out.append(&mut cands);
                assert(av.take(a + 1).drop_last() == av.take(a as int));
                assert(strings_view(out@) =~= before + cv);
                a = a + 1;
            }
            assert(av.take(attempts@.len() as int) == av);
            out
        },
        _ => {
            let out: Vec<String> = Vec::new();
            assert(strings_view(out@) =~= Seq::<Seq<char>>::empty());
            out
        },
    }
}

/// Classifies `target` (a link's raw destination) from `base`: a bare
/// `#fragment` is an anchor; anything with a `://` or `mailto:` scheme, or
/// a protocol-relative `//host` URL, is external; otherwise the fragment is
/// dropped and the path is probed — `/`-prefixed (bundle-absolute) paths
/// under the bundle root with `.`/`..` clamped, then as the literal
/// filesystem path; other paths under the current file's directory with no
/// clamping. `existing_files` lists which candidate paths are files.
pub fn resolve_target(base: LinkBase<'_>, target: &str, existing_files: &Vec<String>) -> (r: Target)
    ensures
        r@ == resolved_target(
            base.current_file@,
            base.bundle_root@,
            target@,
            strings_view(existing_files@),
        ),
{
    match plan_link(base, target) {
        Plan::Anchor(f) => Target::Anchor(f),
        Plan::External => Target::External(target.to_owned()),
        Plan::Probe(p, rule) => probe(p.as_str(), &rule, existing_files),
    }
}


proof fn lemma_first_file_member(cands: Seq<Seq<char>>, files: Seq<Seq<char>>)
    ensures
        first_file(cands, files) matches Some(f) ==> files.contains(f) && cands.contains(f),
    decreases cands.len(),
{
    if cands.len() > 0 && !files.contains(cands[0]) {
        lemma_first_file_member(cands.drop_first(), files);
        if let Some(f) = first_file(cands.drop_first(), files) {
            let k = choose|k: int| 0 <= k < cands.drop_first().len() && cands.drop_first()[k] == f;
            assert(cands[k + 1] == f);
        }
    } else if cands.len() > 0 {
        assert(cands[0] == cands[0]);
        assert(cands.contains(cands[0]));
    }
}

/// A link resolves to a file only when that file exists, and only to one
/// of the candidate paths the link names.
pub proof fn lemma_resolved_file_exists(
    current_file: Seq<char>,
    bundle_root: Seq<char>,
    target: Seq<char>,
    files: Seq<Seq<char>>,
)
    ensures
        resolved_target(current_file, bundle_root, target, files) matches TargetView::File(f) ==> {
            &&& files.contains(f)
            &&& candidates_of(current_file, bundle_root, target).contains(f)
        },
{
    match link_kind(current_file, bundle_root, target) {
        LinkKind::Probe(p, rule) => {
            lemma_first_file_member(all_candidates(rule, attempt_paths(p)), files);
        },
        _ => {},
    }
}


/// A link's `#fragment` never reaches the file lookup: for a path `p`
/// without `#` (and not empty, so the target is no bare anchor), the
/// target `p#f` is looked up exactly as `p` is, through the same candidate
/// files; an external target is reported whole, fragment included.
pub proof fn lemma_fragment_ignored(
    current_file: Seq<char>,
    bundle_root: Seq<char>,
    p: Seq<char>,
    f: Seq<char>,
    files: Seq<Seq<char>>,
)
    requires
        p.len() > 0,
        !p.contains('#'),
    ensures
        resolved_target(current_file, bundle_root, p + seq!['#'] + f, files) == match resolved_target(
            current_file,
            bundle_root,
            p,
            files,
        ) {
            TargetView::External(_) => TargetView::External(p + seq!['#'] + f),
            other => other,
        },
        candidates_of(current_file, bundle_root, p + seq!['#'] + f) == candidates_of(
            current_file,
            bundle_root,
            p,
        ),
{
    let t = p + seq!['#'] + f;
    let h = seq!['#'];
    assert forall|k: int| 0 <= k < p.len() implies !occurs_at(t, h, k) by {
        assert(t[k] == p[k]);
        assert(p.contains(p[k]));
        if occurs_at(t, h, k) {
            assert(t.subrange(k, k + 1)[0] == t[k]);
        }
    }
    lemma_find_from_skip(t, h, 0, p.len() as int);
    assert(t.subrange(p.len() as int, p.len() + 1 as int) =~= h);
    assert(find_from(t, h, 0) == Some(p.len() as int));
    assert(t.take(p.len() as int) =~= p);
    assert(before_hash(t) == p);
    assert forall|k: int| 0 <= k implies !occurs_at(p, h, k) by {
        if occurs_at(p, h, k) {
            assert(p.subrange(k, k + 1)[0] == p[k]);
            assert(p.contains(p[k]));
        }
    }
    lemma_find_from_none(p, h, 0);
    assert(before_hash(p) == p);
    assert(t[0] == p[0]);
    assert(p.contains(p[0]));
}

} // verus!
