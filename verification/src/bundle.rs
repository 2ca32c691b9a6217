//! OKF bundle-root detection.
//!
//! Absolute links (`/x/y.md`) in an OKF bundle are relative to the bundle
//! root, but nothing machine-readable declares where that root is: the root
//! `index.md` *may* carry `okf_version` frontmatter, and most
//! subdirectories have an `index.md` of their own. This module holds the
//! heuristic used when no root is given, over plain values: the viewer
//! reports which ancestor directories hold a `.git` entry or an `index.md`
//! file (with that file's first bytes), and the library decides.

use vstd::prelude::*;
use vstd::utf8::{decode_utf8, valid_utf8};
use crate::chars::{has_prefix, starts_with, str_eq, to_chars, trim_end, trim_end_len};
use crate::links::{first_file, is_listed, lemma_first_file_hit, lemma_first_file_none, strings_view};
use crate::paths::{path_eq, path_parent, path_starts_with, std_parent, std_same_path, std_starts_with};

verus! {

/// Upper bound on the bytes of an `index.md` looked at when searching for
/// the closing frontmatter fence: a huge file, or an unclosed `---`, costs
/// no more than this.
pub const MAX_FRONTMATTER_SCAN_BYTES: usize = 65536;

/// The text of `bytes`, if they are valid UTF-8.
///
/// Trusted: calls `std::str::from_utf8`, documented to succeed exactly on
/// valid UTF-8, whose characters are then the UTF-8 decoding of the bytes.
#[verifier::external_body]
fn decode_line(bytes: &[u8]) -> (r: Option<String>)
    ensures
        r is Some <==> valid_utf8(bytes@),
        r matches Some(s) ==> s@ == decode_utf8(bytes@),
{
    std::str::from_utf8(bytes).ok().map(|s| s.to_owned())
}

/// Where the line starting at byte `i` ends: just past its `\n`, or at the
/// end of `h`.
pub open spec fn line_end(h: Seq<u8>, i: int) -> int
    decreases h.len() - i,
{
    if i >= h.len() {
        h.len() as int
    } else if h[i] == 10u8 {
        i + 1
    } else {
        line_end(h, i + 1)
    }
}

/// A line ends after its start, within the bytes, at its first newline.
pub proof fn lemma_line_end(h: Seq<u8>, i: int)
    requires
        0 <= i,
    ensures
        i < h.len() ==> i < line_end(h, i) <= h.len(),
        i >= h.len() ==> line_end(h, i) == h.len(),
        forall|j: int| i <= j < line_end(h, i) - 1 ==> h[j] != 10u8,
        i < h.len() ==> (h[line_end(h, i) - 1] == 10u8 || line_end(h, i) == h.len()),
    decreases h.len() - i,
{
    if i < h.len() && h[i] != 10u8 {
        lemma_line_end(h, i + 1);
    }
}

/// The first bytes of an `index.md` that the scan looks at.
pub open spec fn scan_window(h: Seq<u8>) -> Seq<u8> {
    if h.len() > MAX_FRONTMATTER_SCAN_BYTES { h.subrange(0, MAX_FRONTMATTER_SCAN_BYTES as int) } else { h }
}

/// The closing (or opening) fence line, whitespace trimmed.
pub open spec fn fence() -> Seq<char> {
    seq!['-', '-', '-']
}

/// The key that marks a bundle root.
pub open spec fn okf_key() -> Seq<char> {
    seq!['o', 'k', 'f', '_', 'v', 'e', 'r', 's', 'i', 'o', 'n', ':']
}

/// Scans the frontmatter lines of window `w` from byte `i`, `found`
/// recording whether a top-level `okf_version:` line was seen: the answer
/// is `found` at the closing fence, and no when the window runs out, a
/// line is not UTF-8, or the last line has no newline and the window was
/// cut off by the byte cap (it might not really end there).
pub open spec fn scan_frontmatter(w: Seq<u8>, i: int, found: bool) -> bool
    decreases w.len() - i,
{
    if i < 0 || i >= w.len() {
        false
    } else {
        let e = line_end(w, i);
        let line = w.subrange(i, e);
        proof {
            lemma_line_end(w, i);
        }
        if !valid_utf8(line) {
            false
        } else if w[e - 1] != 10u8 && w.len() >= MAX_FRONTMATTER_SCAN_BYTES {
            false
        } else {
            let t = trim_end(decode_utf8(line));
            if t == fence() {
                found
            } else {
                scan_frontmatter(w, e, found || has_prefix(t, okf_key()))
            }
        }
    }
}

/// Whether a file with bytes `h` opens with a `---` frontmatter block that
/// holds a top-level `okf_version:` key, looking no further than
/// [`MAX_FRONTMATTER_SCAN_BYTES`].
pub open spec fn declares_okf(h: Seq<u8>) -> bool {
    let w = scan_window(h);
    let e = line_end(w, 0);
    let first = w.subrange(0, e);
    &&& w.len() > 0
    &&& valid_utf8(first)
    &&& trim_end(decode_utf8(first)) == fence()
    &&& scan_frontmatter(w, e, false)
}

/// The trimmed text of line `[i, e)` of `h`, if it is UTF-8.
fn line_text(h: &[u8], i: usize, e: usize) -> (r: Option<Vec<char>>)
    requires
        i <= e <= h@.len(),
    ensures
        r is Some <==> valid_utf8(h@.subrange(i as int, e as int)),
        r matches Some(t) ==> t@ == trim_end(decode_utf8(h@.subrange(i as int, e as int))),
{
    let mut bytes: Vec<u8> = Vec::new();
    let mut k: usize = i;
    while k < e
        invariant
            i <= k <= e <= h@.len(),
            bytes@ == h@.subrange(i as int, k as int),
        decreases e - k,
    {
        bytes.push(h[k]);
        k = k + 1;
        assert(bytes@ =~= h@.subrange(i as int, k as int));
    }
    match decode_line(bytes.as_slice()) {
        None => None,
        Some(s) => {
            let c = to_chars(s.as_str());
            let n = trim_end_len(c.as_slice());
            let mut t: Vec<char> = Vec::new();
            let mut j: usize = 0;
            while j < n
                invariant
                    j <= n <= c@.len(),
                    t@ == c@.subrange(0, j as int),
                decreases n - j,
            {
                t.push(c[j]);
                j = j + 1;
                assert(t@ =~= c@.subrange(0, j as int));
            }
            Some(t)
        },
    }
}

fn find_line_end(h: &[u8], i: usize, n: usize) -> (e: usize)
    requires
        i <= n <= h@.len(),
    ensures
        e == line_end(h@.subrange(0, n as int), i as int),
{
    let ghost w = h@.subrange(0, n as int);
    let mut k: usize = i;
    while k < n && h[k] != 10u8
        invariant
            i <= k <= n <= h@.len(),
            w == h@.subrange(0, n as int),
            line_end(w, k as int) == line_end(w, i as int),
        decreases n - k,
    {
        k = k + 1;
    }
    if k < n {
        k + 1
    } else {
        k
    }
}

/// Whether a file whose contents start with `head` opens with a `---`
/// frontmatter block holding a top-level `okf_version:` key. Only the
/// first [`MAX_FRONTMATTER_SCAN_BYTES`] bytes count: no opening fence, a
/// fence not closed within them, or text that is not UTF-8 before the
/// closing fence all mean no, as does an indented `okf_version:` nested
/// under another key. A last line without a newline that ends exactly at
/// the cap counts as unclosed, since the file may go on past it.
pub fn declares_okf_version(head: &[u8]) -> (r: bool)
    ensures
        r == declares_okf(head@),
{
    let n = if head.len() > MAX_FRONTMATTER_SCAN_BYTES { MAX_FRONTMATTER_SCAN_BYTES } else { head.len() };
    let ghost w = head@.subrange(0, n as int);
    assert(w == scan_window(head@));
    if n == 0 {
        return false;
    }
    let e0 = find_line_end(head, 0, n);
    proof {
        lemma_line_end(w, 0);
        assert(w.subrange(0, e0 as int) == head@.subrange(0, e0 as int));
    }
    let first = match line_text(head, 0, e0) {
        None => return false,
        Some(t) => t,
    };
    let fence_chars: [char; 3] = ['-', '-', '-'];
    let key: [char; 12] = ['o', 'k', 'f', '_', 'v', 'e', 'r', 's', 'i', 'o', 'n', ':'];
    assert(fence_chars@ =~= fence());
    assert(key@ =~= okf_key());
    if !crate::chars::chars_eq(first.as_slice(), &fence_chars) {
        return false;
    }
    let mut i: usize = e0;
    let mut found = false;
    while i < n
        invariant
            0 < e0 <= i <= n <= head@.len(),
            n <= MAX_FRONTMATTER_SCAN_BYTES,
            w == head@.subrange(0, n as int),
            w == scan_window(head@),
            fence_chars@ == fence(),
            key@ == okf_key(),
            declares_okf(head@) == scan_frontmatter(w, i as int, found),
        decreases n - i,
    {
        let e = find_line_end(head, i, n);
        proof {
            lemma_line_end(w, i as int);
            assert(w.subrange(i as int, e as int) == head@.subrange(i as int, e as int));
        }
        let t = match line_text(head, i, e) {
            None => {
                assert(!scan_frontmatter(w, i as int, found));
                return false;
            },
            Some(t) => t,
        };
        assert(w[e - 1] == head@[e - 1]);
        if head[e - 1] != 10u8 && n >= MAX_FRONTMATTER_SCAN_BYTES {
            assert(!scan_frontmatter(w, i as int, found));
            return false;
        }
        if crate::chars::chars_eq(t.as_slice(), &fence_chars) {
            return found;
        }
        if starts_with(t.as_slice(), &key) {
            found = true;
        }
        i = e;
    }
    false
}


/// Bytes `h` and anything after the first [`MAX_FRONTMATTER_SCAN_BYTES`]
/// of them give the same answer: a huge `index.md` is judged by its start.
pub proof fn lemma_scan_ignores_bytes_past_cap(h: Seq<u8>, rest: Seq<u8>)
    requires
        h.len() >= MAX_FRONTMATTER_SCAN_BYTES,
    ensures
        declares_okf(h + rest) == declares_okf(h),
{
    assert(scan_window(h + rest) =~= scan_window(h));
}

/// `p` followed by its successive parents, at most `fuel` paths.
pub open spec fn parent_chain(p: Seq<char>, fuel: nat) -> Seq<Seq<char>>
    decreases fuel,
{
    if fuel == 0 {
        Seq::empty()
    } else {
        match std_parent(p) {
            None => seq![p],
            Some(q) => seq![p] + parent_chain(q, (fuel - 1) as nat),
        }
    }
}

/// `p` and its ancestors, nearest first (as `Path::ancestors`): each path
/// is the parent of the one before, and the last has none. Every parent is
/// shorter than its child, so a path has at most its length in ancestors.
pub open spec fn ancestors_of(p: Seq<char>) -> Seq<Seq<char>> {
    parent_chain(p, p.len() + 1)
}

/// `p` and its ancestors, nearest first.
pub fn ancestors(p: &str) -> (r: Vec<String>)
    ensures
        strings_view(r@) == ancestors_of(p@),
        r@.len() >= 1,
        r@[0]@ == p@,
{
    let mut out: Vec<String> = Vec::new();
    let mut cur: String = p.to_owned();
    let ghost mut fuel: nat = (p@.len() + 1) as nat;
    loop
        invariant
            strings_view(out@) + parent_chain(cur@, fuel) == ancestors_of(p@),
            cur@.len() + 1 <= fuel,
            out@.len() == 0 ==> cur@ == p@,
            out@.len() > 0 ==> out@[0]@ == p@,
        decreases cur@.len(),
    {
        let next = path_parent(cur.as_str());
        let ghost before = out@;
        let ghost c = cur@;
        out.push(cur);
        assert(strings_view(out@) =~= strings_view(before).push(c));
        match next {
            None => {
                assert(parent_chain(c, fuel) == seq![c]);
                assert(strings_view(out@) =~= strings_view(before) + seq![c]);
                return out;
            },
            Some(q) => {
                assert(parent_chain(c, fuel) == seq![c] + parent_chain(q@, (fuel - 1) as nat));
                assert(strings_view(out@) + parent_chain(q@, (fuel - 1) as nat) =~= strings_view(before)
                    + parent_chain(c, fuel));
                cur = q;
                proof {
                    fuel = (fuel - 1) as nat;
                }
            },
        }
    }
}

/// An optional string as plain characters.
pub open spec fn opt_string(o: Option<String>) -> Option<Seq<char>> {
    match o {
        Some(s) => Some(s@),
        None => None,
    }
}

/// The nearest ancestor of `start` (itself included) among `git_dirs`, the
/// directories holding a `.git` entry (a directory for a checkout, a file
/// for worktrees and submodules).
pub fn git_toplevel(start: &str, git_dirs: &Vec<String>) -> (r: Option<String>)
    ensures
        opt_string(r) == first_file(ancestors_of(start@), strings_view(git_dirs@)),
{
    let anc = ancestors(start);
    let ghost a = strings_view(anc@);
    let ghost files = strings_view(git_dirs@);
    let mut k: usize = 0;
    while k < anc.len()
        invariant
            k <= anc@.len(),
            a == strings_view(anc@),
            a == ancestors_of(start@),
            files == strings_view(git_dirs@),
            forall|j: int| 0 <= j < k ==> !files.contains(#[trigger] a[j]),
        decreases anc.len() - k,
    {
        if is_listed(git_dirs, &anc[k]) {
            proof {
                lemma_first_file_hit(a, files, k as int);
            }
            return Some(anc[k].clone());
        }
        k = k + 1;
    }
    proof {
        lemma_first_file_none(a, files);
    }
    None
}

/// The first ancestor the root walk from `start` must not inspect: the
/// parent of the git toplevel (so the toplevel itself is still a
/// candidate), else the home directory `home` when `start` lies strictly
/// inside it, else none (walk to the filesystem root).
pub open spec fn walk_stop_of(start: Seq<char>, git_dirs: Seq<Seq<char>>, home: Option<Seq<char>>) -> Option<
    Seq<char>,
> {
    match first_file(ancestors_of(start), git_dirs) {
        Some(t) => std_parent(t),
        None => match home {
            None => None,
            Some(h) => if !std_same_path(start, h) && std_starts_with(start, h) {
                Some(h)
            } else {
                None
            },
        },
    }
}

/// Where the root walk from `start` stops, given the directories holding
/// a `.git` entry and the home directory (`None` when unknown). A stray
/// `~/index.md` must not become the root of every file under the home
/// directory.
pub fn walk_stop(start: &str, git_dirs: &Vec<String>, home: Option<&str>) -> (r: Option<String>)
    ensures
        opt_string(r) == walk_stop_of(
            start@,
            strings_view(git_dirs@),
            match home {
                Some(h) => Some(h@),
                None => None,
            },
        ),
{
    if let Some(toplevel) = git_toplevel(start, git_dirs) {
        return path_parent(toplevel.as_str());
    }
    match home {
        None => None,
        Some(h) => {
            if !path_eq(start, h) && path_starts_with(start, h) {
                Some(h.to_owned())
            } else {
                None
            }
        },
    }
}

/// An `index.md` file found in directory `dir`, with the first bytes of
/// its contents (at least [`MAX_FRONTMATTER_SCAN_BYTES`] of them when the
/// file is that long; none when it cannot be read).
#[derive(Debug)]
pub struct IndexFile {
    pub dir: String,
    pub head: Vec<u8>,
}

/// An [`IndexFile`] as plain values.
pub struct IndexFileView {
    pub dir: Seq<char>,
    pub head: Seq<u8>,
}

impl View for IndexFile {
    type V = IndexFileView;

    open spec fn view(&self) -> IndexFileView {
        IndexFileView { dir: self.dir@, head: self.head@ }
    }
}

/// The values of a list of index files.
pub open spec fn index_files_view(v: Seq<IndexFile>) -> Seq<IndexFileView> {
    v.map_values(|f: IndexFile| f@)
}

/// The head of the first index file listed for directory `d`, if any.
pub open spec fn index_head(files: Seq<IndexFileView>, d: Seq<char>) -> Option<Seq<u8>>
    decreases files.len(),
{
    if files.len() == 0 {
        None
    } else if files[0].dir == d {
        Some(files[0].head)
    } else {
        index_head(files.drop_first(), d)
    }
}

/// Whether `d` is the stop directory.
pub open spec fn is_stop(d: Seq<char>, stop: Option<Seq<char>>) -> bool {
    stop matches Some(s) && std_same_path(d, s)
}

/// The root walk over `chain` from position `k`, `outer` being the
/// outermost directory with an `index.md` seen so far: the first directory
/// whose `index.md` declares `okf_version`, else the outermost one with an
/// `index.md`, breaking before the stop directory.
pub open spec fn root_walk(
    chain: Seq<Seq<char>>,
    k: int,
    stop: Option<Seq<char>>,
    files: Seq<IndexFileView>,
    outer: Option<Seq<char>>,
) -> Option<Seq<char>>
    decreases chain.len() - k,
{
    if k < 0 || k >= chain.len() || is_stop(chain[k], stop) {
        outer
    } else {
        match index_head(files, chain[k]) {
            None => root_walk(chain, k + 1, stop, files, outer),
            Some(h) => if declares_okf(h) {
                Some(chain[k])
            } else {
                root_walk(chain, k + 1, stop, files, Some(chain[k]))
            },
        }
    }
}

/// The bundle root for directory `start`: walking `start` and its
/// ancestors and breaking before `stop`, (1) the first directory whose
/// `index.md` declares `okf_version` (only the bundle root's `index.md`
/// may carry frontmatter), else (2) the outermost directory with an
/// `index.md` (gaps in the chain are fine), else (3) `start`.
pub open spec fn bundle_root(start: Seq<char>, stop: Option<Seq<char>>, files: Seq<IndexFileView>) -> Seq<char> {
    match root_walk(ancestors_of(start), 0, stop, files, None) {
        Some(r) => r,
        None => start,
    }
}

fn find_index<'a>(files: &'a Vec<IndexFile>, d: &str) -> (r: Option<&'a IndexFile>)
    ensures
        match r {
            Some(f) => index_head(index_files_view(files@), d@) == Some(f.head@),
            None => index_head(index_files_view(files@), d@) is None,
        },
{
    let ghost v = index_files_view(files@);
    assert(v.subrange(0, v.len() as int) =~= v);
    let mut k: usize = 0;
    while k < files.len()
        invariant
            k <= files@.len(),
            v == index_files_view(files@),
            index_head(v, d@) == index_head(v.subrange(k as int, v.len() as int), d@),
        decreases files.len() - k,
    {
        let ghost rest = v.subrange(k as int, v.len() as int);
        assert(rest.drop_first() =~= v.subrange(k + 1, v.len() as int));
        if str_eq(files[k].dir.as_str(), d) {
            return Some(&files[k]);
        }
        k = k + 1;
    }
    None
}

/// The bundle root for directory `start`, walking up and breaking before
/// `stop` (see [`bundle_root`]); `index_files` lists the `index.md` files
/// of the directories walked.
pub fn detect_root_bounded(start: &str, stop: Option<&str>, index_files: &Vec<IndexFile>) -> (r: String)
    ensures
        r@ == bundle_root(
            start@,
            match stop {
                Some(s) => Some(s@),
                None => None,
            },
            index_files_view(index_files@),
        ),
{
    let ghost st = match stop {
        Some(s) => Some(s@),
        None => None::<Seq<char>>,
    };
    let ghost files = index_files_view(index_files@);
    let anc = ancestors(start);
    let ghost a = strings_view(anc@);
    let mut outermost: Option<usize> = None;
    let mut k: usize = 0;
    while k < anc.len()
        invariant
            k <= anc@.len(),
            a == strings_view(anc@),
            a == ancestors_of(start@),
            files == index_files_view(index_files@),
            st == match stop {
                Some(s) => Some(s@),
                None => None::<Seq<char>>,
            },
            outermost matches Some(j) ==> j < k,
            root_walk(a, 0, st, files, None) == root_walk(
                a,
                k as int,
                st,
                files,
                match outermost {
                    Some(j) => Some(a[j as int]),
                    None => None,
                },
            ),
        ensures
            outermost matches Some(j) ==> j < anc@.len(),
            root_walk(a, 0, st, files, None) == match outermost {
                Some(j) => Some(a[j as int]),
                None => None::<Seq<char>>,
            },
        decreases anc.len() - k,
    {
        let ghost outer = match outermost {
            Some(j) => Some(a[j as int]),
            None => None::<Seq<char>>,
        };
        let at_stop = match stop {
            Some(s) => path_eq(anc[k].as_str(), s),
            None => false,
        };
        if at_stop {
            assert(is_stop(a[k as int], st));
            break;
        }
        match find_index(index_files, anc[k].as_str()) {
            None => {},
            Some(f) => {
                if declares_okf_version(f.head.as_slice()) {
                    return anc[k].clone();
                }
                outermost = Some(k);
            },
        }
        k = k + 1;
    }
    match outermost {
        Some(j) => anc[j].clone(),
        None => start.to_owned(),
    }
}

/// The directory a file's bundle is searched from: its parent, or the
/// path itself when it has none.
pub open spec fn start_dir(file: Seq<char>) -> Seq<char> {
    match std_parent(file) {
        Some(d) => d,
        None => file,
    }
}

/// The bundle root for the (absolute, symlink-resolved) file `file`: the
/// walk starts at its directory and stops at [`walk_stop`]. `git_dirs` and
/// `home` are as for [`walk_stop`], `index_files` as for
/// [`detect_root_bounded`].
pub fn detect_root(file: &str, git_dirs: &Vec<String>, home: Option<&str>, index_files: &Vec<IndexFile>) -> (r:
    String)
    ensures
        r@ == bundle_root(
            start_dir(file@),
            walk_stop_of(
                start_dir(file@),
                strings_view(git_dirs@),
                match home {
                    Some(h) => Some(h@),
                    None => None,
                },
            ),
            index_files_view(index_files@),
        ),
{
    let dir = match path_parent(file) {
        Some(d) => d,
        None => file.to_owned(),
    };
    let stop = walk_stop(dir.as_str(), git_dirs, home);
    match stop {
        Some(s) => detect_root_bounded(dir.as_str(), Some(s.as_str()), index_files),
        None => detect_root_bounded(dir.as_str(), None, index_files),
    }
}


/// Whether `r` is one of the directories of `chain` reached before the
/// stop directory (neither it nor any directory before it is the stop).
pub open spec fn reached_before_stop(chain: Seq<Seq<char>>, stop: Option<Seq<char>>, r: Seq<char>) -> bool {
    exists|i: int|
        0 <= i < chain.len() && chain[i] == r && forall|j: int| 0 <= j <= i ==> !is_stop(#[trigger] chain[j], stop)
}

proof fn lemma_walk_reached(
    chain: Seq<Seq<char>>,
    k: int,
    stop: Option<Seq<char>>,
    files: Seq<IndexFileView>,
    outer: Option<Seq<char>>,
)
    requires
        0 <= k,
        forall|j: int| 0 <= j < k && j < chain.len() ==> !is_stop(#[trigger] chain[j], stop),
        outer matches Some(o) ==> exists|i: int| 0 <= i < k && i < chain.len() && chain[i] == o,
    ensures
        root_walk(chain, k, stop, files, outer) matches Some(r) ==> reached_before_stop(chain, stop, r),
    decreases chain.len() - k,
{
    if let Some(o) = outer {
        let i = choose|i: int| 0 <= i < k && i < chain.len() && chain[i] == o;
        assert(forall|j: int| 0 <= j <= i ==> !is_stop(#[trigger] chain[j], stop));
    }
    if k < chain.len() && !is_stop(chain[k], stop) {
        assert(forall|j: int| 0 <= j <= k ==> !is_stop(#[trigger] chain[j], stop));
        match index_head(files, chain[k]) {
            None => lemma_walk_reached(chain, k + 1, stop, files, outer),
            Some(h) => {
                if !declares_okf(h) {
                    lemma_walk_reached(chain, k + 1, stop, files, Some(chain[k]));
                }
            },
        }
    }
}

/// The detected root is `start` itself or a directory on the walk up from
/// it, never the stop directory or anything above it.
pub proof fn lemma_root_within_walk(start: Seq<char>, stop: Option<Seq<char>>, files: Seq<IndexFileView>)
    ensures
        bundle_root(start, stop, files) == start || reached_before_stop(
            ancestors_of(start),
            stop,
            bundle_root(start, stop, files),
        ),
{
    lemma_walk_reached(ancestors_of(start), 0, stop, files, None);
}

/// Whether directory `d` has an `index.md` declaring `okf_version`.
pub open spec fn declares_at(files: Seq<IndexFileView>, d: Seq<char>) -> bool {
    index_head(files, d) matches Some(h) && declares_okf(h)
}

proof fn lemma_walk_nearest_declaring(
    chain: Seq<Seq<char>>,
    k: int,
    stop: Option<Seq<char>>,
    files: Seq<IndexFileView>,
    outer: Option<Seq<char>>,
    m: int,
)
    requires
        0 <= k <= m < chain.len(),
        declares_at(files, chain[m]),
        forall|j: int| k <= j <= m ==> !is_stop(#[trigger] chain[j], stop),
        forall|j: int| k <= j < m ==> !declares_at(files, #[trigger] chain[j]),
    ensures
        root_walk(chain, k, stop, files, outer) == Some(chain[m]),
    decreases m - k,
{
    if k < m {
        assert(!is_stop(chain[k], stop));
        assert(!declares_at(files, chain[k]));
        match index_head(files, chain[k]) {
            None => lemma_walk_nearest_declaring(chain, k + 1, stop, files, outer, m),
            Some(h) => lemma_walk_nearest_declaring(chain, k + 1, stop, files, Some(chain[k]), m),
        }
    } else {
        assert(!is_stop(chain[k], stop));
    }
}

/// The nearest directory on the walk whose `index.md` declares
/// `okf_version` is the root, whatever `index.md` files lie further out.
pub proof fn lemma_nearest_declaring_is_root(
    start: Seq<char>,
    stop: Option<Seq<char>>,
    files: Seq<IndexFileView>,
    m: int,
)
    requires
        0 <= m < ancestors_of(start).len(),
        declares_at(files, ancestors_of(start)[m]),
        forall|j: int| 0 <= j <= m ==> !is_stop(#[trigger] ancestors_of(start)[j], stop),
        forall|j: int| 0 <= j < m ==> !declares_at(files, #[trigger] ancestors_of(start)[j]),
    ensures
        bundle_root(start, stop, files) == ancestors_of(start)[m],
{
    lemma_walk_nearest_declaring(ancestors_of(start), 0, stop, files, None, m);
}

proof fn lemma_walk_no_index(
    chain: Seq<Seq<char>>,
    k: int,
    stop: Option<Seq<char>>,
    files: Seq<IndexFileView>,
)
    requires
        0 <= k,
        forall|j: int| 0 <= j < chain.len() ==> index_head(files, #[trigger] chain[j]) is None,
    ensures
        root_walk(chain, k, stop, files, None) is None,
    decreases chain.len() - k,
{
    if k < chain.len() && !is_stop(chain[k], stop) {
        lemma_walk_no_index(chain, k + 1, stop, files);
    }
}

/// With no `index.md` anywhere on the walk, the root is the start
/// directory itself.
pub proof fn lemma_no_index_root_is_start(start: Seq<char>, stop: Option<Seq<char>>, files: Seq<IndexFileView>)
    requires
        forall|j: int| 0 <= j < ancestors_of(start).len() ==> index_head(files, #[trigger] ancestors_of(start)[j]) is None,
    ensures
        bundle_root(start, stop, files) == start,
{
    lemma_walk_no_index(ancestors_of(start), 0, stop, files);
}


/// Whether `x` is one complete line of frontmatter that is neither a fence
/// nor an `okf_version:` key: UTF-8, ending in its only newline.
pub open spec fn plain_frontmatter_line(x: Seq<u8>) -> bool {
    &&& x.len() > 0
    &&& x.last() == 10u8
    &&& forall|j: int| 0 <= j < x.len() - 1 ==> x[j] != 10u8
    &&& valid_utf8(x)
    &&& trim_end(decode_utf8(x)) != fence()
    &&& !has_prefix(trim_end(decode_utf8(x)), okf_key())
}

proof fn lemma_line_end_common_prefix(u: Seq<u8>, v: Seq<u8>, k: int, i: int)
    requires
        0 <= i < k <= u.len(),
        k <= v.len(),
        u.subrange(0, k) == v.subrange(0, k),
        u[k - 1] == 10u8,
    ensures
        line_end(u, i) == line_end(v, i),
        line_end(u, i) <= k,
    decreases k - i,
{
    assert(u[i] == u.subrange(0, k)[i]);
    assert(v[i] == v.subrange(0, k)[i]);
    if u[i] != 10u8 {
        lemma_line_end_common_prefix(u, v, k, i + 1);
    }
}

proof fn lemma_line_end_shift(u: Seq<u8>, v: Seq<u8>, p: int, q: int, i: int)
    requires
        0 <= p <= i,
        0 <= q,
        p <= u.len(),
        q <= v.len(),
        u.subrange(p, u.len() as int) == v.subrange(q, v.len() as int),
    ensures
        line_end(u, i) - p == line_end(v, i - p + q) - q,
    decreases u.len() - i,
{
    let su = u.subrange(p, u.len() as int);
    let sv = v.subrange(q, v.len() as int);
    assert(su.len() == u.len() - p);
    assert(sv.len() == v.len() - q);
    assert(su.len() == sv.len());
    if i < u.len() {
        assert(u[i] == u.subrange(p, u.len() as int)[i - p]);
        assert(v[i - p + q] == v.subrange(q, v.len() as int)[i - p]);
        if u[i] != 10u8 {
            lemma_line_end_shift(u, v, p, q, i + 1);
        }
    }
}

proof fn lemma_scan_shift(u: Seq<u8>, v: Seq<u8>, p: int, q: int, i: int, found: bool)
    requires
        0 <= p <= i,
        0 <= q,
        p <= u.len(),
        q <= v.len(),
        u.len() < MAX_FRONTMATTER_SCAN_BYTES,
        v.len() < MAX_FRONTMATTER_SCAN_BYTES,
        u.subrange(p, u.len() as int) == v.subrange(q, v.len() as int),
    ensures
        scan_frontmatter(u, i, found) == scan_frontmatter(v, i - p + q, found),
    decreases u.len() - i,
{
    let su = u.subrange(p, u.len() as int);
    let sv = v.subrange(q, v.len() as int);
    assert(su.len() == u.len() - p);
    assert(sv.len() == v.len() - q);
    assert(su.len() == sv.len());
    let j = i - p + q;
    if i < u.len() {
        lemma_line_end_shift(u, v, p, q, i);
        lemma_line_end(u, i);
        lemma_line_end(v, j);
        let e = line_end(u, i);
        let ev = line_end(v, j);
        assert(u.subrange(i, e) =~= v.subrange(j, ev)) by {
            assert forall|t: int| 0 <= t < e - i implies u.subrange(i, e)[t] == v.subrange(j, ev)[t] by {
                assert(u[i + t] == u.subrange(p, u.len() as int)[i + t - p]);
                assert(v[j + t] == v.subrange(q, v.len() as int)[i + t - p]);
            }
        }
        assert(u[e - 1] == u.subrange(p, u.len() as int)[e - 1 - p]);
        assert(v[ev - 1] == v.subrange(q, v.len() as int)[e - 1 - p]);
        let t = trim_end(decode_utf8(u.subrange(i, e)));
        lemma_scan_shift(u, v, p, q, e, found || has_prefix(t, okf_key()));
    }
}

proof fn lemma_scan_insert(a: Seq<u8>, x: Seq<u8>, b: Seq<u8>, i: int, found: bool)
    requires
        0 <= i <= a.len(),
        a.len() > 0,
        a.last() == 10u8,
        plain_frontmatter_line(x),
        a.len() + x.len() + b.len() < MAX_FRONTMATTER_SCAN_BYTES,
    ensures
        scan_frontmatter(a + x + b, i, found) == scan_frontmatter(a + b, i, found),
    decreases a.len() - i,
{
    let h1 = a + x + b;
    let h2 = a + b;
    if i == a.len() {
        let e: int = (a.len() + x.len()) as int;
        lemma_line_end(h1, i);
        let e1 = line_end(h1, i);
        assert(h1[e - 1] == 10u8);
        if e1 < e {
            assert(h1[e1 - 1] == x[e1 - 1 - a.len()]);
        }
        assert(e1 == e);
        assert(h1.subrange(i, e) =~= x);
        assert(h1.subrange(e, h1.len() as int) =~= h2.subrange(a.len() as int, h2.len() as int));
        lemma_scan_shift(h1, h2, e, a.len() as int, e, found);
    } else {
        let k = a.len() as int;
        assert(h1.subrange(0, k) =~= h2.subrange(0, k));
        assert((a + x)[k - 1] == a[k - 1]);
        assert(h1[k - 1] == a.last());
        lemma_line_end_common_prefix(h1, h2, k, i);
        lemma_line_end(h1, i);
        let e = line_end(h1, i);
        assert(h1.subrange(i, e) =~= h2.subrange(i, e));
        assert(h1[e - 1] == h2[e - 1]);
        let t = trim_end(decode_utf8(h1.subrange(i, e)));
        lemma_scan_insert(a, x, b, e, found || has_prefix(t, okf_key()));
    }
}

/// Where the key sits among the frontmatter lines does not matter: adding
/// a plain frontmatter line (neither fence nor key) anywhere after the
/// opening line leaves the answer unchanged, so a top-level
/// `okf_version:` line counts wherever it stands before the closing fence
/// (for files within the scan cap).
pub proof fn lemma_extra_frontmatter_line_irrelevant(a: Seq<u8>, x: Seq<u8>, b: Seq<u8>)
    requires
        a.len() > 0,
        a.last() == 10u8,
        plain_frontmatter_line(x),
        a.len() + x.len() + b.len() < MAX_FRONTMATTER_SCAN_BYTES,
    ensures
        declares_okf(a + x + b) == declares_okf(a + b),
{
    let h1 = a + x + b;
    let h2 = a + b;
    let k = a.len() as int;
    assert(scan_window(h1) == h1);
    assert(scan_window(h2) == h2);
    assert(h1.subrange(0, k) =~= h2.subrange(0, k));
    assert((a + x)[k - 1] == a[k - 1]);
    assert(h1[k - 1] == a.last());
    lemma_line_end_common_prefix(h1, h2, k, 0);
    lemma_line_end(h1, 0);
    let e = line_end(h1, 0);
    assert(0 < e <= k);
    assert(h1.subrange(0, e) =~= h2.subrange(0, e)) by {
        assert forall|t: int| 0 <= t < e implies h1.subrange(0, e)[t] == h2.subrange(0, e)[t] by {
            assert(h1[t] == h1.subrange(0, k)[t]);
            assert(h2[t] == h2.subrange(0, k)[t]);
        }
    }
    lemma_scan_insert(a, x, b, e, false);
}

} // verus!
